//! Speaker layouts: which speaker each capture channel stands for, how a layout is read
//! from a channel count or a WAVEFORMATEXTENSIBLE channel mask, and how it is described.
use vstd::prelude::*;
use vstd::string::*;

use crate::text::{decimal, push_decimal, push_str};

verus! {

/// The speaker a capture channel stands for.
#[derive(Debug, Clone, Copy, PartialEq, Eq, Structural)]
pub enum SpeakerRole {
    FrontLeft,
    FrontRight,
    FrontCenter,
    Lfe,
    BackLeft,
    BackRight,
    FrontLeftOfCenter,
    FrontRightOfCenter,
    BackCenter,
    SideLeft,
    SideRight,
    TopCenter,
    TopFrontLeft,
    TopFrontCenter,
    TopFrontRight,
    TopBackLeft,
    TopBackCenter,
    TopBackRight,
    Unknown,
}

/// The short label of a role, as the startup banner and the device list print it.
pub open spec fn short_name_of(r: SpeakerRole) -> Seq<char> {
    match r {
        SpeakerRole::FrontLeft => "FL"@,
        SpeakerRole::FrontRight => "FR"@,
        SpeakerRole::FrontCenter => "FC"@,
        SpeakerRole::Lfe => "LFE"@,
        SpeakerRole::BackLeft => "BL"@,
        SpeakerRole::BackRight => "BR"@,
        SpeakerRole::FrontLeftOfCenter => "FLC"@,
        SpeakerRole::FrontRightOfCenter => "FRC"@,
        SpeakerRole::BackCenter => "BC"@,
        SpeakerRole::SideLeft => "SL"@,
        SpeakerRole::SideRight => "SR"@,
        SpeakerRole::TopCenter => "TC"@,
        SpeakerRole::TopFrontLeft => "TFL"@,
        SpeakerRole::TopFrontCenter => "TFC"@,
        SpeakerRole::TopFrontRight => "TFR"@,
        SpeakerRole::TopBackLeft => "TBL"@,
        SpeakerRole::TopBackCenter => "TBC"@,
        SpeakerRole::TopBackRight => "TBR"@,
        SpeakerRole::Unknown => "?"@,
    }
}

/// Roles that have no direction: the subwoofer, and a channel nothing is known about.
pub open spec fn omni(r: SpeakerRole) -> bool {
    r == SpeakerRole::Lfe || r == SpeakerRole::Unknown
}

/// Roles placed above the listener: the seven height speakers.
pub open spec fn overhead(r: SpeakerRole) -> bool {
    ||| r == SpeakerRole::TopCenter
    ||| r == SpeakerRole::TopFrontLeft
    ||| r == SpeakerRole::TopFrontCenter
    ||| r == SpeakerRole::TopFrontRight
    ||| r == SpeakerRole::TopBackLeft
    ||| r == SpeakerRole::TopBackCenter
    ||| r == SpeakerRole::TopBackRight
}

impl SpeakerRole {
    /// Whether the role has no direction and is spread over every light.
    pub fn is_omni(self) -> (b: bool)
        ensures
            b == omni(self),
    {
        match self {
            SpeakerRole::Lfe | SpeakerRole::Unknown => true,
            _ => false,
        }
    }

    /// Whether the role is a height speaker, above the listener.
    pub fn is_overhead(self) -> (b: bool)
        ensures
            b == overhead(self),
    {
        match self {
            SpeakerRole::TopCenter | SpeakerRole::TopFrontLeft | SpeakerRole::TopFrontCenter | SpeakerRole::TopFrontRight
            | SpeakerRole::TopBackLeft | SpeakerRole::TopBackCenter | SpeakerRole::TopBackRight => true,
            _ => false,
        }
    }

    /// The short label: `FL`, `LFE`, `TBR`, or `?` for an unknown channel.
    pub fn short_name(self) -> (s: &'static str)
        ensures
            s@ == short_name_of(self),
    {
        match self {
            SpeakerRole::FrontLeft => "FL",
            SpeakerRole::FrontRight => "FR",
            SpeakerRole::FrontCenter => "FC",
            SpeakerRole::Lfe => "LFE",
            SpeakerRole::BackLeft => "BL",
            SpeakerRole::BackRight => "BR",
            SpeakerRole::FrontLeftOfCenter => "FLC",
            SpeakerRole::FrontRightOfCenter => "FRC",
            SpeakerRole::BackCenter => "BC",
            SpeakerRole::SideLeft => "SL",
            SpeakerRole::SideRight => "SR",
            SpeakerRole::TopCenter => "TC",
            SpeakerRole::TopFrontLeft => "TFL",
            SpeakerRole::TopFrontCenter => "TFC",
            SpeakerRole::TopFrontRight => "TFR",
            SpeakerRole::TopBackLeft => "TBL",
            SpeakerRole::TopBackCenter => "TBC",
            SpeakerRole::TopBackRight => "TBR",
            SpeakerRole::Unknown => "?",
        }
    }
}

/// The roles guessed from a channel count alone.
pub open spec fn roles_for_count(n: nat) -> Seq<SpeakerRole> {
    if n == 0 {
        Seq::empty()
    } else if n == 1 {
        seq![SpeakerRole::Unknown]
    } else if n == 2 {
        seq![SpeakerRole::FrontLeft, SpeakerRole::FrontRight]
    } else if n == 3 {
        seq![SpeakerRole::FrontLeft, SpeakerRole::FrontRight, SpeakerRole::Lfe]
    } else if n == 4 {
        seq![SpeakerRole::FrontLeft, SpeakerRole::FrontRight, SpeakerRole::BackLeft, SpeakerRole::BackRight]
    } else if n == 5 {
        seq![SpeakerRole::FrontLeft, SpeakerRole::FrontRight, SpeakerRole::FrontCenter, SpeakerRole::BackLeft, SpeakerRole::BackRight]
    } else if n == 6 {
        seq![SpeakerRole::FrontLeft, SpeakerRole::FrontRight, SpeakerRole::FrontCenter, SpeakerRole::Lfe, SpeakerRole::SideLeft, SpeakerRole::SideRight]
    } else if n == 8 {
        seq![
            SpeakerRole::FrontLeft,
            SpeakerRole::FrontRight,
            SpeakerRole::FrontCenter,
            SpeakerRole::Lfe,
            SpeakerRole::BackLeft,
            SpeakerRole::BackRight,
            SpeakerRole::SideLeft,
            SpeakerRole::SideRight,
        ]
    } else {
        Seq::new(n, |i: int| SpeakerRole::Unknown)
    }
}

/// Number of speaker bits a channel mask can name.
pub const MASK_ROLES: u32 = 18;

/// The role the channel-mask bit `i` stands for, in the WAVEFORMATEXTENSIBLE order.
pub open spec fn role_of_bit(i: int) -> SpeakerRole {
    if i == 0 {
        SpeakerRole::FrontLeft
    } else if i == 1 {
        SpeakerRole::FrontRight
    } else if i == 2 {
        SpeakerRole::FrontCenter
    } else if i == 3 {
        SpeakerRole::Lfe
    } else if i == 4 {
        SpeakerRole::BackLeft
    } else if i == 5 {
        SpeakerRole::BackRight
    } else if i == 6 {
        SpeakerRole::FrontLeftOfCenter
    } else if i == 7 {
        SpeakerRole::FrontRightOfCenter
    } else if i == 8 {
        SpeakerRole::BackCenter
    } else if i == 9 {
        SpeakerRole::SideLeft
    } else if i == 10 {
        SpeakerRole::SideRight
    } else if i == 11 {
        SpeakerRole::TopCenter
    } else if i == 12 {
        SpeakerRole::TopFrontLeft
    } else if i == 13 {
        SpeakerRole::TopFrontCenter
    } else if i == 14 {
        SpeakerRole::TopFrontRight
    } else if i == 15 {
        SpeakerRole::TopBackLeft
    } else if i == 16 {
        SpeakerRole::TopBackCenter
    } else {
        SpeakerRole::TopBackRight
    }
}

/// Whether bit `i` of `mask` is set.
pub open spec fn mask_bit(mask: u32, i: u32) -> bool {
    (mask >> i) & 1u32 == 1u32
}

/// The roles of the set bits among the first `k` mask bits, in bit order.
pub open spec fn mask_roles(mask: u32, k: nat) -> Seq<SpeakerRole>
    decreases k,
{
    if k == 0 {
        Seq::empty()
    } else {
        let before = mask_roles(mask, (k - 1) as nat);
        if mask_bit(mask, (k - 1) as u32) {
            before.push(role_of_bit(k - 1))
        } else {
            before
        }
    }
}

/// How many of the first `k` bits of `mask` are set.
pub open spec fn ones_below(mask: u32, k: nat) -> nat
    decreases k,
{
    if k == 0 {
        0
    } else {
        ones_below(mask, (k - 1) as nat) + if mask_bit(mask, (k - 1) as u32) {
            1nat
        } else {
            0nat
        }
    }
}

/// The roles a channel mask names, or, when it names none or a number other than `channels`,
/// the roles guessed from `channels`.
pub open spec fn roles_for_mask(mask: u32, channels: nat) -> Seq<SpeakerRole> {
    if mask == 0 || ones_below(mask, 32) != channels {
        roles_for_count(channels)
    } else {
        mask_roles(mask, MASK_ROLES as nat)
    }
}

/// Law: a layout guessed from a standard channel count is the layout of the standard channel
/// mask for that count, channels in mask bit order: stereo FL FR (0x3), 2.1 FL FR LFE (0xB),
/// quad FL FR BL BR (0x33), 5.0 FL FR FC BL BR (0x37), 5.1 FL FR FC LFE SL SR (0x60F) and 7.1
/// FL FR FC LFE BL BR SL SR (0x63F).
pub proof fn lemma_count_layouts_follow_standard_masks()
    ensures
        roles_for_count(2) == mask_roles(0x3u32, MASK_ROLES as nat),
        roles_for_count(3) == mask_roles(0xbu32, MASK_ROLES as nat),
        roles_for_count(4) == mask_roles(0x33u32, MASK_ROLES as nat),
        roles_for_count(5) == mask_roles(0x37u32, MASK_ROLES as nat),
        roles_for_count(6) == mask_roles(0x60fu32, MASK_ROLES as nat),
        roles_for_count(8) == mask_roles(0x63fu32, MASK_ROLES as nat),
{
    assert(((0x3u32 >> 0u32) & 1u32 == 1u32) && ((0x3u32 >> 1u32) & 1u32 == 1u32) && ((0x3u32 >> 2u32) & 1u32 == 0u32) && ((0x3u32 >> 3u32) & 1u32 == 0u32) && ((0x3u32 >> 4u32) & 1u32 == 0u32) && ((0x3u32 >> 5u32) & 1u32 == 0u32) && ((0x3u32 >> 6u32) & 1u32 == 0u32) && ((0x3u32 >> 7u32) & 1u32 == 0u32) && ((0x3u32 >> 8u32) & 1u32 == 0u32) && ((0x3u32 >> 9u32) & 1u32 == 0u32) && ((0x3u32 >> 10u32) & 1u32 == 0u32) && ((0x3u32 >> 11u32) & 1u32 == 0u32) && ((0x3u32 >> 12u32) & 1u32 == 0u32) && ((0x3u32 >> 13u32) & 1u32 == 0u32) && ((0x3u32 >> 14u32) & 1u32 == 0u32) && ((0x3u32 >> 15u32) & 1u32 == 0u32) && ((0x3u32 >> 16u32) & 1u32 == 0u32) && ((0x3u32 >> 17u32) & 1u32 == 0u32)) by (bit_vector);
    assert(((0xbu32 >> 0u32) & 1u32 == 1u32) && ((0xbu32 >> 1u32) & 1u32 == 1u32) && ((0xbu32 >> 2u32) & 1u32 == 0u32) && ((0xbu32 >> 3u32) & 1u32 == 1u32) && ((0xbu32 >> 4u32) & 1u32 == 0u32) && ((0xbu32 >> 5u32) & 1u32 == 0u32) && ((0xbu32 >> 6u32) & 1u32 == 0u32) && ((0xbu32 >> 7u32) & 1u32 == 0u32) && ((0xbu32 >> 8u32) & 1u32 == 0u32) && ((0xbu32 >> 9u32) & 1u32 == 0u32) && ((0xbu32 >> 10u32) & 1u32 == 0u32) && ((0xbu32 >> 11u32) & 1u32 == 0u32) && ((0xbu32 >> 12u32) & 1u32 == 0u32) && ((0xbu32 >> 13u32) & 1u32 == 0u32) && ((0xbu32 >> 14u32) & 1u32 == 0u32) && ((0xbu32 >> 15u32) & 1u32 == 0u32) && ((0xbu32 >> 16u32) & 1u32 == 0u32) && ((0xbu32 >> 17u32) & 1u32 == 0u32)) by (bit_vector);
    assert(((0x33u32 >> 0u32) & 1u32 == 1u32) && ((0x33u32 >> 1u32) & 1u32 == 1u32) && ((0x33u32 >> 2u32) & 1u32 == 0u32) && ((0x33u32 >> 3u32) & 1u32 == 0u32) && ((0x33u32 >> 4u32) & 1u32 == 1u32) && ((0x33u32 >> 5u32) & 1u32 == 1u32) && ((0x33u32 >> 6u32) & 1u32 == 0u32) && ((0x33u32 >> 7u32) & 1u32 == 0u32) && ((0x33u32 >> 8u32) & 1u32 == 0u32) && ((0x33u32 >> 9u32) & 1u32 == 0u32) && ((0x33u32 >> 10u32) & 1u32 == 0u32) && ((0x33u32 >> 11u32) & 1u32 == 0u32) && ((0x33u32 >> 12u32) & 1u32 == 0u32) && ((0x33u32 >> 13u32) & 1u32 == 0u32) && ((0x33u32 >> 14u32) & 1u32 == 0u32) && ((0x33u32 >> 15u32) & 1u32 == 0u32) && ((0x33u32 >> 16u32) & 1u32 == 0u32) && ((0x33u32 >> 17u32) & 1u32 == 0u32)) by (bit_vector);
    assert(((0x37u32 >> 0u32) & 1u32 == 1u32) && ((0x37u32 >> 1u32) & 1u32 == 1u32) && ((0x37u32 >> 2u32) & 1u32 == 1u32) && ((0x37u32 >> 3u32) & 1u32 == 0u32) && ((0x37u32 >> 4u32) & 1u32 == 1u32) && ((0x37u32 >> 5u32) & 1u32 == 1u32) && ((0x37u32 >> 6u32) & 1u32 == 0u32) && ((0x37u32 >> 7u32) & 1u32 == 0u32) && ((0x37u32 >> 8u32) & 1u32 == 0u32) && ((0x37u32 >> 9u32) & 1u32 == 0u32) && ((0x37u32 >> 10u32) & 1u32 == 0u32) && ((0x37u32 >> 11u32) & 1u32 == 0u32) && ((0x37u32 >> 12u32) & 1u32 == 0u32) && ((0x37u32 >> 13u32) & 1u32 == 0u32) && ((0x37u32 >> 14u32) & 1u32 == 0u32) && ((0x37u32 >> 15u32) & 1u32 == 0u32) && ((0x37u32 >> 16u32) & 1u32 == 0u32) && ((0x37u32 >> 17u32) & 1u32 == 0u32)) by (bit_vector);
    assert(((0x60fu32 >> 0u32) & 1u32 == 1u32) && ((0x60fu32 >> 1u32) & 1u32 == 1u32) && ((0x60fu32 >> 2u32) & 1u32 == 1u32) && ((0x60fu32 >> 3u32) & 1u32 == 1u32) && ((0x60fu32 >> 4u32) & 1u32 == 0u32) && ((0x60fu32 >> 5u32) & 1u32 == 0u32) && ((0x60fu32 >> 6u32) & 1u32 == 0u32) && ((0x60fu32 >> 7u32) & 1u32 == 0u32) && ((0x60fu32 >> 8u32) & 1u32 == 0u32) && ((0x60fu32 >> 9u32) & 1u32 == 1u32) && ((0x60fu32 >> 10u32) & 1u32 == 1u32) && ((0x60fu32 >> 11u32) & 1u32 == 0u32) && ((0x60fu32 >> 12u32) & 1u32 == 0u32) && ((0x60fu32 >> 13u32) & 1u32 == 0u32) && ((0x60fu32 >> 14u32) & 1u32 == 0u32) && ((0x60fu32 >> 15u32) & 1u32 == 0u32) && ((0x60fu32 >> 16u32) & 1u32 == 0u32) && ((0x60fu32 >> 17u32) & 1u32 == 0u32)) by (bit_vector);
    assert(((0x63fu32 >> 0u32) & 1u32 == 1u32) && ((0x63fu32 >> 1u32) & 1u32 == 1u32) && ((0x63fu32 >> 2u32) & 1u32 == 1u32) && ((0x63fu32 >> 3u32) & 1u32 == 1u32) && ((0x63fu32 >> 4u32) & 1u32 == 1u32) && ((0x63fu32 >> 5u32) & 1u32 == 1u32) && ((0x63fu32 >> 6u32) & 1u32 == 0u32) && ((0x63fu32 >> 7u32) & 1u32 == 0u32) && ((0x63fu32 >> 8u32) & 1u32 == 0u32) && ((0x63fu32 >> 9u32) & 1u32 == 1u32) && ((0x63fu32 >> 10u32) & 1u32 == 1u32) && ((0x63fu32 >> 11u32) & 1u32 == 0u32) && ((0x63fu32 >> 12u32) & 1u32 == 0u32) && ((0x63fu32 >> 13u32) & 1u32 == 0u32) && ((0x63fu32 >> 14u32) & 1u32 == 0u32) && ((0x63fu32 >> 15u32) & 1u32 == 0u32) && ((0x63fu32 >> 16u32) & 1u32 == 0u32) && ((0x63fu32 >> 17u32) & 1u32 == 0u32)) by (bit_vector);
    reveal_with_fuel(mask_roles, 19);
    assert(roles_for_count(2) =~= mask_roles(0x3u32, 18));
    assert(roles_for_count(3) =~= mask_roles(0xbu32, 18));
    assert(roles_for_count(4) =~= mask_roles(0x33u32, 18));
    assert(roles_for_count(5) =~= mask_roles(0x37u32, 18));
    assert(roles_for_count(6) =~= mask_roles(0x60fu32, 18));
    assert(roles_for_count(8) =~= mask_roles(0x63fu32, 18));
}

/// Which speaker sits on which capture channel, in interleaved channel order.
#[derive(Debug, Clone)]
pub struct SpeakerLayout {
    pub channels: Vec<SpeakerRole>,
}

/// Which speaker sits on which capture channel, as the config states it.
#[derive(Debug, Clone)]
pub enum LayoutSelector {
    /// Read from what the audio backend reports.
    Auto,
    /// Stated by hand, one entry per capture channel.
    Channels(Vec<SpeakerRole>),
}

impl Default for LayoutSelector {
    fn default() -> (s: Self)
        ensures
            s is Auto,
    {
        LayoutSelector::Auto
    }
}

/// The number of subwoofer channels among `roles`.
pub open spec fn lfe_count(roles: Seq<SpeakerRole>) -> nat
    decreases roles.len(),
{
    if roles.len() == 0 {
        0
    } else {
        lfe_count(roles.drop_last()) + if roles.last() == SpeakerRole::Lfe {
            1nat
        } else {
            0nat
        }
    }
}

/// The short names of `roles`, separated by single spaces.
pub open spec fn names_joined(roles: Seq<SpeakerRole>) -> Seq<char>
    decreases roles.len(),
{
    if roles.len() == 0 {
        Seq::empty()
    } else if roles.len() == 1 {
        short_name_of(roles[0])
    } else {
        names_joined(roles.drop_last()) + " "@ + short_name_of(roles.last())
    }
}

/// `mono`, `stereo`, or `<full-range>.<subwoofers>` such as `5.1`.
pub open spec fn layout_label(roles: Seq<SpeakerRole>) -> Seq<char> {
    let l = lfe_count(roles);
    if roles.len() == 1 && l == 0 {
        "mono"@
    } else if roles.len() == 2 && l == 0 {
        "stereo"@
    } else {
        decimal((roles.len() - l) as nat) + "."@ + decimal(l)
    }
}

/// `"5.1 (FL FR FC LFE SL SR)"`, or `no channels` for an empty layout.
pub open spec fn layout_description(roles: Seq<SpeakerRole>) -> Seq<char> {
    if roles.len() == 0 {
        "no channels"@
    } else {
        layout_label(roles) + " ("@ + names_joined(roles) + ")"@
    }
}

/// The warning given when a stated layout does not fit the capture format.
pub open spec fn layout_mismatch_message(stated: nat, detected: Seq<SpeakerRole>) -> Seq<char> {
    "spatial.layout names "@ + decimal(stated) + " channels but the capture format has "@ + decimal(detected.len())
        + ", using the detected layout "@ + layout_description(detected) + " instead"@
}

/// Lemma: no more subwoofers than channels.
pub proof fn lemma_lfe_count_bound(roles: Seq<SpeakerRole>)
    ensures
        lfe_count(roles) <= roles.len(),
    decreases roles.len(),
{
    if roles.len() > 0 {
        lemma_lfe_count_bound(roles.drop_last());
    }
}

/// Copies a list of roles.
fn copy_roles(v: &Vec<SpeakerRole>) -> (r: Vec<SpeakerRole>)
    ensures
        r@ == v@,
{
    let mut r: Vec<SpeakerRole> = Vec::new();
    let mut i: usize = 0;
    while i < v.len()
        invariant
            i <= v.len(),
            r@ == v@.subrange(0, i as int),
        decreases v.len() - i,
    {
        r.push(v[i]);
        i = i + 1;
        assert(r@ =~= v@.subrange(0, i as int));
    }
    assert(r@ =~= v@);
    r
}

/// The role a mask bit below eighteen stands for.
fn role_for_bit(i: u32) -> (r: SpeakerRole)
    requires
        i < MASK_ROLES,
    ensures
        r == role_of_bit(i as int),
{
    if i == 0 {
        SpeakerRole::FrontLeft
    } else if i == 1 {
        SpeakerRole::FrontRight
    } else if i == 2 {
        SpeakerRole::FrontCenter
    } else if i == 3 {
        SpeakerRole::Lfe
    } else if i == 4 {
        SpeakerRole::BackLeft
    } else if i == 5 {
        SpeakerRole::BackRight
    } else if i == 6 {
        SpeakerRole::FrontLeftOfCenter
    } else if i == 7 {
        SpeakerRole::FrontRightOfCenter
    } else if i == 8 {
        SpeakerRole::BackCenter
    } else if i == 9 {
        SpeakerRole::SideLeft
    } else if i == 10 {
        SpeakerRole::SideRight
    } else if i == 11 {
        SpeakerRole::TopCenter
    } else if i == 12 {
        SpeakerRole::TopFrontLeft
    } else if i == 13 {
        SpeakerRole::TopFrontCenter
    } else if i == 14 {
        SpeakerRole::TopFrontRight
    } else if i == 15 {
        SpeakerRole::TopBackLeft
    } else if i == 16 {
        SpeakerRole::TopBackCenter
    } else {
        SpeakerRole::TopBackRight
    }
}

/// The number of set bits of `mask`, as `u32::count_ones`.
pub fn count_ones(mask: u32) -> (n: u32)
    ensures
        n as nat == ones_below(mask, 32),
{
    let mut n: u32 = 0;
    let mut i: u32 = 0;
    while i < 32
        invariant
            i <= 32,
            n as nat == ones_below(mask, i as nat),
            n <= i,
        decreases 32 - i,
    {
        if (mask >> i) & 1 == 1 {
            n = n + 1;
        }
        i = i + 1;
    }
    n
}

impl SpeakerLayout {
    /// The layout guessed from a channel count: mono is one undirected channel, 2 is stereo,
    /// 3 is 2.1, 4 is quad, 5 is 5.0, 6 is 5.1 with side surrounds, 8 is 7.1; any other
    /// count gets that many undirected channels.
    pub fn from_count(channels: usize) -> (l: Self)
        ensures
            l.channels@ == roles_for_count(channels as nat),
    {
        let roles: Vec<SpeakerRole> = if channels == 0 {
            Vec::new()
        } else if channels == 1 {
            vec![SpeakerRole::Unknown]
        } else if channels == 2 {
            vec![SpeakerRole::FrontLeft, SpeakerRole::FrontRight]
        } else if channels == 3 {
            vec![SpeakerRole::FrontLeft, SpeakerRole::FrontRight, SpeakerRole::Lfe]
        } else if channels == 4 {
            vec![SpeakerRole::FrontLeft, SpeakerRole::FrontRight, SpeakerRole::BackLeft, SpeakerRole::BackRight]
        } else if channels == 5 {
            vec![SpeakerRole::FrontLeft, SpeakerRole::FrontRight, SpeakerRole::FrontCenter, SpeakerRole::BackLeft, SpeakerRole::BackRight]
        } else if channels == 6 {
            vec![SpeakerRole::FrontLeft, SpeakerRole::FrontRight, SpeakerRole::FrontCenter, SpeakerRole::Lfe, SpeakerRole::SideLeft, SpeakerRole::SideRight]
        } else if channels == 8 {
            vec![
                SpeakerRole::FrontLeft,
                SpeakerRole::FrontRight,
                SpeakerRole::FrontCenter,
                SpeakerRole::Lfe,
                SpeakerRole::BackLeft,
                SpeakerRole::BackRight,
                SpeakerRole::SideLeft,
                SpeakerRole::SideRight,
            ]
        } else {
            let mut v: Vec<SpeakerRole> = Vec::new();
            let mut i: usize = 0;
            while i < channels
                invariant
                    i <= channels,
                    v@ == Seq::new(i as nat, |k: int| SpeakerRole::Unknown),
                decreases channels - i,
            {
                v.push(SpeakerRole::Unknown);
                i = i + 1;
                assert(v@ =~= Seq::new(i as nat, |k: int| SpeakerRole::Unknown));
            }
            v
        };
        let l = SpeakerLayout { channels: roles };
        assert(l.channels@ =~= roles_for_count(channels as nat));
        l
    }

    /// The layout a WAVEFORMATEXTENSIBLE channel mask names, in bit order; when the mask is
    /// zero or names a number of speakers other than `channels`, the count alone decides.
    pub fn from_channel_mask(mask: u32, channels: usize) -> (l: Self)
        ensures
            l.channels@ == roles_for_mask(mask, channels as nat),
    {
        if mask == 0 || count_ones(mask) as usize != channels {
            return Self::from_count(channels);
        }
        let mut roles: Vec<SpeakerRole> = Vec::new();
        let mut i: u32 = 0;
        while i < MASK_ROLES
            invariant
                i <= MASK_ROLES,
                roles@ == mask_roles(mask, i as nat),
            decreases MASK_ROLES - i,
        {
            if (mask >> i) & 1 == 1 {
                roles.push(role_for_bit(i));
            }
            i = i + 1;
        }
        SpeakerLayout { channels: roles }
    }

    /// A layout stated in the config replaces the detected one when it names one role per
    /// channel; otherwise the detected layout stays and a warning says so.
    pub fn resolve(self, selector: &LayoutSelector, warnings: &mut Vec<String>) -> (l: Self)
        ensures
            match selector {
                LayoutSelector::Auto => l.channels@ == self.channels@ && final(warnings)@ == old(warnings)@,
                LayoutSelector::Channels(roles) => if roles@.len() == self.channels@.len() {
                    l.channels@ == roles@ && final(warnings)@ == old(warnings)@
                } else {
                    &&& l.channels@ == self.channels@
                    &&& final(warnings)@.len() == old(warnings)@.len() + 1
                    &&& final(warnings)@.subrange(0, old(warnings)@.len() as int) == old(warnings)@
                    &&& final(warnings)@.last()@ == layout_mismatch_message(roles@.len(), self.channels@)
                },
            },
    {
        match selector {
            LayoutSelector::Auto => self,
            LayoutSelector::Channels(roles) => {
                if roles.len() != self.channels.len() {
                    let mut m = String::new();
                    push_str(&mut m, "spatial.layout names ");
                    push_decimal(&mut m, roles.len() as u64);
                    push_str(&mut m, " channels but the capture format has ");
                    push_decimal(&mut m, self.channels.len() as u64);
                    push_str(&mut m, ", using the detected layout ");
                    let d = self.describe();
                    push_str(&mut m, d.as_str());
                    push_str(&mut m, " instead");
                    assert(m@ =~= layout_mismatch_message(roles@.len(), self.channels@));
                    let ghost before = warnings@;
                    warnings.push(m);
                    assert(warnings@.subrange(0, before.len() as int) =~= before);
                    return self;
                }
                SpeakerLayout { channels: copy_roles(roles) }
            },
        }
    }

    /// The number of capture channels.
    pub fn len(&self) -> (n: usize)
        ensures
            n == self.channels@.len(),
    {
        self.channels.len()
    }

    /// Whether the layout has no channels at all.
    pub fn is_empty(&self) -> (b: bool)
        ensures
            b == (self.channels@.len() == 0),
    {
        self.channels.len() == 0
    }

    /// Whether any channel is a height speaker, which makes the height-to-frequency stand-in unnecessary.
    pub fn has_height(&self) -> (b: bool)
        ensures
            b == exists|i: int| 0 <= i < self.channels@.len() && !omni(self.channels@[i]) && overhead(#[trigger] self.channels@[i]),
    {
        let mut i: usize = 0;
        while i < self.channels.len()
            invariant
                i <= self.channels@.len(),
                forall|k: int| 0 <= k < i ==> !(!omni(self.channels@[k]) && overhead(#[trigger] self.channels@[k])),
            decreases self.channels@.len() - i,
        {
            let r = self.channels[i];
            if !r.is_omni() && r.is_overhead() {
                return true;
            }
            i = i + 1;
        }
        false
    }

    /// The channels that carry a direction, in channel order: every one but the subwoofer
    /// and unknown channels. These are what the room view places.
    pub fn directional_channels(&self) -> (v: Vec<usize>)
        ensures
            forall|k: int| 0 <= k < v@.len() ==> #[trigger] v@[k] < self.channels@.len() && !omni(self.channels@[v@[k] as int]),
            forall|i: int| 0 <= i < self.channels@.len() && !omni(self.channels@[i]) ==> v@.contains(i as usize),
            forall|a: int, b: int| 0 <= a < b < v@.len() ==> v@[a] < v@[b],
    {
        let mut v: Vec<usize> = Vec::new();
        let mut i: usize = 0;
        while i < self.channels.len()
            invariant
                i <= self.channels@.len(),
                forall|k: int| 0 <= k < v@.len() ==> #[trigger] v@[k] < i && !omni(self.channels@[v@[k] as int]),
                forall|j: int| 0 <= j < i && !omni(self.channels@[j]) ==> v@.contains(j as usize),
                forall|a: int, b: int| 0 <= a < b < v@.len() ==> v@[a] < v@[b],
            decreases self.channels@.len() - i,
        {
            if !self.channels[i].is_omni() {
                let ghost before = v@;
                v.push(i);
                assert forall|j: int| 0 <= j < i + 1 && !omni(self.channels@[j]) implies v@.contains(j as usize) by {
                    if j < i {
                        let k = choose|k: int| 0 <= k < before.len() && before[k] == j as usize;
                        assert(v@[k] == j as usize);
                    } else {
                        assert(v@[before.len() as int] == i);
                    }
                }
            }
            i = i + 1;
        }
        v
    }

    /// `"5.1 (FL FR FC LFE SL SR)"`, `"stereo (FL FR)"`, or `"no channels"`.
    pub fn describe(&self) -> (s: String)
        ensures
            s@ == layout_description(self.channels@),
    {
        let n = self.channels.len();
        if n == 0 {
            return String::from_str("no channels");
        }
        let mut lfe: usize = 0;
        let mut names = String::new();
        let mut i: usize = 0;
        while i < n
            invariant
                n == self.channels@.len(),
                n >= 1,
                i <= n,
                lfe as nat == lfe_count(self.channels@.subrange(0, i as int)),
                lfe <= i,
                i >= 1 ==> names@ == names_joined(self.channels@.subrange(0, i as int)),
                i == 0 ==> names@ == Seq::<char>::empty(),
            decreases n - i,
        {
            let r = self.channels[i];
            let ghost pre = self.channels@.subrange(0, i as int);
            let ghost post = self.channels@.subrange(0, i + 1);
            assert(post.drop_last() =~= pre);
            if i > 0 {
                push_str(&mut names, " ");
            }
            push_str(&mut names, r.short_name());
            if r == SpeakerRole::Lfe {
                lfe = lfe + 1;
            }
            i = i + 1;
            if i == 1 {
                assert(names@ =~= names_joined(post));
            } else {
                assert(names@ =~= names_joined(post));
            }
        }
        assert(self.channels@.subrange(0, n as int) =~= self.channels@);
        let mut s = String::new();
        if n == 1 && lfe == 0 {
            push_str(&mut s, "mono");
        } else if n == 2 && lfe == 0 {
            push_str(&mut s, "stereo");
        } else {
            push_decimal(&mut s, (n - lfe) as u64);
            push_str(&mut s, ".");
            push_decimal(&mut s, lfe as u64);
        }
        assert(s@ =~= layout_label(self.channels@));
        push_str(&mut s, " (");
        push_str(&mut s, names.as_str());
        push_str(&mut s, ")");
        assert(s@ =~= layout_description(self.channels@));
        s
    }
}

/// Law: reading a layout from a channel count gives one role per channel.
pub proof fn lemma_count_layout_len(n: nat)
    ensures
        roles_for_count(n).len() == n,
{
}

/// Lemma: the mask roles are as many as the set bits among the same bits.
pub proof fn lemma_mask_roles_len(mask: u32, k: nat)
    ensures
        mask_roles(mask, k).len() == ones_below(mask, k),
    decreases k,
{
    if k > 0 {
        lemma_mask_roles_len(mask, (k - 1) as nat);
    }
}

/// Lemma: a mask with no bit above the eighteen speaker bits has no set bit there.
pub proof fn lemma_high_bits_clear(mask: u32, k: nat)
    requires
        mask < 0x40000,
        18 <= k <= 32,
    ensures
        ones_below(mask, k) == ones_below(mask, 18),
    decreases k,
{
    if k > 18 {
        lemma_high_bits_clear(mask, (k - 1) as nat);
        let i = (k - 1) as u32;
        assert((mask >> i) & 1u32 == 0u32) by (bit_vector)
            requires
                mask < 0x40000u32,
                18u32 <= i < 32u32,
        ;
    }
}

/// Law: a layout read from a channel mask that names only known speakers has one role per
/// channel. (A mask with a bit above the eighteen known speakers does not: its unknown
/// bits are counted but name no role.)
pub proof fn lemma_mask_layout_len(mask: u32, channels: nat)
    requires
        mask < 0x40000,
    ensures
        roles_for_mask(mask, channels).len() == channels,
{
    if !(mask == 0 || ones_below(mask, 32) != channels) {
        lemma_mask_roles_len(mask, 18);
        lemma_high_bits_clear(mask, 32);
    }
}

// ---------------------------------------------------------------- device geometry

/// Whether a light is a single point or a line.
#[derive(Debug, Clone, Copy, PartialEq, Eq, Structural, Default)]
pub enum DeviceForm {
    #[default]
    Lamp,
    Strip,
}

/// How many points a light is sampled at: a lamp that is a single point needs one; an
/// addressable light one per segment; any other strip `strip_samples`; always 1 to 256.
pub open spec fn sample_count_of(form: DeviceForm, corners: int, segments: int, strip_samples: int) -> int {
    if form == DeviceForm::Lamp && corners < 2 {
        1
    } else {
        let n = if segments > 1 { segments } else { strip_samples };
        if n < 1 {
            1
        } else if n > 256 {
            256
        } else {
            n
        }
    }
}

/// How many points a light is sampled at along its shape.
pub fn sample_count(form: DeviceForm, corners: usize, segments: usize, strip_samples: usize) -> (n: usize)
    ensures
        n == sample_count_of(form, corners as int, segments as int, strip_samples as int),
        1 <= n <= 256,
{
    if form == DeviceForm::Lamp && corners < 2 {
        return 1;
    }
    let n = if segments > 1 { segments } else { strip_samples };
    if n < 1 {
        1
    } else if n > 256 {
        256
    } else {
        n
    }
}

} // verus!
