//! The configuration's enumerations, its integer defaults, and the checks that turn
//! configured analysis sizes and app groups into usable ones.
use vstd::prelude::*;
use vstd::string::*;

use crate::text::{chars_of, decimal, push_decimal, push_str, trim_chars, trimmed};

verus! {

/// The analysis window function.
#[derive(Debug, Clone, Copy, PartialEq, Eq, Structural, Default)]
pub enum WindowKind {
    #[default]
    Hann,
    Hamming,
    Blackman,
    Rectangular,
}

/// How a multi-channel frame becomes one sample.
#[derive(Debug, Clone, Copy, PartialEq, Eq, Structural, Default)]
pub enum Downmix {
    /// The mean of the first two channels.
    #[default]
    Average,
    Left,
    Right,
    AllChannels,
}

/// Which output device to listen to.
#[derive(Debug, Clone, Default)]
pub enum AudioDeviceSelector {
    #[default]
    Default,
    Id { id: String },
    Name { name: String },
}

/// Whether the listed applications are followed or everything except them.
#[derive(Debug, Clone, Copy, PartialEq, Eq, Structural, Default)]
pub enum AppMatchMode {
    #[default]
    Include,
    Exclude,
}

/// How band energies are normalised.
#[derive(Debug, Clone, Copy, PartialEq, Eq, Structural, Default)]
pub enum Normalize {
    /// One reference level shared by all bands.
    #[default]
    Shared,
    /// A rolling peak per band.
    PerBand,
}

/// Where the brightness level comes from.
#[derive(Debug, Clone, Copy, PartialEq, Eq, Structural, Default)]
pub enum LevelSource {
    /// The loudest band.
    #[default]
    Peak,
    /// The weighted mean across bands.
    Average,
}

/// Default FFT window length and hop, in samples.
pub fn d_fft_size() -> (n: usize)
    ensures
        n == 1024,
{
    1024
}

/// Default WASAPI capture buffer, in 100 ns units: 20 ms.
pub fn d_buffer_hns() -> (n: i64)
    ensures
        n == 200_000,
{
    200_000
}

/// Default time without audio that counts as silence, in milliseconds.
pub fn d_silence_timeout() -> (n: u64)
    ensures
        n == 2000,
{
    2000
}

/// Default fade into silence, in milliseconds.
pub fn d_silence_fade() -> (n: u32)
    ensures
        n == 800,
{
    800
}

/// Default for switches that are on unless stated otherwise.
pub fn d_true() -> (b: bool)
    ensures
        b,
{
    true
}

/// Default interval between two scans for applications, in milliseconds.
pub fn d_rescan() -> (n: u64)
    ensures
        n == 3000,
{
    3000
}

/// Default per-app capture sample rate.
pub fn d_app_rate() -> (n: u32)
    ensures
        n == 48_000,
{
    48_000
}

/// Default per-app capture channel count.
pub fn d_app_channels() -> (n: u16)
    ensures
        n == 2,
{
    2
}

/// Default strobe hold, in milliseconds.
pub fn d_strobe_ms() -> (n: u64)
    ensures
        n == 40,
{
    40
}

/// Default minimum time between two commands per light, in milliseconds.
pub fn d_change_interval() -> (n: u64)
    ensures
        n == 120,
{
    120
}

/// Default shortest fade, in milliseconds.
pub fn d_transition_min() -> (n: u64)
    ensures
        n == 60,
{
    60
}

/// Default longest fade, in milliseconds.
pub fn d_transition_max() -> (n: u64)
    ensures
        n == 600,
{
    600
}

/// Default colour deadband: a frame goes out once a channel moved by more than this.
pub fn d_deadband_rgb() -> (n: u8)
    ensures
        n == 3,
{
    3
}

/// Default lowest brightness ever sent.
pub fn d_brightness_floor() -> (n: u8)
    ensures
        n == 1,
{
    1
}

/// Default number of points a strip is sampled at.
pub fn d_strip_samples() -> (n: usize)
    ensures
        n == 8,
{
    8
}

/// Smallest and largest FFT sizes the analyser accepts.
pub const FFT_MIN: usize = 64;
pub const FFT_MAX: usize = 16384;

/// Whether `n` is a power of two.
pub open spec fn is_pow2(n: int) -> bool
    decreases n,
{
    if n <= 0 {
        false
    } else if n == 1 {
        true
    } else {
        n % 2 == 0 && is_pow2(n / 2)
    }
}

/// The smallest power of two not below `n`, for `n` at least one.
pub open spec fn next_pow2(n: int) -> int
    decreases n,
{
    if n <= 1 {
        1
    } else {
        2 * next_pow2((n + 1) / 2)
    }
}

/// The FFT size used for a requested one: held within 64 to 16384, then rounded up to a
/// power of two.
pub open spec fn fft_size_for(requested: int) -> int {
    let clamped = if requested < FFT_MIN as int {
        FFT_MIN as int
    } else if requested > FFT_MAX as int {
        FFT_MAX as int
    } else {
        requested
    };
    let p = next_pow2(clamped);
    if p < FFT_MAX as int {
        p
    } else {
        FFT_MAX as int
    }
}

/// Lemma: the rounding is a power of two at least as large as the number rounded.
pub proof fn lemma_next_pow2(n: int)
    requires
        n >= 1,
    ensures
        is_pow2(next_pow2(n)),
        next_pow2(n) >= n,
        next_pow2(n) < 2 * n,
    decreases n,
{
    if n > 1 {
        lemma_next_pow2((n + 1) / 2);
        let p = next_pow2((n + 1) / 2);
        assert((2 * p) / 2 == p);
    }
}

/// The smallest power of two not below `n`, as `usize::next_power_of_two`.
fn next_power_of_two(n: usize) -> (p: usize)
    requires
        1 <= n <= FFT_MAX,
    ensures
        p == next_pow2(n as int),
    decreases n,
{
    if n <= 1 {
        1
    } else {
        proof {
            lemma_next_pow2((n as int + 1) / 2);
        }
        2 * next_power_of_two((n + 1) / 2)
    }
}

/// The warning given when the configured FFT size had to be changed.
pub open spec fn fft_size_message(requested: nat, used: nat) -> Seq<char> {
    "audio.fft_size "@ + decimal(requested) + " is not a power of two in 64..=16384, using "@ + decimal(used)
}

/// The FFT size the analyser runs with: the request held within 64 to 16384 and rounded up to
/// a power of two. A warning says so whenever that is not the request itself.
pub fn sanitize_fft_size(requested: usize, warnings: &mut Vec<String>) -> (n: usize)
    ensures
        n == fft_size_for(requested as int),
        n != requested ==> final(warnings)@ == old(warnings)@.push(final(warnings)@.last())
            && final(warnings)@.last()@ == fft_size_message(requested as nat, n as nat),
        n == requested ==> final(warnings)@ == old(warnings)@,
{
    let clamped = if requested < FFT_MIN {
        FFT_MIN
    } else if requested > FFT_MAX {
        FFT_MAX
    } else {
        requested
    };
    let p = next_power_of_two(clamped);
    let n = if p < FFT_MAX { p } else { FFT_MAX };
    if n != requested {
        let mut m = String::new();
        push_str(&mut m, "audio.fft_size ");
        push_decimal(&mut m, requested as u64);
        push_str(&mut m, " is not a power of two in 64..=16384, using ");
        push_decimal(&mut m, n as u64);
        assert(m@ =~= fft_size_message(requested as nat, n as nat));
        warnings.push(m);
    }
    n
}

/// Law: the FFT size in use is a power of two within 64 to 16384, and a request that already is
/// one is used as it is.
pub proof fn lemma_fft_size(requested: int)
    ensures
        is_pow2(fft_size_for(requested)),
        FFT_MIN <= fft_size_for(requested) <= FFT_MAX,
        (is_pow2(requested) && FFT_MIN <= requested <= FFT_MAX) ==> fft_size_for(requested) == requested,
{
    let clamped = if requested < FFT_MIN as int {
        FFT_MIN as int
    } else if requested > FFT_MAX as int {
        FFT_MAX as int
    } else {
        requested
    };
    lemma_next_pow2(clamped);
    assert(is_pow2(16384)) by {
        reveal_with_fuel(is_pow2, 16);
    }
    if is_pow2(requested) && FFT_MIN <= requested <= FFT_MAX {
        lemma_next_pow2_exact(requested);
    }
}

/// Lemma: a power of two rounds to itself.
pub proof fn lemma_next_pow2_exact(n: int)
    requires
        is_pow2(n),
    ensures
        next_pow2(n) == n,
    decreases n,
{
    if n > 1 {
        assert((n + 1) / 2 == n / 2);
        lemma_next_pow2_exact(n / 2);
    }
}

/// The hop the analyser advances by: zero is unusable and becomes the FFT size, a hop longer
/// than the FFT size is shortened to it; each change is warned about.
pub open spec fn hop_size_for(hop: int, fft_size: int) -> int {
    if hop == 0 || hop > fft_size {
        fft_size
    } else {
        hop
    }
}

/// The warning for a hop of zero.
pub open spec fn hop_zero_message() -> Seq<char> {
    "audio.hop_size 0 is not usable, using fft_size"@
}

/// The warning for a hop longer than the FFT size.
pub open spec fn hop_long_message(hop: nat, fft_size: nat) -> Seq<char> {
    "audio.hop_size "@ + decimal(hop) + " is larger than fft_size "@ + decimal(fft_size) + ", clamped"@
}

/// The hop the analyser advances by, between 1 and the FFT size.
pub fn sanitize_hop_size(hop: usize, fft_size: usize, warnings: &mut Vec<String>) -> (h: usize)
    ensures
        h == hop_size_for(hop as int, fft_size as int),
        hop == 0 ==> final(warnings)@ == old(warnings)@.push(final(warnings)@.last()) && final(warnings)@.last()@ == hop_zero_message(),
        hop > fft_size && hop != 0 ==> final(warnings)@ == old(warnings)@.push(final(warnings)@.last())
            && final(warnings)@.last()@ == hop_long_message(hop as nat, fft_size as nat),
        0 < hop <= fft_size ==> final(warnings)@ == old(warnings)@,
{
    if hop == 0 {
        warnings.push(String::from_str("audio.hop_size 0 is not usable, using fft_size"));
        fft_size
    } else if hop > fft_size {
        let mut m = String::new();
        push_str(&mut m, "audio.hop_size ");
        push_decimal(&mut m, hop as u64);
        push_str(&mut m, " is larger than fft_size ");
        push_decimal(&mut m, fft_size as u64);
        push_str(&mut m, ", clamped");
        assert(m@ =~= hop_long_message(hop as nat, fft_size as nat));
        warnings.push(m);
        fft_size
    } else {
        hop
    }
}

/// An application group as far as its activity goes: whether it is switched on and the app
/// patterns it names.
pub struct AppPatterns {
    pub enabled: bool,
    pub apps: Vec<String>,
}

/// Whether a group takes part: it is enabled and names at least one non-blank pattern.
pub open spec fn group_active(enabled: bool, apps: Seq<String>) -> bool {
    enabled && exists|i: int| 0 <= i < apps.len() && #[trigger] trimmed(apps[i]@).len() > 0
}

/// Whether a group takes part in per-app capture.
pub fn group_is_active(group: &AppPatterns) -> (b: bool)
    ensures
        b == group_active(group.enabled, group.apps@),
{
    if !group.enabled {
        return false;
    }
    let mut i: usize = 0;
    while i < group.apps.len()
        invariant
            group.enabled,
            i <= group.apps@.len(),
            forall|k: int| 0 <= k < i ==> !(#[trigger] trimmed(group.apps@[k]@).len() > 0),
        decreases group.apps@.len() - i,
    {
        let c = chars_of(group.apps[i].as_str());
        let t = trim_chars(&c);
        if t.len() > 0 {
            assert(trimmed(group.apps@[i as int]@).len() > 0);
            return true;
        }
        i = i + 1;
    }
    false
}

/// The positions of the groups that take part, in order.
pub fn active_groups(groups: &Vec<AppPatterns>) -> (v: Vec<usize>)
    ensures
        forall|k: int| 0 <= k < v@.len() ==> #[trigger] v@[k] < groups@.len() && group_active(groups@[v@[k] as int].enabled, groups@[v@[k] as int].apps@),
        forall|i: int| 0 <= i < groups@.len() && group_active(groups@[i].enabled, groups@[i].apps@) ==> v@.contains(i as usize),
        forall|a: int, b: int| 0 <= a < b < v@.len() ==> v@[a] < v@[b],
{
    let mut v: Vec<usize> = Vec::new();
    let mut i: usize = 0;
    while i < groups.len()
        invariant
            i <= groups@.len(),
            forall|k: int| 0 <= k < v@.len() ==> #[trigger] v@[k] < i && group_active(groups@[v@[k] as int].enabled, groups@[v@[k] as int].apps@),
            forall|j: int| 0 <= j < i && group_active(groups@[j].enabled, groups@[j].apps@) ==> v@.contains(j as usize),
            forall|a: int, b: int| 0 <= a < b < v@.len() ==> v@[a] < v@[b],
        decreases groups@.len() - i,
    {
        if group_is_active(&groups[i]) {
            let ghost before = v@;
            v.push(i);
            assert forall|j: int| 0 <= j < i + 1 && group_active(groups@[j].enabled, groups@[j].apps@) implies v@.contains(j as usize) by {
                if j < i {
                    let k = choose|k: int| 0 <= k < before.len() && before[k] == j as usize;
                    assert(v@[k] == j as usize);
                } else {
                    assert(v@[before.len() as int] == i);
                }
            }
        }
        i = i + 1;
    }
    v
}

/// The warning given when per-app capture is on but no group can be used.
pub open spec fn no_usable_group_message() -> Seq<char> {
    "audio.apps.enabled is true but no enabled group names an app, capturing the output device instead"@
}

/// Whether per-app capture can run: it is enabled and some group takes part. Enabled with no
/// group taking part falls back to the output device, with a warning.
pub fn apps_usable(enabled: bool, groups: &Vec<AppPatterns>, warnings: &mut Vec<String>) -> (b: bool)
    ensures
        b == (enabled && exists|i: int| 0 <= i < groups@.len() && #[trigger] group_active(groups@[i].enabled, groups@[i].apps@)),
        (enabled && !b) ==> final(warnings)@ == old(warnings)@.push(final(warnings)@.last()) && final(warnings)@.last()@ == no_usable_group_message(),
        (!enabled || b) ==> final(warnings)@ == old(warnings)@,
{
    if !enabled {
        return false;
    }
    let active = active_groups(groups);
    if active.len() == 0 {
        assert forall|i: int| 0 <= i < groups@.len() implies !#[trigger] group_active(groups@[i].enabled, groups@[i].apps@) by {
            if group_active(groups@[i].enabled, groups@[i].apps@) {
                assert(active@.contains(i as usize));
            }
        }
        warnings.push(String::from_str("audio.apps.enabled is true but no enabled group names an app, capturing the output device instead"));
        return false;
    }
    let first = active[0];
    assert(group_active(groups@[first as int].enabled, groups@[first as int].apps@));
    true
}

} // verus!
