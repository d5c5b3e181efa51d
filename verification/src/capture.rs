//! What a capture records in, what the capture backends report, and the bookkeeping around
//! per-application capture: the format it runs in, how a per-app buffer is kept bounded, and the
//! order in which running applications are listed.
use vstd::prelude::*;
use vstd::string::*;
use std::collections::VecDeque;
use crate::config::{AudioDeviceSelector, AppMatchMode, AppPatterns, group_active, group_is_active, apps_usable, no_usable_group_message};
use crate::spatial::{SpeakerLayout, SpeakerRole, roles_for_count, roles_for_mask, lemma_count_layout_len, lemma_mask_layout_len};
use crate::text::{appended_texts, decimal, decimal_string, debug_quoted, debug_string, push_decimal, push_str, lex_less, lowercase_of, to_lowercase, chars_of, chars_less, lemma_lex_irreflexive, lemma_lex_transitive, lemma_lex_total, joined, texts, join_strings, trimmed, trim_chars};

verus! {

/// The format a capture runs in. Device capture reads it off the endpoint; per-app capture has to
/// state one, which `app_format` resolves.
#[derive(Debug, Clone, Copy, PartialEq, Eq, Structural)]
pub struct CaptureFormat {
    pub sample_rate: u32,
    pub channels: usize,
    /// Which speaker each channel stands for. `0` when the source does not say, and the count
    /// alone has to decide.
    pub channel_mask: u32,
}

/// The speakers a format's channels stand for: the mask when it names them, the count otherwise.
pub open spec fn format_roles(f: CaptureFormat) -> Seq<SpeakerRole> {
    if f.channel_mask == 0 {
        roles_for_count(f.channels as nat)
    } else {
        roles_for_mask(f.channel_mask, f.channels as nat)
    }
}

impl CaptureFormat {
    /// The speaker layout of this format.
    pub fn layout(&self) -> (l: SpeakerLayout)
        ensures
            l.channels@ == format_roles(*self),
    {
        if self.channel_mask == 0 {
            SpeakerLayout::from_count(self.channels)
        } else {
            SpeakerLayout::from_channel_mask(self.channel_mask, self.channels)
        }
    }
}

/// Law: a format's layout has one speaker per channel, whatever the mask says, as long as the mask
/// uses only the eighteen speaker positions that exist.
pub proof fn lemma_format_layout_len(f: CaptureFormat)
    requires
        f.channel_mask < 0x40000,
    ensures
        format_roles(f).len() == f.channels,
{
    if f.channel_mask == 0 {
        lemma_count_layout_len(f.channels as nat);
    } else {
        lemma_mask_layout_len(f.channel_mask, f.channels as nat);
    }
}

/// An application that has an audio session, as the settings window lists it.
#[derive(Debug, Clone)]
pub struct AppInfo {
    pub pid: u32,
    pub exe: String,
    pub display: String,
    pub playing: bool,
}

/// An audio endpoint the capture can record from.
#[derive(Debug, Clone)]
pub struct AudioDeviceInfo {
    pub id: String,
    pub name: String,
    pub layout: Option<String>,
    pub is_default: bool,
    pub is_loopback: bool,
}

/// How the device a selector names is described in the status line.
pub open spec fn device_description(sel: AudioDeviceSelector) -> Seq<char> {
    match sel {
        AudioDeviceSelector::Default => "default output device"@,
        AudioDeviceSelector::Id { id } => "output device "@ + id@,
        AudioDeviceSelector::Name { name } => "output device "@ + debug_quoted(name@),
    }
}

/// Describes the device a selector names: the default device, an id as it stands, or a name
/// quoted.
pub fn describe_device(sel: &AudioDeviceSelector) -> (s: String)
    ensures
        s@ == device_description(*sel),
{
    match sel {
        AudioDeviceSelector::Default => String::from_str("default output device"),
        AudioDeviceSelector::Id { id } => {
            let mut s = String::from_str("output device ");
            push_str(&mut s, id.as_str());
            s
        },
        AudioDeviceSelector::Name { name } => {
            let mut s = String::from_str("output device ");
            let q = debug_string(name.as_str());
            push_str(&mut s, q.as_str());
            s
        },
    }
}

/// The format per-app capture falls back to when the output device cannot be asked.
pub open spec fn fallback_format() -> CaptureFormat {
    CaptureFormat { sample_rate: 48000, channels: 2, channel_mask: 0 }
}

/// The fallback per-app format: 48 kHz stereo without a channel mask.
pub fn fallback_app_format() -> (f: CaptureFormat)
    ensures
        f == fallback_format(),
{
    CaptureFormat { sample_rate: 48000, channels: 2, channel_mask: 0 }
}

/// The device format, when the device could be asked.
pub open spec fn device_answer(device: Result<CaptureFormat, String>) -> Option<CaptureFormat> {
    match device {
        Ok(f) => Some(f),
        Err(_) => None,
    }
}

/// The format per-app capture records in: a stated rate or channel count wins, the output
/// device's format fills in the rest (the fallback when the device could not be asked), the
/// channel count is held to 1..=8, the rate to at least 8 kHz, and the device's channel mask is
/// kept only while the channel count is the device's too.
pub open spec fn app_format_of(rate: Option<u32>, channels: Option<u16>, device: Option<CaptureFormat>) -> CaptureFormat {
    let fb = match device {
        Some(d) => d,
        None => fallback_format(),
    };
    let want: int = match channels {
        Some(c) => c as int,
        None => fb.channels as int,
    };
    let ch: int = if want < 1 {
        1
    } else if want > 8 {
        8
    } else {
        want
    };
    let r: int = match rate {
        Some(r) => r as int,
        None => fb.sample_rate as int,
    };
    CaptureFormat {
        sample_rate: if r < 8000 {
            8000
        } else {
            r as u32
        },
        channels: ch as usize,
        channel_mask: if ch == fb.channels {
            fb.channel_mask
        } else {
            0
        },
    }
}

/// The warning given when the output device could not be asked and the config does not state
/// the whole format.
pub open spec fn device_format_warning(err: Seq<char>) -> Seq<char> {
    "could not read the format of the output device ("@ + err + "), per-app capture falls back to "@ + decimal(48000)
        + " Hz and "@ + decimal(2) + " channels"@
}

/// The warning given when a stated channel count differs from the output device's.
pub open spec fn channel_override_warning(channels: nat, device_channels: nat) -> Seq<char> {
    "audio.apps.channels is "@ + decimal(channels) + " while the output device runs "@ + decimal(device_channels)
        + " channels, so the capture is "@ + decimal(channels) + " channel(s). Remove the setting to follow the device."@
}

/// The warnings `app_format` gives: at most one of the two, never both.
pub open spec fn app_format_warnings(rate: Option<u32>, channels: Option<u16>, device: Result<CaptureFormat, String>) -> Seq<Seq<char>> {
    match device {
        Err(e) => if rate is None || channels is None {
            seq![device_format_warning(e@)]
        } else {
            Seq::empty()
        },
        Ok(d) => {
            let f = app_format_of(rate, channels, Some(d));
            if channels is Some && f.channels != d.channels {
                seq![channel_override_warning(f.channels as nat, d.channels as nat)]
            } else {
                Seq::empty()
            }
        },
    }
}

/// Resolves the format per-app capture records in from what the config states and what the
/// output device reported (its format, or why it could not be read).
pub fn app_format(rate: Option<u32>, channels: Option<u16>, device: Result<CaptureFormat, String>, warnings: &mut Vec<String>) -> (f: CaptureFormat)
    ensures
        f == app_format_of(rate, channels, device_answer(device)),
        1 <= f.channels <= 8,
        f.sample_rate >= 8000,
        f.channel_mask != 0 ==> device is Ok && f.channels == device->Ok_0.channels,
        appended_texts(old(warnings)@, final(warnings)@, app_format_warnings(rate, channels, device)),
{
    let ghost before = warnings@;
    let dev: Option<CaptureFormat> = match &device {
        Ok(d) => Some(*d),
        Err(e) => {
            if rate.is_none() || channels.is_none() {
                let mut m = String::from_str("could not read the format of the output device (");
                push_str(&mut m, e.as_str());
                push_str(&mut m, "), per-app capture falls back to ");
                push_decimal(&mut m, 48000);
                push_str(&mut m, " Hz and ");
                push_decimal(&mut m, 2);
                push_str(&mut m, " channels");
                assert(m@ =~= device_format_warning(e@));
                warnings.push(m);
            }
            None
        },
    };
    let fallback = match dev {
        Some(d) => d,
        None => fallback_app_format(),
    };
    let want: usize = match channels {
        Some(c) => c as usize,
        None => fallback.channels,
    };
    let ch: usize = if want < 1 {
        1
    } else if want > 8 {
        8
    } else {
        want
    };
    if channels.is_some() {
        if let Some(d) = dev {
            if ch != d.channels {
                let mut m = String::from_str("audio.apps.channels is ");
                push_decimal(&mut m, ch as u64);
                push_str(&mut m, " while the output device runs ");
                push_decimal(&mut m, d.channels as u64);
                push_str(&mut m, " channels, so the capture is ");
                push_decimal(&mut m, ch as u64);
                push_str(&mut m, " channel(s). Remove the setting to follow the device.");
                assert(m@ =~= channel_override_warning(ch as nat, d.channels as nat));
                warnings.push(m);
            }
        }
    }
    let r: u32 = match rate {
        Some(r) => r,
        None => fallback.sample_rate,
    };
    let f = CaptureFormat {
        sample_rate: if r < 8000 {
            8000
        } else {
            r
        },
        channels: ch,
        channel_mask: if ch == fallback.channels {
            fallback.channel_mask
        } else {
            0
        },
    };
    assert(warnings@.subrange(0, before.len() as int) =~= before);
    f
}

/// How many of the `queued` oldest samples make room for `incoming` new ones under `capacity`:
/// the excess over the capacity (never more than what is queued), rounded up to whole frames of
/// `channels` samples, and again never more than what is queued.
pub open spec fn overflow_drop(queued: nat, incoming: nat, capacity: nat, channels: nat) -> nat {
    let excess: int = if queued + incoming > capacity {
        queued + incoming - capacity
    } else {
        0
    };
    let over: int = if excess < queued {
        excess
    } else {
        queued as int
    };
    let rounded: int = ((over + channels - 1) / channels as int) * channels;
    if rounded < queued {
        rounded as nat
    } else {
        queued
    }
}

/// The number of oldest samples a per-app buffer drops before taking in a new chunk.
pub fn frames_to_drop(queued: usize, incoming: usize, capacity: usize, channels: usize) -> (n: usize)
    requires
        channels > 0,
        queued + incoming <= usize::MAX,
        queued + channels <= usize::MAX,
    ensures
        n == overflow_drop(queued as nat, incoming as nat, capacity as nat, channels as nat),
{
    let total = queued + incoming;
    let excess: usize = if total > capacity {
        total - capacity
    } else {
        0
    };
    let over: usize = if excess < queued {
        excess
    } else {
        queued
    };
    let frames: usize = over / channels + if over % channels != 0 {
        1usize
    } else {
        0usize
    };
    proof {
        lemma_ceil_frames(over as int, channels as int);
    }
    let rounded: usize = frames * channels;
    if rounded < queued {
        rounded
    } else {
        queued
    }
}

/// Rounding up to whole frames, as plain division and remainder.
proof fn lemma_ceil_frames(over: int, channels: int)
    requires
        0 <= over,
        channels > 0,
    ensures
        (over + channels - 1) / channels == over / channels + if over % channels != 0 {
            1int
        } else {
            0int
        },
        ((over + channels - 1) / channels) * channels >= over,
        ((over + channels - 1) / channels) * channels <= over + channels - 1,
        (((over + channels - 1) / channels) * channels) % channels == 0,
{
    assert((over + channels - 1) / channels == over / channels + if over % channels != 0 {
        1int
    } else {
        0int
    }) by (nonlinear_arith)
        requires
            0 <= over,
            channels > 0,
    {
        let q = over / channels;
        let r = over % channels;
        assert(over == q * channels + r);
        assert(0 <= r < channels);
        if r == 0 {
            assert(over + channels - 1 == q * channels + (channels - 1));
        } else {
            assert(over + channels - 1 == (q + 1) * channels + (r - 1));
        }
    }
    assert(((over + channels - 1) / channels) * channels >= over && ((over + channels - 1) / channels) * channels
        <= over + channels - 1) by (nonlinear_arith)
        requires
            0 <= over,
            channels > 0,
    {
        let k = over + channels - 1;
        assert(k == (k / channels) * channels + k % channels);
    }
    vstd::arithmetic::div_mod::lemma_mod_multiples_basic((over + channels - 1) / channels, channels);
}

/// Law: a buffer never drops more than it holds.
pub proof fn lemma_drop_bounded(queued: nat, incoming: nat, capacity: nat, channels: nat)
    requires
        channels > 0,
    ensures
        overflow_drop(queued, incoming, capacity, channels) <= queued,
{
}

/// Law: unless everything queued goes, whole frames are dropped, so the channels of what stays
/// stay in step.
pub proof fn lemma_drop_whole_frames(queued: nat, incoming: nat, capacity: nat, channels: nat)
    requires
        channels > 0,
        overflow_drop(queued, incoming, capacity, channels) < queued,
    ensures
        overflow_drop(queued, incoming, capacity, channels) % channels == 0,
{
    let excess: int = if queued + incoming > capacity {
        queued + incoming - capacity
    } else {
        0
    };
    let over: int = if excess < queued {
        excess
    } else {
        queued as int
    };
    lemma_ceil_frames(over, channels as int);
}

/// Law: after the drop a chunk that fits the capacity on its own leaves the buffer within it.
pub proof fn lemma_drop_makes_room(queued: nat, incoming: nat, capacity: nat, channels: nat)
    requires
        channels > 0,
        incoming <= capacity,
    ensures
        queued - overflow_drop(queued, incoming, capacity, channels) + incoming <= capacity,
{
    let excess: int = if queued + incoming > capacity {
        queued + incoming - capacity
    } else {
        0
    };
    let over: int = if excess < queued {
        excess
    } else {
        queued as int
    };
    lemma_ceil_frames(over, channels as int);
}

/// Law: nothing is dropped while the new chunk still fits.
pub proof fn lemma_drop_nothing_with_room(queued: nat, incoming: nat, capacity: nat, channels: nat)
    requires
        channels > 0,
        queued + incoming <= capacity,
    ensures
        overflow_drop(queued, incoming, capacity, channels) == 0,
{
    let over: int = 0;
    vstd::arithmetic::div_mod::lemma_basic_div_specific_divisor(channels as int);
    assert((over + channels - 1) / channels as int == 0);
    assert(((over + channels - 1) / channels as int) * channels == 0);
}

/// Appends a chunk of interleaved samples to a per-app buffer, dropping the oldest whole frames
/// first so that the buffer stays within its capacity.
pub fn push_bounded<T: Copy>(queue: &mut VecDeque<T>, chunk: &[T], capacity: usize, channels: usize)
    requires
        channels > 0,
        old(queue)@.len() + chunk@.len() <= usize::MAX,
        old(queue)@.len() + channels <= usize::MAX,
    ensures
        final(queue)@ == old(queue)@.skip(
            overflow_drop(old(queue)@.len(), chunk@.len(), capacity as nat, channels as nat) as int,
        ) + chunk@,
{
    let drop = frames_to_drop(queue.len(), chunk.len(), capacity, channels);
    let ghost start = queue@;
    let mut k: usize = 0;
    while k < drop
        invariant
            drop <= start.len(),
            k <= drop,
            queue@ == start.skip(k as int),
        decreases drop - k,
    {
        let front = queue.pop_front();
        k = k + 1;
        assert(queue@ =~= start.skip(k as int));
    }
    let ghost kept = queue@;
    let mut i: usize = 0;
    while i < chunk.len()
        invariant
            i <= chunk@.len(),
            queue@ == kept + chunk@.subrange(0, i as int),
        decreases chunk@.len() - i,
    {
        queue.push_back(chunk[i]);
        i = i + 1;
        assert(queue@ =~= kept + chunk@.subrange(0, i as int));
    }
    assert(chunk@.subrange(0, chunk@.len() as int) =~= chunk@);
}

/// Why per-app capture is unavailable on this platform.
pub open spec fn no_app_capture_message() -> Seq<char> {
    "capturing a single application is only implemented on Windows; set audio.apps.enabled to false to capture the output device instead"@
}

/// Lists the applications that can be captured one by one. Outside Windows there is no process
/// loopback to do that with, so the answer is always that it cannot be done.
pub fn list_apps() -> (r: Result<Vec<AppInfo>, String>)
    ensures
        r is Err && r->Err_0@ == no_app_capture_message(),
{
    Err(String::from_str("capturing a single application is only implemented on Windows; set audio.apps.enabled to false to capture the output device instead"))
}

/// Whether a captured process is still running. Without per-app capture no process is ever
/// captured, so none is taken to be alive.
pub fn process_alive(pid: u32) -> (b: bool)
    ensures
        !b,
{
    false
}

/// Whether application `a` is listed before `b`: playing ones first, then by display name
/// compared in lowercase.
pub open spec fn app_before(a: AppInfo, b: AppInfo) -> bool {
    ||| (a.playing && !b.playing)
    ||| (a.playing == b.playing && lex_less(lowercase_of(a.display@), lowercase_of(b.display@)))
}

/// Whether neither of two applications is listed before the other.
pub open spec fn app_tied(a: AppInfo, b: AppInfo) -> bool {
    a.playing == b.playing && lowercase_of(a.display@) == lowercase_of(b.display@)
}

/// `out` is `input` put in listing order by a stable sort, `perm` saying where each entry came
/// from: entries that tie keep the order they had.
pub open spec fn stable_listing(input: Seq<AppInfo>, out: Seq<AppInfo>, perm: Seq<int>) -> bool {
    &&& out.len() == input.len()
    &&& perm.len() == input.len()
    &&& forall|k: int| 0 <= k < perm.len() ==> 0 <= #[trigger] perm[k] < input.len() && out[k] == input[perm[k]]
    &&& forall|k: int, l: int| 0 <= k < l < perm.len() ==> #[trigger] perm[k] != #[trigger] perm[l]
    &&& forall|k: int, l: int|
        0 <= k < l < out.len() ==> app_before(#[trigger] out[k], #[trigger] out[l]) || (app_tied(out[k], out[l]) && perm[k]
            < perm[l])
}

/// `out` is `input` in listing order, as a stable sort leaves it.
pub open spec fn listing_of(input: Seq<AppInfo>, out: Seq<AppInfo>) -> bool {
    exists|perm: Seq<int>| stable_listing(input, out, perm)
}

/// Of two applications, exactly one is listed first or they tie.
proof fn lemma_app_order(a: AppInfo, b: AppInfo)
    ensures
        app_before(a, b) || app_before(b, a) || app_tied(a, b),
        app_before(a, b) ==> !app_before(b, a) && !app_tied(a, b),
        app_tied(a, b) ==> app_tied(b, a),
{
    let ka = lowercase_of(a.display@);
    let kb = lowercase_of(b.display@);
    lemma_lex_irreflexive(ka);
    lemma_lex_irreflexive(kb);
    if ka != kb {
        lemma_lex_total(ka, kb);
    }
    if lex_less(ka, kb) && lex_less(kb, ka) {
        lemma_lex_transitive(ka, kb, ka);
    }
}

/// Listing before is transitive, also through a tie.
proof fn lemma_app_before_through(a: AppInfo, b: AppInfo, c: AppInfo)
    requires
        app_before(a, b),
        app_before(b, c) || app_tied(b, c),
    ensures
        app_before(a, c),
{
    let ka = lowercase_of(a.display@);
    let kb = lowercase_of(b.display@);
    let kc = lowercase_of(c.display@);
    if lex_less(ka, kb) && lex_less(kb, kc) {
        lemma_lex_transitive(ka, kb, kc);
    }
}

/// Whether `a`, whose lowercase display name is `ka`, is listed before `b`, whose lowercase
/// display name is `kb`.
fn listed_before(a: &AppInfo, ka: &Vec<char>, b: &AppInfo, kb: &Vec<char>) -> (r: bool)
    requires
        ka@ == lowercase_of(a.display@),
        kb@ == lowercase_of(b.display@),
    ensures
        r == app_before(*a, *b),
{
    (a.playing && !b.playing) || (a.playing == b.playing && chars_less(ka, kb))
}

/// Puts applications in listing order: playing ones first, then alphabetically by display name
/// without regard to case; applications that tie keep their order.
pub fn sort_apps(apps: Vec<AppInfo>) -> (out: Vec<AppInfo>)
    ensures
        listing_of(apps@, out@),
{
    let ghost input = apps@;
    let n = apps.len();
    let mut rest = apps;
    let mut out: Vec<AppInfo> = Vec::new();
    let mut keys: Vec<Vec<char>> = Vec::new();
    let ghost mut perm: Seq<int> = Seq::empty();
    let mut i: usize = 0;
    while i < n
        invariant
            n == input.len(),
            i <= n,
            rest@ == input.skip(i as int),
            out@.len() == i,
            keys@.len() == i,
            perm.len() == i,
            forall|k: int| 0 <= k < i ==> #[trigger] keys@[k]@ == lowercase_of(out@[k].display@),
            forall|k: int| 0 <= k < i ==> 0 <= #[trigger] perm[k] < i && out@[k] == input[perm[k]],
            forall|k: int, l: int| 0 <= k < l < i ==> #[trigger] perm[k] != #[trigger] perm[l],
            forall|k: int, l: int|
                0 <= k < l < i ==> app_before(#[trigger] out@[k], #[trigger] out@[l]) || (app_tied(out@[k], out@[l])
                    && perm[k] < perm[l]),
        decreases n - i,
    {
        assert(rest@[0] == input[i as int]);
        let x = rest.remove(0);
        assert(rest@ =~= input.skip(i + 1));
        let lowered = to_lowercase(x.display.as_str());
        let kx = chars_of(lowered.as_str());
        let mut p: usize = 0;
        while p < out.len() && !listed_before(&x, &kx, &out[p], &keys[p])
            invariant
                out@.len() == i,
                keys@.len() == i,
                p <= i,
                kx@ == lowercase_of(x.display@),
                forall|k: int| 0 <= k < i ==> #[trigger] keys@[k]@ == lowercase_of(out@[k].display@),
                forall|m: int| 0 <= m < p ==> !app_before(x, #[trigger] out@[m]),
            decreases i - p,
        {
            p = p + 1;
        }
        let ghost old_out = out@;
        let ghost old_perm = perm;
        let ghost old_keys = keys@;
        proof {
            assert forall|m: int| p <= m < i implies app_before(x, #[trigger] old_out[m]) by {
                if m > p {
                    lemma_app_order(old_out[p as int], old_out[m]);
                    lemma_app_before_through(x, old_out[p as int], old_out[m]);
                }
            }
            assert forall|m: int| 0 <= m < p implies app_before(#[trigger] old_out[m], x) || app_tied(old_out[m], x) by {
                lemma_app_order(old_out[m], x);
            }
        }
        out.insert(p, x);
        keys.insert(p, kx);
        proof {
            perm = old_perm.insert(p as int, i as int);
            let new_out = out@;
            assert(new_out == old_out.insert(p as int, x));
            assert forall|k: int, l: int| 0 <= k < l < i + 1 implies app_before(#[trigger] new_out[k], #[trigger] new_out[l])
                || (app_tied(new_out[k], new_out[l]) && perm[k] < perm[l]) by {
                if k < p && l < p {
                    assert(new_out[k] == old_out[k] && new_out[l] == old_out[l]);
                } else if k < p && l == p {
                    assert(new_out[k] == old_out[k] && new_out[l] == x);
                } else if k < p {
                    assert(new_out[k] == old_out[k] && new_out[l] == old_out[l - 1]);
                } else if k == p {
                    assert(new_out[k] == x && new_out[l] == old_out[l - 1]);
                } else {
                    assert(new_out[k] == old_out[k - 1] && new_out[l] == old_out[l - 1]);
                }
            }
            assert forall|k: int| 0 <= k < i + 1 implies 0 <= #[trigger] perm[k] < i + 1 && new_out[k] == input[perm[k]] by {
                if k < p {
                    assert(perm[k] == old_perm[k]);
                } else if k > p {
                    assert(perm[k] == old_perm[k - 1]);
                }
            }
            assert forall|k: int, l: int| 0 <= k < l < i + 1 implies #[trigger] perm[k] != #[trigger] perm[l] by {
                if k < p && l < p {
                } else if k < p && l == p {
                } else if k < p {
                    assert(perm[l] == old_perm[l - 1]);
                } else if k == p {
                    assert(perm[l] == old_perm[l - 1]);
                } else {
                    assert(perm[k] == old_perm[k - 1] && perm[l] == old_perm[l - 1]);
                }
            }
            assert forall|k: int| 0 <= k < i + 1 implies #[trigger] keys@[k]@ == lowercase_of(new_out[k].display@) by {
                if k < p {
                    assert(keys@[k] == old_keys[k] && new_out[k] == old_out[k]);
                } else if k > p {
                    assert(keys@[k] == old_keys[k - 1] && new_out[k] == old_out[k - 1]);
                }
            }
        }
        i = i + 1;
    }
    proof {
        assert(stable_listing(input, out@, perm));
    }
    out
}

/// The applications as the settings window lists them: what the backend found, in listing order,
/// or the backend's failure as it came.
pub fn enumerate_apps(listed: Result<Vec<AppInfo>, String>) -> (r: Result<Vec<AppInfo>, String>)
    ensures
        match listed {
            Ok(apps) => r is Ok && listing_of(apps@, r->Ok_0@),
            Err(e) => r is Err && r->Err_0@ == e@,
        },
{
    match listed {
        Ok(apps) => {
            Ok(sort_apps(apps))
        },
        Err(e) => Err(e),
    }
}

/// The patterns of a group that are not blank, as written.
pub open spec fn usable_patterns(apps: Seq<String>) -> Seq<Seq<char>>
    decreases apps.len(),
{
    if apps.len() == 0 {
        Seq::empty()
    } else {
        let rest = usable_patterns(apps.drop_last());
        if trimmed(apps.last()@).len() > 0 {
            rest.push(apps.last()@)
        } else {
            rest
        }
    }
}

/// The usable patterns of the active groups among the first `k`, in order.
pub open spec fn active_patterns(groups: Seq<AppPatterns>, k: nat) -> Seq<Seq<char>>
    decreases k,
{
    if k == 0 {
        Seq::empty()
    } else {
        let g = groups[k - 1];
        active_patterns(groups, (k - 1) as nat) + if group_active(g.enabled, g.apps@) {
            usable_patterns(g.apps@)
        } else {
            Seq::empty()
        }
    }
}

/// How per-app capture describes what it records: the apps named, or every app but those.
pub open spec fn apps_source_text(mode: AppMatchMode, groups: Seq<AppPatterns>) -> Seq<char> {
    (match mode {
        AppMatchMode::Include => "apps "@,
        AppMatchMode::Exclude => "every app except "@,
    }) + joined(active_patterns(groups, groups.len()), ", "@)
}

/// Describes what per-app capture records, for the status line.
pub fn apps_source(mode: AppMatchMode, groups: &Vec<AppPatterns>) -> (s: String)
    ensures
        s@ == apps_source_text(mode, groups@),
{
    let mut patterns: Vec<String> = Vec::new();
    let mut k: usize = 0;
    while k < groups.len()
        invariant
            k <= groups@.len(),
            texts(patterns@) == active_patterns(groups@, k as nat),
        decreases groups@.len() - k,
    {
        let ghost before = texts(patterns@);
        if group_is_active(&groups[k]) {
            let apps = &groups[k].apps;
            let mut i: usize = 0;
            while i < apps.len()
                invariant
                    i <= apps@.len(),
                    texts(patterns@) == before + usable_patterns(apps@.take(i as int)),
                decreases apps@.len() - i,
            {
                let c = chars_of(apps[i].as_str());
                let t = trim_chars(&c);
                let ghost prev = patterns@;
                if t.len() > 0 {
                    patterns.push(apps[i].clone());
                    assert(texts(patterns@) =~= texts(prev).push(apps@[i as int]@));
                }
                proof {
                    let nxt = apps@.take(i + 1);
                    assert(nxt.drop_last() =~= apps@.take(i as int));
                    assert(nxt.last() == apps@[i as int]);
                    assert(t@ == trimmed(apps@[i as int]@));
                }
                i = i + 1;
                assert(texts(patterns@) =~= before + usable_patterns(apps@.take(i as int)));
            }
            assert(apps@.take(apps@.len() as int) =~= apps@);
        }
        k = k + 1;
        assert(texts(patterns@) =~= active_patterns(groups@, k as nat));
    }
    let mut s = match mode {
        AppMatchMode::Include => String::from_str("apps "),
        AppMatchMode::Exclude => String::from_str("every app except "),
    };
    let list = join_strings(&patterns, ", ");
    push_str(&mut s, list.as_str());
    s
}

/// The warning given when per-app capture is asked for where it does not exist.
pub open spec fn unsupported_apps_message() -> Seq<char> {
    "audio.apps.enabled is true but capturing a single application is only implemented on Windows, capturing the output device instead"@
}

/// Whether the capture records applications one by one rather than the output device: only
/// when per-app capture is enabled, some group can be used, and the platform supports it. When
/// it is enabled but no group can be used, or the platform cannot do it, the output device is
/// recorded and a warning says why.
pub fn captures_apps(enabled: bool, groups: &Vec<AppPatterns>, supported: bool, warnings: &mut Vec<String>) -> (b: bool)
    ensures
        b == (enabled && supported && exists|i: int| 0 <= i < groups@.len() && #[trigger] group_active(groups@[i].enabled, groups@[i].apps@)),
        !enabled ==> final(warnings)@ == old(warnings)@,
        enabled && !(exists|i: int| 0 <= i < groups@.len() && #[trigger] group_active(groups@[i].enabled, groups@[i].apps@))
            ==> appended_texts(old(warnings)@, final(warnings)@, seq![no_usable_group_message()]),
        enabled && (exists|i: int| 0 <= i < groups@.len() && #[trigger] group_active(groups@[i].enabled, groups@[i].apps@)) && !supported
            ==> appended_texts(old(warnings)@, final(warnings)@, seq![unsupported_apps_message()]),
        b ==> final(warnings)@ == old(warnings)@,
{
    let ghost start = warnings@;
    if apps_usable(enabled, groups, warnings) {
        if supported {
            return true;
        }
        warnings.push(String::from_str("audio.apps.enabled is true but capturing a single application is only implemented on Windows, capturing the output device instead"));
        assert(warnings@.subrange(0, start.len() as int) =~= start);
        return false;
    }
    proof {
        if enabled {
            assert(warnings@.subrange(0, start.len() as int) =~= start);
        }
    }
    false
}

/// `n` spaces.
pub open spec fn spaces(n: nat) -> Seq<char> {
    Seq::new(n, |i: int| ' ')
}

/// `s` padded with spaces on the right to `width` characters, as `{:<width$}` does.
pub open spec fn padded(s: Seq<char>, width: nat) -> Seq<char> {
    if s.len() >= width {
        s
    } else {
        s + spaces((width - s.len()) as nat)
    }
}

/// Appends `t` padded with spaces on the right to `width` characters.
fn push_padded(s: &mut String, t: &str, width: usize)
    ensures
        final(s)@ == old(s)@ + padded(t@, width as nat),
{
    push_str(s, t);
    let mut k: usize = t.unicode_len();
    while k < width
        invariant
            k <= width || k == t@.len(),
            t@.len() <= k,
            s@ == old(s)@ + t@ + spaces((k - t@.len()) as nat),
        decreases width - k,
    {
        push_str(s, " ");
        proof {
            reveal_strlit(" ");
        }
        k = k + 1;
        assert(s@ =~= old(s)@ + t@ + spaces((k - t@.len()) as nat));
    }
    assert(s@ =~= old(s)@ + padded(t@, width as nat));
}

/// The widest display name among the first `n` applications, in characters.
pub open spec fn widest(apps: Seq<AppInfo>, n: nat) -> nat
    decreases n,
{
    if n == 0 {
        0
    } else {
        let rest = widest(apps, (n - 1) as nat);
        let w = apps[n - 1].display@.len();
        if w > rest {
            w
        } else {
            rest
        }
    }
}

/// One line of the application listing: the display name padded to `width`, the executable
/// padded to 24, the process id padded to 8, and whether it plays.
pub open spec fn app_line(a: AppInfo, width: nat) -> Seq<char> {
    "  "@ + padded(a.display@, width) + "  "@ + padded(a.exe@, 24) + " pid "@ + padded(decimal(a.pid as nat), 8) + " "@
        + if a.playing {
        "playing"@
    } else {
        "idle"@
    }
}

/// The lines the console program prints for `--list-apps`, for applications already in listing
/// order: a header and one line per application with the names in one column, or a note that
/// none was found.
pub fn app_lines(apps: &Vec<AppInfo>) -> (lines: Vec<String>)
    ensures
        apps@.len() == 0 ==> lines@.len() == 2 && lines@[0]@ == "--- Applications ---"@ && lines@[1]@
            == "  (none found)"@,
        apps@.len() > 0 ==> {
            &&& lines@.len() == apps@.len() + 1
            &&& lines@[0]@ == "--- Applications (usable in audio.apps.groups[].apps) ---"@
            &&& forall|i: int| 0 <= i < apps@.len() ==> #[trigger] lines@[i + 1]@ == app_line(apps@[i], widest(apps@, apps@.len()))
        },
{
    let mut lines: Vec<String> = Vec::new();
    if apps.len() == 0 {
        lines.push(String::from_str("--- Applications ---"));
        lines.push(String::from_str("  (none found)"));
        return lines;
    }
    let mut width: usize = 0;
    let mut i: usize = 0;
    while i < apps.len()
        invariant
            i <= apps@.len(),
            width == widest(apps@, i as nat),
        decreases apps@.len() - i,
    {
        let w = apps[i].display.as_str().unicode_len();
        if w > width {
            width = w;
        }
        i = i + 1;
    }
    lines.push(String::from_str("--- Applications (usable in audio.apps.groups[].apps) ---"));
    let mut k: usize = 0;
    while k < apps.len()
        invariant
            k <= apps@.len(),
            width == widest(apps@, apps@.len()),
            lines@.len() == k + 1,
            lines@[0]@ == "--- Applications (usable in audio.apps.groups[].apps) ---"@,
            forall|j: int| 0 <= j < k ==> #[trigger] lines@[j + 1]@ == app_line(apps@[j], width as nat),
        decreases apps@.len() - k,
    {
        let a = &apps[k];
        let mut s = String::from_str("  ");
        push_padded(&mut s, a.display.as_str(), width);
        push_str(&mut s, "  ");
        push_padded(&mut s, a.exe.as_str(), 24);
        push_str(&mut s, " pid ");
        let pid = decimal_string(a.pid as u64);
        push_padded(&mut s, pid.as_str(), 8);
        push_str(&mut s, " ");
        if a.playing {
            push_str(&mut s, "playing");
        } else {
            push_str(&mut s, "idle");
        }
        proof {
            reveal_strlit("  ");
            reveal_strlit(" pid ");
            reveal_strlit(" ");
            reveal_strlit("playing");
            reveal_strlit("idle");
        }
        assert(s@ =~= app_line(apps@[k as int], width as nat));
        lines.push(s);
        k = k + 1;
    }
    lines
}

} // verus!
