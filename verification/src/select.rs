//! Picking the capture device on the platforms that record through a plain input device: the
//! system's output only shows up there as a monitor or virtual device, recognised by its name.
use vstd::prelude::*;
use vstd::string::*;
use crate::config::AudioDeviceSelector;
use crate::text::{
    contains_seq, eq_ignore_ascii_case, lowercase_of, to_lowercase, chars_of, contains_chars, chars_eq,
    chars_eq_ignore_ascii_case, push_str, appended_texts, debug_quoted, debug_string,
};

verus! {

/// Words in the names of Linux capture devices that carry the system's output: PulseAudio and
/// PipeWire monitor sources, and ALSA loopback devices.
pub fn linux_loopback_hints() -> (v: Vec<&'static str>)
    ensures
        v@.len() == 2,
        v@[0]@ == "monitor"@,
        v@[1]@ == "loopback"@,
{
    vec!["monitor", "loopback"]
}

/// Words in the names of macOS virtual audio devices that carry the system's output.
pub fn macos_loopback_hints() -> (v: Vec<&'static str>)
    ensures
        v@.len() == 8,
        v@[0]@ == "blackhole"@,
        v@[1]@ == "soundflower"@,
        v@[2]@ == "loopback audio"@,
        v@[3]@ == "ishowu"@,
        v@[4]@ == "vb-cable"@,
        v@[5]@ == "existential audio"@,
        v@[6]@ == "aggregate"@,
        v@[7]@ == "multi-output"@,
{
    vec!["blackhole", "soundflower", "loopback audio", "ishowu", "vb-cable", "existential audio", "aggregate", "multi-output"]
}

/// Whether a device name, in lowercase, contains one of the hints.
pub open spec fn loopback_name(name: Seq<char>, hints: Seq<&str>) -> bool {
    exists|i: int| 0 <= i < hints.len() && contains_seq(lowercase_of(name), #[trigger] hints[i]@)
}

/// Whether a device looks like it carries the system's output: its lowercase name contains one
/// of the hints.
pub fn is_loopback(name: &str, hints: &[&str]) -> (b: bool)
    ensures
        b == loopback_name(name@, hints@),
{
    let lowered = to_lowercase(name);
    let chars = chars_of(lowered.as_str());
    let mut i: usize = 0;
    while i < hints.len()
        invariant
            i <= hints@.len(),
            chars@ == lowercase_of(name@),
            forall|k: int| 0 <= k < i ==> !contains_seq(lowercase_of(name@), #[trigger] hints@[k]@),
        decreases hints@.len() - i,
    {
        let h = chars_of(hints[i]);
        if contains_chars(&chars, &h) {
            return true;
        }
        i = i + 1;
    }
    false
}

/// Why no device could be picked.
#[derive(Debug, Clone, PartialEq, Eq)]
pub enum SelectError {
    NoDevices,
    NoMatch { wanted: String },
}

/// The device picked, and whether no output-carrying device was found so a plain input was
/// taken instead.
#[derive(Debug, Clone, Copy, PartialEq, Eq, Structural)]
pub struct Selection {
    pub index: usize,
    pub fell_back_to_input: bool,
}

/// A test a device name is held to while searching.
pub enum NameTest {
    /// The name is exactly this.
    Exact(Vec<char>),
    /// The name is this, ASCII letters compared without case.
    IgnoringAsciiCase(Vec<char>),
    /// The lowercase name contains this.
    LowercaseContains(Vec<char>),
    /// The name looks like a loopback device by these hints.
    Loopback(Vec<Vec<char>>),
}

/// Whether `name` passes `test`.
pub open spec fn passes(test: NameTest, name: Seq<char>) -> bool {
    match test {
        NameTest::Exact(t) => name == t@,
        NameTest::IgnoringAsciiCase(t) => eq_ignore_ascii_case(name, t@),
        NameTest::LowercaseContains(t) => contains_seq(lowercase_of(name), t@),
        NameTest::Loopback(hs) => hint_hit(name, hs@),
    }
}

/// Whether the lowercase `name` contains one of `hints`.
pub open spec fn hint_hit(name: Seq<char>, hints: Seq<Vec<char>>) -> bool {
    exists|i: int| 0 <= i < hints.len() && contains_seq(lowercase_of(name), #[trigger] hints[i]@)
}

/// The first position from `start` on whose name passes `test`.
pub open spec fn position_from(names: Seq<String>, test: NameTest, start: nat) -> Option<nat>
    decreases names.len() - start,
{
    if start >= names.len() {
        None
    } else if passes(test, names[start as int]@) {
        Some(start)
    } else {
        position_from(names, test, start + 1)
    }
}

/// Whether `name` passes `test`.
fn test_name(test: &NameTest, name: &String) -> (b: bool)
    ensures
        b == passes(*test, name@),
{
    let chars = chars_of(name.as_str());
    match test {
        NameTest::Exact(t) => chars_eq(&chars, t),
        NameTest::IgnoringAsciiCase(t) => chars_eq_ignore_ascii_case(&chars, t),
        NameTest::LowercaseContains(t) => {
            let lowered = to_lowercase(name.as_str());
            let l = chars_of(lowered.as_str());
            contains_chars(&l, t)
        },
        NameTest::Loopback(hs) => {
            let lowered = to_lowercase(name.as_str());
            let l = chars_of(lowered.as_str());
            let mut i: usize = 0;
            while i < hs.len()
                invariant
                    i <= hs@.len(),
                    l@ == lowercase_of(name@),
                    passes(*test, name@) == hint_hit(name@, hs@),
                    forall|k: int| 0 <= k < i ==> !contains_seq(lowercase_of(name@), #[trigger] hs@[k]@),
                decreases hs@.len() - i,
            {
                if contains_chars(&l, &hs[i]) {
                    assert(contains_seq(lowercase_of(name@), hs@[i as int]@));
                    assert(hint_hit(name@, hs@));
                    return true;
                }
                i = i + 1;
            }
            false
        },
    }
}

/// The first position whose name passes `test`.
fn position(names: &[String], test: &NameTest) -> (r: Option<usize>)
    ensures
        match position_from(names@, *test, 0) {
            Some(k) => r == Some(k as usize),
            None => r is None,
        },
{
    let mut i: usize = 0;
    while i < names.len()
        invariant
            i <= names@.len(),
            position_from(names@, *test, 0) == position_from(names@, *test, i as nat),
        decreases names@.len() - i,
    {
        if test_name(test, &names[i]) {
            return Some(i);
        }
        i = i + 1;
    }
    None
}

/// The hints as character sequences.
fn hint_chars(hints: &[&str]) -> (v: Vec<Vec<char>>)
    ensures
        v@.len() == hints@.len(),
        forall|i: int| 0 <= i < hints@.len() ==> #[trigger] v@[i]@ == hints@[i]@,
{
    let mut v: Vec<Vec<char>> = Vec::new();
    let mut i: usize = 0;
    while i < hints.len()
        invariant
            i <= hints@.len(),
            v@.len() == i,
            forall|k: int| 0 <= k < i ==> #[trigger] v@[k]@ == hints@[k]@,
        decreases hints@.len() - i,
    {
        v.push(chars_of(hints[i]));
        i = i + 1;
    }
    v
}

/// What `choose_device` picks. An id matches a name exactly, or else without ASCII case; a name matches
/// when the lowercase device name contains it in lowercase; the default is the first device that
/// looks like a loopback, or else the default input (the first device when there is none or it
/// is out of range), flagged as a fall-back.
pub open spec fn choice(names: Seq<String>, sel: AudioDeviceSelector, hints: Seq<&str>, default_index: Option<usize>) -> Result<Selection, SelectError> {
    if names.len() == 0 {
        Err(SelectError::NoDevices)
    } else {
        match sel {
            AudioDeviceSelector::Id { id } => {
                let exact = first_name(names, |t: Seq<char>| t == id@);
                let loose = first_name(names, |t: Seq<char>| eq_ignore_ascii_case(t, id@));
                match exact {
                    Some(k) => Ok(Selection { index: k as usize, fell_back_to_input: false }),
                    None => match loose {
                        Some(k) => Ok(Selection { index: k as usize, fell_back_to_input: false }),
                        None => Err(SelectError::NoMatch { wanted: id }),
                    },
                }
            },
            AudioDeviceSelector::Name { name } => {
                match first_name(names, |t: Seq<char>| contains_seq(lowercase_of(t), lowercase_of(name@))) {
                    Some(k) => Ok(Selection { index: k as usize, fell_back_to_input: false }),
                    None => Err(SelectError::NoMatch { wanted: name }),
                }
            },
            AudioDeviceSelector::Default => {
                match first_name(names, |t: Seq<char>| loopback_name(t, hints)) {
                    Some(k) => Ok(Selection { index: k as usize, fell_back_to_input: false }),
                    None => {
                        let index: usize = match default_index {
                            Some(d) => if d < names.len() {
                                d
                            } else {
                                0
                            },
                            None => 0,
                        };
                        Ok(Selection { index, fell_back_to_input: true })
                    },
                }
            },
        }
    }
}

/// The first position whose name satisfies `p`.
pub open spec fn first_name(names: Seq<String>, p: spec_fn(Seq<char>) -> bool) -> Option<nat> {
    if exists|k: int| 0 <= k < names.len() && #[trigger] p(names[k]@) {
        let k = choose|k: int| 0 <= k < names.len() && #[trigger] p(names[k]@) && forall|j: int| 0 <= j < k ==> !p(#[trigger] names[j]@);
        Some(k as nat)
    } else {
        None
    }
}

/// The search from `start` finds the first passing name at or after `start`.
proof fn lemma_position_from(names: Seq<String>, test: NameTest, start: nat)
    requires
        start <= names.len(),
    ensures
        match position_from(names, test, start) {
            Some(k) => start <= k < names.len() && passes(test, names[k as int]@) && forall|j: int|
                start <= j < k ==> !passes(test, #[trigger] names[j]@),
            None => forall|j: int| start <= j < names.len() ==> !passes(test, #[trigger] names[j]@),
        },
    decreases names.len() - start,
{
    if start < names.len() && !passes(test, names[start as int]@) {
        lemma_position_from(names, test, start + 1);
    }
}

/// A search with `test` finds what `first_name` names, when `p` is what `test` checks.
proof fn lemma_position_is_first(names: Seq<String>, test: NameTest, p: spec_fn(Seq<char>) -> bool)
    requires
        forall|t: Seq<char>| #[trigger] p(t) == passes(test, t),
    ensures
        match first_name(names, p) {
            Some(k) => position_from(names, test, 0) == Some(k),
            None => position_from(names, test, 0) is None,
        },
{
    lemma_position_from(names, test, 0);
    match position_from(names, test, 0) {
        Some(k) => {
            assert(p(names[k as int]@));
            let c = choose|c: int| 0 <= c < names.len() && #[trigger] p(names[c]@) && forall|j: int| 0 <= j < c ==> !p(#[trigger] names[j]@);
            assert(0 <= c < names.len() && p(names[c]@) && forall|j: int| 0 <= j < c ==> !p(#[trigger] names[j]@)) by {
                assert(0 <= k < names.len() && p(names[k as int]@) && forall|j: int| 0 <= j < k ==> !p(#[trigger] names[j]@));
            }
            if c < k {
                assert(!passes(test, names[c]@));
            }
            if k < c {
                assert(!p(names[k as int]@));
            }
        },
        None => {
            if exists|c: int| 0 <= c < names.len() && #[trigger] p(names[c]@) {
                let c = choose|c: int| 0 <= c < names.len() && #[trigger] p(names[c]@);
                assert(!passes(test, names[c]@));
            }
        },
    }
}

/// Picks the capture device a selector asks for among the device names.
pub fn choose_device(names: &[String], sel: &AudioDeviceSelector, hints: &[&str], default_index: Option<usize>) -> (r: Result<Selection, SelectError>)
    ensures
        r == choice(names@, *sel, hints@, default_index),
{
    if names.len() == 0 {
        return Err(SelectError::NoDevices);
    }
    match sel {
        AudioDeviceSelector::Id { id } => {
            let target = chars_of(id.as_str());
            let exact = NameTest::Exact(target);
            let target2 = chars_of(id.as_str());
            let loose = NameTest::IgnoringAsciiCase(target2);
            proof {
                lemma_position_is_first(names@, exact, |t: Seq<char>| t == id@);
                lemma_position_is_first(names@, loose, |t: Seq<char>| eq_ignore_ascii_case(t, id@));
            }
            match position(names, &exact) {
                Some(i) => Ok(Selection { index: i, fell_back_to_input: false }),
                None => match position(names, &loose) {
                    Some(i) => Ok(Selection { index: i, fell_back_to_input: false }),
                    None => Err(SelectError::NoMatch { wanted: id.clone() }),
                },
            }
        },
        AudioDeviceSelector::Name { name } => {
            let wanted = to_lowercase(name.as_str());
            let test = NameTest::LowercaseContains(chars_of(wanted.as_str()));
            proof {
                lemma_position_is_first(names@, test, |t: Seq<char>| contains_seq(lowercase_of(t), lowercase_of(name@)));
            }
            match position(names, &test) {
                Some(i) => Ok(Selection { index: i, fell_back_to_input: false }),
                None => Err(SelectError::NoMatch { wanted: name.clone() }),
            }
        },
        AudioDeviceSelector::Default => {
            let hs = hint_chars(hints);
            let ghost hv = hs@;
            let test = NameTest::Loopback(hs);
            proof {
                assert forall|t: Seq<char>| #[trigger] loopback_name(t, hints@) == passes(test, t) by {
                    if loopback_name(t, hints@) {
                        let i = choose|i: int| 0 <= i < hints@.len() && contains_seq(lowercase_of(t), #[trigger] hints@[i]@);
                        assert(hv[i]@ == hints@[i]@);
                        assert(contains_seq(lowercase_of(t), hv[i]@));
                        assert(hint_hit(t, hv));
                    }
                    if passes(test, t) {
                        let i = choose|i: int| 0 <= i < hv.len() && contains_seq(lowercase_of(t), #[trigger] hv[i]@);
                        assert(hv[i]@ == hints@[i]@);
                        assert(contains_seq(lowercase_of(t), hints@[i]@));
                    }
                }
                lemma_position_is_first(names@, test, |t: Seq<char>| loopback_name(t, hints@));
            }
            match position(names, &test) {
                Some(i) => Ok(Selection { index: i, fell_back_to_input: false }),
                None => {
                    let index: usize = match default_index {
                        Some(d) => if d < names.len() {
                            d
                        } else {
                            0
                        },
                        None => 0,
                    };
                    Ok(Selection { index, fell_back_to_input: true })
                },
            }
        },
    }
}

/// The tags of a device line.
pub open spec fn device_tags(loopback: bool, default: bool) -> Seq<char> {
    if loopback && default {
        "system output, default input"@
    } else if loopback {
        "system output"@
    } else {
        "default input"@
    }
}

/// One line of the device listing: the name, and in brackets whether it carries the system's
/// output and whether it is the default input.
pub open spec fn device_line(name: Seq<char>, loopback: bool, default: bool) -> Seq<char> {
    if !loopback && !default {
        "  - "@ + name
    } else {
        "  - "@ + name + "  ["@ + device_tags(loopback, default) + "]"@
    }
}

/// The line for the device at position `i`.
pub open spec fn line_at(names: Seq<String>, hints: Seq<&str>, default_index: Option<usize>, i: int) -> Seq<char> {
    device_line(names[i]@, loopback_name(names[i]@, hints), default_index == Some(i as usize))
}

/// The lines of the first `n` devices, separated by line breaks.
pub open spec fn device_lines(names: Seq<String>, hints: Seq<&str>, default_index: Option<usize>, n: nat) -> Seq<char>
    decreases n,
{
    if n == 0 {
        Seq::empty()
    } else if n == 1 {
        line_at(names, hints, default_index, 0)
    } else {
        device_lines(names, hints, default_index, (n - 1) as nat) + "\n"@ + line_at(names, hints, default_index, n - 1)
    }
}

/// The device listing, or a note that there are no devices.
pub open spec fn device_listing(names: Seq<String>, hints: Seq<&str>, default_index: Option<usize>) -> Seq<char> {
    if names.len() == 0 {
        "  (no capture devices found)"@
    } else {
        device_lines(names, hints, default_index, names.len())
    }
}

/// Lists the capture devices one per line, tagging those that carry the system's output and the
/// default input.
pub fn describe_devices(names: &[String], hints: &[&str], default_index: Option<usize>) -> (s: String)
    ensures
        s@ == device_listing(names@, hints@, default_index),
{
    if names.len() == 0 {
        return String::from_str("  (no capture devices found)");
    }
    let mut s = String::new();
    let mut i: usize = 0;
    while i < names.len()
        invariant
            1 <= names@.len(),
            i <= names@.len(),
            s@ == device_lines(names@, hints@, default_index, i as nat),
        decreases names@.len() - i,
    {
        if i > 0 {
            push_str(&mut s, "\n");
        }
        let loopback = is_loopback(names[i].as_str(), hints);
        let default = match default_index {
            Some(d) => d == i,
            None => false,
        };
        push_str(&mut s, "  - ");
        push_str(&mut s, names[i].as_str());
        if loopback || default {
            push_str(&mut s, "  [");
            if loopback && default {
                push_str(&mut s, "system output, default input");
            } else if loopback {
                push_str(&mut s, "system output");
            } else {
                push_str(&mut s, "default input");
            }
            push_str(&mut s, "]");
        }
        proof {
            assert(default == (default_index == Some(i)));
        }
        i = i + 1;
        assert(s@ =~= device_lines(names@, hints@, default_index, i as nat));
    }
    s
}

/// Whether some device looks like it carries the system's output.
pub open spec fn any_loopback(names: Seq<String>, hints: Seq<&str>) -> bool {
    exists|i: int| 0 <= i < names.len() && loopback_name(#[trigger] names[i]@, hints)
}

/// Whether some device looks like it carries the system's output.
fn has_loopback(names: &[String], hints: &[&str]) -> (b: bool)
    ensures
        b == any_loopback(names@, hints@),
{
    let mut i: usize = 0;
    while i < names.len()
        invariant
            i <= names@.len(),
            forall|k: int| 0 <= k < i ==> !loopback_name(#[trigger] names@[k]@, hints@),
        decreases names@.len() - i,
    {
        if is_loopback(names[i].as_str(), hints) {
            return true;
        }
        i = i + 1;
    }
    false
}

/// What Linux users are told when no monitor source shows up.
pub fn linux_no_loopback_help() -> (s: &'static str)
    ensures
        s@ == "No monitor source was found. These come from PulseAudio or PipeWire, so check that one of them is running (`pactl info`).\nOn a plain ALSA system there is no way to record the output, and a loopback device has to be set up by hand (`snd-aloop`)."@,
{
    "No monitor source was found. These come from PulseAudio or PipeWire, so check that one of them is running (`pactl info`).\nOn a plain ALSA system there is no way to record the output, and a loopback device has to be set up by hand (`snd-aloop`)."
}

/// What macOS users are told when no virtual audio device shows up.
pub fn macos_no_loopback_help() -> (s: &'static str)
    ensures
        s@ == "macOS cannot record its own output without help. Install a virtual audio driver - BlackHole (https://existential.audio/blackhole) is free - then:\n  1. Audio MIDI Setup > + > Create Multi-Output Device, tick both your speakers and BlackHole.\n  2. Select that Multi-Output Device as the system output, so you still hear the audio.\n  3. Set audio.device to {\"type\": \"name\", \"name\": \"BlackHole\"}, or leave it on default and it will be found.\nThe program also needs microphone permission the first time it records, which macOS asks for on the first run."@,
{
    "macOS cannot record its own output without help. Install a virtual audio driver - BlackHole (https://existential.audio/blackhole) is free - then:\n  1. Audio MIDI Setup > + > Create Multi-Output Device, tick both your speakers and BlackHole.\n  2. Select that Multi-Output Device as the system output, so you still hear the audio.\n  3. Set audio.device to {\"type\": \"name\", \"name\": \"BlackHole\"}, or leave it on default and it will be found.\nThe program also needs microphone permission the first time it records, which macOS asks for on the first run."
}

/// The heading of the device listing.
pub open spec fn listing_heading() -> Seq<char> {
    "--- Capture devices (usable in audio.device) ---"@
}

/// The advice under the device listing.
pub open spec fn listing_advice() -> Seq<char> {
    "Pick one marked [system output]; that is what carries what you hear."@
}

/// The lines printed for `--list-devices`: the listing with its heading and advice, plus the
/// platform's help when nothing carries the system's output; or why the devices could not be
/// listed.
pub open spec fn device_report(found: Result<(Vec<String>, Option<usize>), String>, hints: Seq<&str>, help: Seq<char>) -> Seq<Seq<char>> {
    match found {
        Err(e) => seq!["Could not list the audio devices: "@ + e@],
        Ok((names, d)) => {
            let base = seq![listing_heading(), device_listing(names@, hints, d), Seq::empty(), listing_advice()];
            if any_loopback(names@, hints) {
                base
            } else {
                base.push(help)
            }
        },
    }
}

/// The lines `--list-devices` prints, from what device enumeration found (the names and the
/// position of the default input) or why it failed.
pub fn list_devices(found: Result<(Vec<String>, Option<usize>), String>, hints: &[&str], help: &str) -> (lines: Vec<String>)
    ensures
        appended_texts(Seq::empty(), lines@, device_report(found, hints@, help@)),
{
    let mut lines: Vec<String> = Vec::new();
    match found {
        Err(e) => {
            let mut m = String::from_str("Could not list the audio devices: ");
            push_str(&mut m, e.as_str());
            lines.push(m);
        },
        Ok((names, d)) => {
            lines.push(String::from_str("--- Capture devices (usable in audio.device) ---"));
            lines.push(describe_devices(names.as_slice(), hints, d));
            lines.push(String::new());
            lines.push(String::from_str("Pick one marked [system output]; that is what carries what you hear."));
            if !has_loopback(names.as_slice(), hints) {
                lines.push(String::from_str(help));
            }
        },
    }
    assert(lines@.subrange(0, 0) =~= Seq::<String>::empty());
    lines
}

/// What picking the capture device prints and comes to: the index to open, or the error.
pub struct PickOutcome {
    pub printed: Vec<String>,
    pub chosen: Result<usize, String>,
}

/// What opening the capture device prints and comes to for each way the choice can go: no
/// devices is an error with the platform's help; no match prints the listing and names what was
/// asked for; a fall-back to a plain input warns and prints the help; otherwise the device is
/// opened silently.
pub open spec fn pick_report(names: Seq<String>, sel: AudioDeviceSelector, hints: Seq<&str>, default_index: Option<usize>, help: Seq<char>) -> (Seq<Seq<char>>, Result<usize, Seq<char>>) {
    match choice(names, sel, hints, default_index) {
        Err(SelectError::NoDevices) => (Seq::empty(), Err("no capture devices found. "@ + help)),
        Err(SelectError::NoMatch { wanted }) => (
            seq![listing_heading(), device_listing(names, hints, default_index)],
            Err("no capture device matched "@ + debug_quoted(wanted@)),
        ),
        Ok(sel) => if sel.fell_back_to_input {
            (
                seq![
                    "Warn: no capture device looks like the system's output, falling back to "@ + debug_quoted(names[sel.index as int]@)
                        + ", which is probably a microphone."@,
                    help,
                ],
                Ok(sel.index),
            )
        } else {
            (Seq::empty(), Ok(sel.index))
        },
    }
}

/// Lemma: a successful choice names one of the devices.
proof fn lemma_choice_in_range(names: Seq<String>, sel: AudioDeviceSelector, hints: Seq<&str>, default_index: Option<usize>)
    ensures
        choice(names, sel, hints, default_index) matches Ok(s) ==> s.index < names.len(),
{
    if names.len() > 0 {
        match sel {
            AudioDeviceSelector::Id { id } => {
                lemma_first_name_in_range(names, |t: Seq<char>| t == id@);
                lemma_first_name_in_range(names, |t: Seq<char>| eq_ignore_ascii_case(t, id@));
            },
            AudioDeviceSelector::Name { name } => {
                lemma_first_name_in_range(names, |t: Seq<char>| contains_seq(lowercase_of(t), lowercase_of(name@)));
            },
            AudioDeviceSelector::Default => {
                lemma_first_name_in_range(names, |t: Seq<char>| loopback_name(t, hints));
            },
        }
    }
}

/// A position satisfying a test has a first one at or before it.
proof fn lemma_first_exists(names: Seq<String>, p: spec_fn(Seq<char>) -> bool, k: int)
    requires
        0 <= k < names.len(),
        p(names[k]@),
    ensures
        exists|c: int| 0 <= c < names.len() && #[trigger] p(names[c]@) && forall|j: int| 0 <= j < c ==> !p(#[trigger] names[j]@),
    decreases k,
{
    if exists|j: int| 0 <= j < k && #[trigger] p(names[j]@) {
        let j = choose|j: int| 0 <= j < k && #[trigger] p(names[j]@);
        lemma_first_exists(names, p, j);
    } else {
        assert(forall|j: int| 0 <= j < k ==> !p(#[trigger] names[j]@));
    }
}

/// The first position satisfying a test is a position.
proof fn lemma_first_name_in_range(names: Seq<String>, p: spec_fn(Seq<char>) -> bool)
    ensures
        first_name(names, p) matches Some(k) ==> k < names.len(),
{
    if exists|k: int| 0 <= k < names.len() && #[trigger] p(names[k]@) {
        let k = choose|k: int| 0 <= k < names.len() && #[trigger] p(names[k]@);
        lemma_first_exists(names, p, k);
    }
}

/// Picks the capture device to open, with what is printed on the way.
#[verifier::spinoff_prover]
#[verifier::rlimit(40)]
pub fn pick_device(names: &[String], sel: &AudioDeviceSelector, hints: &[&str], default_index: Option<usize>, help: &str) -> (r: PickOutcome)
    ensures
        appended_texts(Seq::empty(), r.printed@, pick_report(names@, *sel, hints@, default_index, help@).0),
        match pick_report(names@, *sel, hints@, default_index, help@).1 {
            Ok(i) => r.chosen == Ok::<usize, String>(i),
            Err(m) => r.chosen is Err && r.chosen->Err_0@ == m,
        },
{
    let mut printed: Vec<String> = Vec::new();
    proof {
        lemma_choice_in_range(names@, *sel, hints@, default_index);
    }
    let picked = choose_device(names, sel, hints, default_index);
    let chosen = match picked {
        Err(SelectError::NoDevices) => {
            let mut m = String::from_str("no capture devices found. ");
            push_str(&mut m, help);
            Err(m)
        },
        Err(SelectError::NoMatch { wanted }) => {
            printed.push(String::from_str("--- Capture devices (usable in audio.device) ---"));
            printed.push(describe_devices(names, hints, default_index));
            let mut m = String::from_str("no capture device matched ");
            let q = debug_string(wanted.as_str());
            push_str(&mut m, q.as_str());
            Err(m)
        },
        Ok(p) => {
            if p.fell_back_to_input {
                let mut w = String::from_str("Warn: no capture device looks like the system's output, falling back to ");
                let q = debug_string(names[p.index].as_str());
                push_str(&mut w, q.as_str());
                push_str(&mut w, ", which is probably a microphone.");
                printed.push(w);
                printed.push(String::from_str(help));
            }
            Ok(p.index)
        },
    };
    assert(printed@.subrange(0, 0) =~= Seq::<String>::empty());
    PickOutcome { printed, chosen }
}

} // verus!
