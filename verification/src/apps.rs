//! Per-application capture on Windows, as far as it is decisions: which running processes an app
//! pattern names, which processes get captured, and how the applications with audio sessions are
//! listed. The process table and the audio sessions themselves come from the system.
use vstd::prelude::*;
use vstd::string::*;
use std::collections::{HashMap, HashSet};
use crate::capture::AppInfo;
use crate::config::{AppMatchMode, AppPatterns, group_active, group_is_active};
use crate::text::{
    contains_seq, ends_with_seq, lowercase_of, trimmed, chars_of, contains_chars, chars_eq, to_lowercase, trim_chars,
    string_of, push_char, ends_with_chars, decimal, push_decimal, push_str,
};

verus! {

broadcast use vstd::std_specs::hash::group_hash_axioms;

/// A running process: its id, its parent's id, its executable (`chrome.exe`) and the name the
/// volume mixer shows (`Google Chrome`).
#[derive(Debug)]
pub struct ProcEntry {
    pub pid: u32,
    pub parent: u32,
    pub exe: String,
    pub display: String,
}

/// `s` without a trailing `suffix`, when it has one.
pub open spec fn without_suffix(s: Seq<char>, suffix: Seq<char>) -> Seq<char> {
    if ends_with_seq(s, suffix) {
        s.take(s.len() - suffix.len())
    } else {
        s
    }
}

/// Whether an app pattern names a process: the trimmed, lowercase pattern is not empty and is the
/// lowercase executable name, with or without `.exe`, or occurs in the lowercase display name.
pub open spec fn pattern_names(pattern: Seq<char>, exe: Seq<char>, display: Seq<char>) -> bool {
    let p = lowercase_of(trimmed(pattern));
    let e = lowercase_of(exe);
    &&& p.len() > 0
    &&& (e == p || without_suffix(e, ".exe"@) == p || contains_seq(lowercase_of(display), p))
}

/// Law: a pattern names a process exactly when, trimmed and lowercased, it is not empty and is
/// the lowercased executable name (`chrome.exe`), or that name without its `.exe` (`chrome`), or
/// occurs in the lowercased name the volume mixer shows.
pub proof fn lemma_pattern_names_exe_or_stem_or_display(pattern: Seq<char>, exe: Seq<char>, display: Seq<char>)
    ensures
        pattern_names(pattern, exe, display) <==> ({
            let p = lowercase_of(trimmed(pattern));
            let e = lowercase_of(exe);
            &&& p.len() > 0
            &&& (e == p || e == p + ".exe"@ || contains_seq(lowercase_of(display), p))
        }),
{
    let p = lowercase_of(trimmed(pattern));
    let e = lowercase_of(exe);
    let x = ".exe"@;
    if e == p + x {
        assert(e.subrange(e.len() - x.len(), e.len() as int) =~= x);
        assert(e.take(e.len() - x.len()) =~= p);
    }
    if ends_with_seq(e, x) && without_suffix(e, x) == p {
        assert(e =~= p + x);
    }
}

/// `v` without a trailing `suffix`, when it has one.
fn strip_suffix_chars(v: &Vec<char>, suffix: &Vec<char>) -> (r: Vec<char>)
    ensures
        r@ == without_suffix(v@, suffix@),
{
    let keep: usize = if ends_with_chars(v, suffix) {
        v.len() - suffix.len()
    } else {
        v.len()
    };
    let mut r: Vec<char> = Vec::new();
    let mut k: usize = 0;
    while k < keep
        invariant
            keep <= v@.len(),
            k <= keep,
            r@ == v@.take(k as int),
        decreases keep - k,
    {
        r.push(v[k]);
        k = k + 1;
        assert(r@ =~= v@.take(k as int));
    }
    assert(v@.take(v@.len() as int) =~= v@);
    r
}

/// Whether an app pattern names a process.
pub fn matches_pattern(pattern: &str, proc: &ProcEntry) -> (b: bool)
    ensures
        b == pattern_names(pattern@, proc.exe@, proc.display@),
{
    let raw = chars_of(pattern);
    let t = trim_chars(&raw);
    let ts = string_of(&t);
    let lp = to_lowercase(ts.as_str());
    let p = chars_of(lp.as_str());
    if p.len() == 0 {
        return false;
    }
    let le = to_lowercase(proc.exe.as_str());
    let e = chars_of(le.as_str());
    if chars_eq(&e, &p) {
        return true;
    }
    let dot_exe = chars_of(".exe");
    let stem = strip_suffix_chars(&e, &dot_exe);
    if chars_eq(&stem, &p) {
        return true;
    }
    let ld = to_lowercase(proc.display.as_str());
    let d = chars_of(ld.as_str());
    contains_chars(&d, &p)
}

/// Whether one of a group's patterns names a process.
pub open spec fn group_names(patterns: Seq<String>, exe: Seq<char>, display: Seq<char>) -> bool {
    exists|i: int| 0 <= i < patterns.len() && pattern_names(#[trigger] patterns[i]@, exe, display)
}

/// Whether one of a group's patterns names a process.
pub fn matches_group(patterns: &Vec<String>, proc: &ProcEntry) -> (b: bool)
    ensures
        b == group_names(patterns@, proc.exe@, proc.display@),
{
    let mut i: usize = 0;
    while i < patterns.len()
        invariant
            i <= patterns@.len(),
            forall|k: int| 0 <= k < i ==> !pattern_names(#[trigger] patterns@[k]@, proc.exe@, proc.display@),
        decreases patterns@.len() - i,
    {
        if matches_pattern(patterns[i].as_str(), proc) {
            return true;
        }
        i = i + 1;
    }
    false
}

/// Whether one of the first `steps` ancestors of `pid` is in `set`. The walk stops at a process
/// without a known parent, at parent 0 and at a process that is its own parent.
pub open spec fn ancestor_in(pid: u32, set: Set<u32>, parents: Map<u32, u32>, steps: nat) -> bool
    decreases steps,
{
    if steps == 0 || !parents.contains_key(pid) {
        false
    } else {
        let p = parents[pid];
        if p == 0 || p == pid {
            false
        } else if set.contains(p) {
            true
        } else {
            ancestor_in(p, set, parents, (steps - 1) as nat)
        }
    }
}

/// Whether a process descends from one in `set`, looking at most 64 generations up.
pub fn has_ancestor_in(pid: u32, set: &HashSet<u32>, parents: &HashMap<u32, u32>) -> (b: bool)
    ensures
        b == ancestor_in(pid, set@, parents@, 64),
{
    let mut current = pid;
    let mut step: usize = 0;
    while step < 64
        invariant
            step <= 64,
            ancestor_in(pid, set@, parents@, 64) == ancestor_in(current, set@, parents@, (64 - step) as nat),
        decreases 64 - step,
    {
        let parent = match parents.get(&current) {
            Some(p) => *p,
            None => {
                return false;
            },
        };
        if parent == 0 || parent == current {
            return false;
        }
        if set.contains(&parent) {
            return true;
        }
        current = parent;
        step = step + 1;
    }
    false
}

/// The audio sessions found so far after one more: a process already listed becomes playing when
/// this session plays, a new one is added at the end.
pub open spec fn with_session(sessions: Seq<(u32, bool)>, pid: u32, playing: bool) -> Seq<(u32, bool)> {
    if exists|i: int| 0 <= i < sessions.len() && (#[trigger] sessions[i]).0 == pid {
        let i = choose|i: int| 0 <= i < sessions.len() && (#[trigger] sessions[i]).0 == pid && forall|j: int|
            0 <= j < i ==> (#[trigger] sessions[j]).0 != pid;
        sessions.update(i, (pid, sessions[i].1 || playing))
    } else {
        sessions.push((pid, playing))
    }
}

/// Records one audio session of a process.
pub fn add_session(sessions: &mut Vec<(u32, bool)>, pid: u32, playing: bool)
    ensures
        final(sessions)@ == with_session(old(sessions)@, pid, playing),
{
    let mut i: usize = 0;
    while i < sessions.len()
        invariant
            i <= sessions@.len(),
            sessions@ == old(sessions)@,
            forall|j: int| 0 <= j < i ==> (#[trigger] sessions@[j]).0 != pid,
        decreases sessions@.len() - i,
    {
        if sessions[i].0 == pid {
            let was = sessions[i].1;
            proof {
                let c = choose|c: int| 0 <= c < sessions@.len() && (#[trigger] sessions@[c]).0 == pid && forall|j: int|
                    0 <= j < c ==> (#[trigger] sessions@[j]).0 != pid;
                assert(0 <= i < sessions@.len() && sessions@[i as int].0 == pid);
                if c < i {
                    assert(sessions@[c].0 != pid);
                }
                if i < c {
                    assert(sessions@[i as int].0 != pid);
                }
            }
            sessions.set(i, (pid, was || playing));
            return;
        }
        i = i + 1;
    }
    sessions.push((pid, playing));
}

/// The first process in the table with id `pid`.
pub open spec fn proc_position(table: Seq<ProcEntry>, pid: u32, from: nat) -> Option<nat>
    decreases table.len() - from,
{
    if from >= table.len() {
        None
    } else if table[from as int].pid == pid {
        Some(from)
    } else {
        proc_position(table, pid, from + 1)
    }
}

/// The first process in the table with id `pid`.
fn find_proc(table: &Vec<ProcEntry>, pid: u32) -> (r: Option<usize>)
    ensures
        match r {
            Some(k) => k < table@.len() && proc_position(table@, pid, 0) == Some(k as nat),
            None => proc_position(table@, pid, 0) is None,
        },
{
    let mut i: usize = 0;
    while i < table.len()
        invariant
            i <= table@.len(),
            proc_position(table@, pid, 0) == proc_position(table@, pid, i as nat),
        decreases table@.len() - i,
    {
        if table[i].pid == pid {
            return Some(i);
        }
        i = i + 1;
    }
    None
}

/// What the settings window lists for one session, if anything: the system sounds for process 0,
/// the process as the table knows it, or nothing for a process that is already gone.
pub open spec fn session_app(table: Seq<ProcEntry>, pid: u32, playing: bool) -> Option<(u32, Seq<char>, Seq<char>, bool)> {
    if pid == 0 {
        Some((0u32, "-"@, "System sounds (cannot be captured)"@, playing))
    } else {
        match proc_position(table, pid, 0) {
            Some(k) => Some((pid, table[k as int].exe@, table[k as int].display@, playing)),
            None => None,
        }
    }
}

/// The listing of the first `n` sessions: each process once, in the order its first session
/// came, as `session_app` describes it.
pub open spec fn session_listing(table: Seq<ProcEntry>, sessions: Seq<(u32, bool)>, n: nat) -> Seq<(u32, Seq<char>, Seq<char>, bool)>
    decreases n,
{
    if n == 0 {
        Seq::empty()
    } else {
        let rest = session_listing(table, sessions, (n - 1) as nat);
        let (pid, playing) = sessions[n - 1];
        if exists|i: int| 0 <= i < rest.len() && (#[trigger] rest[i]).0 == pid {
            rest
        } else {
            match session_app(table, pid, playing) {
                Some(a) => rest.push(a),
                None => rest,
            }
        }
    }
}

/// The fields of each listed application.
pub open spec fn app_views(apps: Seq<AppInfo>) -> Seq<(u32, Seq<char>, Seq<char>, bool)> {
    apps.map_values(|a: AppInfo| (a.pid, a.exe@, a.display@, a.playing))
}

/// The applications with an audio session, from the process table and the sessions found.
pub fn session_apps(table: &Vec<ProcEntry>, sessions: &Vec<(u32, bool)>) -> (out: Vec<AppInfo>)
    ensures
        app_views(out@) == session_listing(table@, sessions@, sessions@.len()),
{
    let mut out: Vec<AppInfo> = Vec::new();
    let mut i: usize = 0;
    while i < sessions.len()
        invariant
            i <= sessions@.len(),
            app_views(out@) == session_listing(table@, sessions@, i as nat),
        decreases sessions@.len() - i,
    {
        let (pid, playing) = sessions[i];
        let ghost rest = app_views(out@);
        let mut seen = false;
        let mut k: usize = 0;
        while k < out.len()
            invariant
                k <= out@.len(),
                rest == app_views(out@),
                seen ==> exists|j: int| 0 <= j < rest.len() && (#[trigger] rest[j]).0 == pid,
                !seen ==> forall|j: int| 0 <= j < k ==> (#[trigger] rest[j]).0 != pid,
            decreases out@.len() - k,
        {
            if out[k].pid == pid {
                assert(rest[k as int].0 == pid);
                seen = true;
            }
            k = k + 1;
        }
        if !seen {
            if pid == 0 {
                out.push(
                    AppInfo {
                        pid,
                        exe: String::from_str("-"),
                        display: String::from_str("System sounds (cannot be captured)"),
                        playing,
                    },
                );
            } else {
                match find_proc(table, pid) {
                    Some(p) => {
                        out.push(
                            AppInfo {
                                pid,
                                exe: table[p].exe.clone(),
                                display: table[p].display.clone(),
                                playing,
                            },
                        );
                    },
                    None => {},
                }
            }
        }
        proof {
            assert(app_views(out@) =~= session_listing(table@, sessions@, (i + 1) as nat));
        }
        i = i + 1;
    }
    out
}

/// The name shown for a process whose file carries no description: the executable name without
/// `.exe` (or `.EXE`).
pub open spec fn exe_stem(exe: Seq<char>) -> Seq<char> {
    if ends_with_seq(exe, ".exe"@) {
        without_suffix(exe, ".exe"@)
    } else {
        without_suffix(exe, ".EXE"@)
    }
}

/// The name a process is shown by: its file description when it has a non-empty one, else its
/// executable name without the extension.
pub fn display_name(exe: &str, description: Option<String>) -> (s: String)
    ensures
        s@ == match description {
            Some(d) => if d@.len() > 0 {
                d@
            } else {
                exe_stem(exe@)
            },
            None => exe_stem(exe@),
        },
{
    if let Some(d) = description {
        if d.as_str().unicode_len() > 0 {
            return d;
        }
    }
    let e = chars_of(exe);
    let lower = chars_of(".exe");
    let upper = chars_of(".EXE");
    proof {
        reveal_strlit(".exe");
        reveal_strlit(".EXE");
    }
    let a = strip_suffix_chars(&e, &lower);
    if a.len() < e.len() {
        return string_of(&a);
    }
    let b = strip_suffix_chars(&e, &upper);
    string_of(&b)
}

/// The lowercase hex digit for a value below sixteen.
pub open spec fn hex_lower(v: int) -> char {
    if v < 10 {
        (('0' as int) + v) as char
    } else {
        (('a' as int) + v - 10) as char
    }
}

/// A 16-bit number as four lowercase hex digits, as `{:04x}` writes it.
pub open spec fn hex4(n: u16) -> Seq<char> {
    seq![
        hex_lower((n as int / 4096) % 16),
        hex_lower((n as int / 256) % 16),
        hex_lower((n as int / 16) % 16),
        hex_lower(n as int % 16),
    ]
}

/// The lowercase hex digit for a value below sixteen.
fn hex_lower_char(v: u16) -> (c: char)
    requires
        v < 16,
    ensures
        c == hex_lower(v as int),
{
    if v < 10 {
        ((48u16 + v) as u8) as char
    } else {
        ((87u16 + v) as u8) as char
    }
}

/// The version-resource key under which a file's description is kept for one language and code
/// page: `\StringFileInfo\` followed by both as four lowercase hex digits, then
/// `\FileDescription`.
pub fn description_key(language: u16, codepage: u16) -> (s: String)
    ensures
        s@ == "\\StringFileInfo\\"@ + hex4(language) + hex4(codepage) + "\\FileDescription"@,
{
    let mut s = String::from_str("\\StringFileInfo\\");
    let parts = [language, codepage];
    let mut k: usize = 0;
    while k < 2
        invariant
            k <= 2,
            parts@ == seq![language, codepage],
            s@ == "\\StringFileInfo\\"@ + (if k == 0 {
                Seq::<char>::empty()
            } else if k == 1 {
                hex4(language)
            } else {
                hex4(language) + hex4(codepage)
            }),
        decreases 2 - k,
    {
        let n = parts[k];
        push_char(&mut s, hex_lower_char((n / 4096) % 16));
        push_char(&mut s, hex_lower_char((n / 256) % 16));
        push_char(&mut s, hex_lower_char((n / 16) % 16));
        push_char(&mut s, hex_lower_char(n % 16));
        k = k + 1;
        assert(s@ =~= "\\StringFileInfo\\"@ + (if k == 0 {
            Seq::<char>::empty()
        } else if k == 1 {
            hex4(language)
        } else {
            hex4(language) + hex4(codepage)
        }));
    }
    push_str(&mut s, "\\FileDescription");
    s
}

/// UTF-16 units decoded as `String::from_utf16_lossy` decodes them: a unit outside the
/// surrogate range is its own character, a high surrogate followed by a low one is the character
/// the pair encodes, and any other surrogate becomes U+FFFD.
pub open spec fn utf16_decoded(units: Seq<u16>) -> Seq<char>
    decreases units.len(),
{
    if units.len() == 0 {
        Seq::empty()
    } else if units[0] < 0xD800 || units[0] > 0xDFFF {
        seq![units[0] as char] + utf16_decoded(units.drop_first())
    } else if units[0] <= 0xDBFF && units.len() >= 2 && 0xDC00 <= units[1] <= 0xDFFF {
        seq![(0x10000 + (units[0] - 0xD800) * 0x400 + (units[1] - 0xDC00)) as char]
            + utf16_decoded(units.subrange(2, units.len() as int))
    } else {
        seq!['\u{FFFD}'] + utf16_decoded(units.drop_first())
    }
}

/// The UTF-16 units of one character: the code point itself below U+10000, else a surrogate
/// pair, high half first.
pub open spec fn utf16_units(c: char) -> Seq<u16> {
    let v = c as int;
    if v < 0x10000 {
        seq![v as u16]
    } else {
        seq![(0xD800 + (v - 0x10000) / 0x400) as u16, (0xDC00 + (v - 0x10000) % 0x400) as u16]
    }
}

/// A text in UTF-16: the units of each character in turn.
pub open spec fn utf16_encoded(s: Seq<char>) -> Seq<u16>
    decreases s.len(),
{
    if s.len() == 0 {
        Seq::empty()
    } else {
        utf16_encoded(s.drop_last()) + utf16_units(s.last())
    }
}

/// Decodes UTF-16 units with `String::from_utf16_lossy`, which std documents as UTF-16 decoding
/// with each invalid unit replaced by U+FFFD.
#[verifier::external_body]
fn from_utf16_lossy(units: &[u16]) -> (s: String)
    ensures
        s@ == utf16_decoded(units@),
{
    String::from_utf16_lossy(units)
}

/// Encodes a text as UTF-16 units with `str::encode_utf16`, which std documents as the text's
/// UTF-16 encoding: one unit per character below U+10000, a surrogate pair for the others.
#[verifier::external_body]
fn encode_utf16(s: &str) -> (v: Vec<u16>)
    ensures
        v@ == utf16_encoded(s@),
{
    s.encode_utf16().collect()
}

/// A text as the null-terminated UTF-16 the Windows API takes.
pub fn wide(s: &str) -> (v: Vec<u16>)
    ensures
        v@ == utf16_encoded(s@).push(0u16),
{
    let mut v = encode_utf16(s);
    v.push(0u16);
    v
}

/// The units before the first zero, or all of them.
pub open spec fn before_nul(units: Seq<u16>, i: nat) -> nat
    decreases units.len() - i,
{
    if i >= units.len() {
        units.len()
    } else if units[i as int] == 0 {
        i
    } else {
        before_nul(units, i + 1)
    }
}

/// A null-terminated UTF-16 buffer as text: the units before the first zero, decoded, trimmed.
pub fn wide_to_string(units: &[u16]) -> (s: String)
    ensures
        s@ == trimmed(utf16_decoded(units@.take(before_nul(units@, 0) as int))),
{
    let mut end: usize = 0;
    while end < units.len() && units[end] != 0
        invariant
            end <= units@.len(),
            before_nul(units@, 0) == before_nul(units@, end as nat),
        decreases units@.len() - end,
    {
        end = end + 1;
    }
    let mut head: Vec<u16> = Vec::new();
    let mut k: usize = 0;
    while k < end
        invariant
            end <= units@.len(),
            k <= end,
            head@ == units@.take(k as int),
        decreases end - k,
    {
        head.push(units[k]);
        k = k + 1;
        assert(head@ =~= units@.take(k as int));
    }
    let decoded = from_utf16_lossy(head.as_slice());
    let c = chars_of(decoded.as_str());
    let t = trim_chars(&c);
    string_of(&t)
}

/// Which process is the parent of which, as the process table says; a process listed twice
/// counts with its later entry.
pub open spec fn parent_map(table: Seq<ProcEntry>) -> Map<u32, u32>
    decreases table.len(),
{
    if table.len() == 0 {
        Map::empty()
    } else {
        parent_map(table.drop_last()).insert(table.last().pid, table.last().parent)
    }
}

/// The parents of the processes in the table.
pub fn parents_of(table: &Vec<ProcEntry>) -> (m: HashMap<u32, u32>)
    ensures
        m@ == parent_map(table@),
{
    let mut m: HashMap<u32, u32> = HashMap::new();
    let mut i: usize = 0;
    while i < table.len()
        invariant
            i <= table@.len(),
            m@ == parent_map(table@.take(i as int)),
        decreases table@.len() - i,
    {
        m.insert(table[i].pid, table[i].parent);
        proof {
            assert(table@.take(i + 1).drop_last() =~= table@.take(i as int));
        }
        i = i + 1;
    }
    assert(table@.take(table@.len() as int) =~= table@);
    m
}

/// The processes a group's patterns name.
pub open spec fn named_by(table: Seq<ProcEntry>, patterns: Seq<String>) -> Set<u32> {
    Set::new(
        |pid: u32|
            exists|i: int|
                0 <= i < table.len() && (#[trigger] table[i]).pid == pid && group_names(patterns, table[i].exe@, table[i].display@),
    )
}

/// The processes a group's patterns name.
fn named_pids(table: &Vec<ProcEntry>, patterns: &Vec<String>) -> (s: HashSet<u32>)
    ensures
        s@ == named_by(table@, patterns@),
{
    let mut s: HashSet<u32> = HashSet::new();
    let mut i: usize = 0;
    while i < table.len()
        invariant
            i <= table@.len(),
            s@ == Set::new(
                |pid: u32|
                    exists|k: int|
                        0 <= k < i && (#[trigger] table@[k]).pid == pid && group_names(patterns@, table@[k].exe@, table@[k].display@),
            ),
        decreases table@.len() - i,
    {
        if matches_group(patterns, &table[i]) {
            s.insert(table[i].pid);
        }
        i = i + 1;
        proof {
            assert(s@ =~= Set::new(
                |pid: u32|
                    exists|k: int|
                        0 <= k < i && (#[trigger] table@[k]).pid == pid && group_names(patterns@, table@[k].exe@, table@[k].display@),
            ));
        }
    }
    assert(s@ =~= named_by(table@, patterns@));
    s
}

/// A picked process as plain values: id, label, and the group whose gain applies.
pub type TargetView = (u32, Seq<char>, Option<usize>);

/// Adds a pick unless the process is picked already.
pub open spec fn add_target(ts: Seq<TargetView>, t: TargetView) -> Seq<TargetView> {
    if exists|i: int| 0 <= i < ts.len() && (#[trigger] ts[i]).0 == t.0 {
        ts
    } else {
        ts.push(t)
    }
}

/// Whether a process is picked for a group in include mode: not process 0, not this program,
/// and named by the group or, when child processes count, descended from one that is.
pub open spec fn included(pid: u32, own: u32, named: Set<u32>, tree: bool, parents: Map<u32, u32>) -> bool {
    &&& pid != 0
    &&& pid != own
    &&& (named.contains(pid) || (tree && ancestor_in(pid, named, parents, 64)))
}

/// The picks after the first `n` processes of the table were held against group `g`.
pub open spec fn include_pass(ts: Seq<TargetView>, table: Seq<ProcEntry>, g: usize, named: Set<u32>, tree: bool, own: u32, parents: Map<u32, u32>, n: nat) -> Seq<TargetView>
    decreases n,
{
    if n == 0 {
        ts
    } else {
        let before = include_pass(ts, table, g, named, tree, own, parents, (n - 1) as nat);
        let p = table[n - 1];
        if included(p.pid, own, named, tree, parents) {
            add_target(before, (p.pid, p.display@, Some(g)))
        } else {
            before
        }
    }
}

/// The picks in include mode after the first `k` groups: each active group in turn picks from
/// the whole table.
pub open spec fn include_targets(groups: Seq<AppPatterns>, table: Seq<ProcEntry>, tree: bool, own: u32, k: nat) -> Seq<TargetView>
    decreases k,
{
    if k == 0 {
        Seq::empty()
    } else {
        let before = include_targets(groups, table, tree, own, (k - 1) as nat);
        let g = groups[k - 1];
        if group_active(g.enabled, g.apps@) {
            include_pass(
                before,
                table,
                (k - 1) as usize,
                named_by(table, g.apps@),
                tree,
                own,
                parent_map(table),
                table.len(),
            )
        } else {
            before
        }
    }
}

/// The processes any active group names.
pub open spec fn excluded_by(groups: Seq<AppPatterns>, table: Seq<ProcEntry>) -> Set<u32> {
    Set::new(
        |pid: u32|
            exists|g: int|
                0 <= g < groups.len() && group_active(groups[g].enabled, groups[g].apps@) && #[trigger] named_by(
                    table,
                    groups[g].apps@,
                ).contains(pid),
    )
}

/// The label a process is logged by: its name in the table, or `pid <n>` when it is not there.
pub open spec fn label_of(table: Seq<ProcEntry>, pid: u32) -> Seq<char> {
    match proc_position(table, pid, 0) {
        Some(k) => table[k as int].display@,
        None => "pid "@ + decimal(pid as nat),
    }
}

/// The picks in exclude mode after the first `n` sessions: every session's process except
/// process 0, this program, and the processes an active group names and their descendants.
pub open spec fn exclude_targets(sessions: Seq<(u32, bool)>, table: Seq<ProcEntry>, excluded: Set<u32>, own: u32, n: nat) -> Seq<TargetView>
    decreases n,
{
    if n == 0 {
        Seq::empty()
    } else {
        let before = exclude_targets(sessions, table, excluded, own, (n - 1) as nat);
        let pid = sessions[n - 1].0;
        if pid == 0 || pid == own || excluded.contains(pid) || ancestor_in(pid, excluded, parent_map(table), 64) {
            before
        } else {
            add_target(before, (pid, label_of(table, pid), None))
        }
    }
}

/// A process picked for capture: its id, the label logged for it, and the position of the group
/// that picked it, whose gain applies; `None` when it was picked by exclusion and plays at full
/// gain.
#[derive(Debug)]
pub struct TargetPick {
    pub pid: u32,
    pub label: String,
    pub group: Option<usize>,
}

/// The picks as plain values.
pub open spec fn pick_views(ts: Seq<TargetPick>) -> Seq<TargetView> {
    ts.map_values(|t: TargetPick| (t.pid, t.label@, t.group))
}

/// Adds a pick unless the process is picked already.
fn push_target(targets: &mut Vec<TargetPick>, t: TargetPick)
    ensures
        pick_views(final(targets)@) == add_target(pick_views(old(targets)@), (t.pid, t.label@, t.group)),
{
    let ghost before = pick_views(targets@);
    let mut i: usize = 0;
    while i < targets.len()
        invariant
            i <= targets@.len(),
            targets@ == old(targets)@,
            before == pick_views(targets@),
            forall|j: int| 0 <= j < i ==> (#[trigger] before[j]).0 != t.pid,
        decreases targets@.len() - i,
    {
        if targets[i].pid == t.pid {
            assert(before[i as int].0 == t.pid);
            return;
        }
        i = i + 1;
    }
    targets.push(t);
    assert(pick_views(targets@) =~= before.push((t.pid, t.label@, t.group)));
}

/// The label a process is logged by.
fn label_for(table: &Vec<ProcEntry>, pid: u32) -> (s: String)
    ensures
        s@ == label_of(table@, pid),
{
    match find_proc(table, pid) {
        Some(k) => table[k].display.clone(),
        None => {
            let mut s = String::from_str("pid ");
            push_decimal(&mut s, pid as u64);
            s
        },
    }
}

/// Picks the processes per-app capture records. In include mode each active group picks, in
/// group order, the processes it names (and with `tree`, their descendants), from the process
/// table; in exclude mode every process with an audio session is picked but those an active
/// group names and their descendants. Process 0 and this program (`own`) are never picked, and
/// no process twice. `sessions` is only read in exclude mode.
pub fn resolve_targets(mode: AppMatchMode, tree: bool, groups: &Vec<AppPatterns>, table: &Vec<ProcEntry>, sessions: &Vec<(u32, bool)>, own: u32) -> (out: Vec<TargetPick>)
    ensures
        pick_views(out@) == match mode {
            AppMatchMode::Include => include_targets(groups@, table@, tree, own, groups@.len()),
            AppMatchMode::Exclude => exclude_targets(sessions@, table@, excluded_by(groups@, table@), own, sessions@.len()),
        },
{
    let parents = parents_of(table);
    let mut targets: Vec<TargetPick> = Vec::new();
    match mode {
        AppMatchMode::Include => {
            let mut k: usize = 0;
            while k < groups.len()
                invariant
                    k <= groups@.len(),
                    parents@ == parent_map(table@),
                    pick_views(targets@) == include_targets(groups@, table@, tree, own, k as nat),
                decreases groups@.len() - k,
            {
                if group_is_active(&groups[k]) {
                    let named = named_pids(table, &groups[k].apps);
                    let ghost start = pick_views(targets@);
                    let mut i: usize = 0;
                    while i < table.len()
                        invariant
                            k < groups@.len(),
                            i <= table@.len(),
                            parents@ == parent_map(table@),
                            named@ == named_by(table@, groups@[k as int].apps@),
                            pick_views(targets@) == include_pass(start, table@, k, named@, tree, own, parents@, i as nat),
                        decreases table@.len() - i,
                    {
                        let pid = table[i].pid;
                        if pid != 0 && pid != own && (named.contains(&pid) || (tree && has_ancestor_in(pid, &named, &parents))) {
                            let label = table[i].display.clone();
                            push_target(&mut targets, TargetPick { pid, label, group: Some(k) });
                        }
                        i = i + 1;
                    }
                }
                k = k + 1;
            }
        },
        AppMatchMode::Exclude => {
            let mut excluded: HashSet<u32> = HashSet::new();
            let mut k: usize = 0;
            while k < groups.len()
                invariant
                    k <= groups@.len(),
                    excluded@ == Set::new(
                        |pid: u32|
                            exists|g: int|
                                0 <= g < k && group_active(groups@[g].enabled, groups@[g].apps@) && #[trigger] named_by(
                                    table@,
                                    groups@[g].apps@,
                                ).contains(pid),
                    ),
                decreases groups@.len() - k,
            {
                let ghost before = excluded@;
                if group_is_active(&groups[k]) {
                    let mut i: usize = 0;
                    while i < table.len()
                        invariant
                            k < groups@.len(),
                            i <= table@.len(),
                            excluded@ == before.union(
                                Set::new(
                                    |pid: u32|
                                        exists|j: int|
                                            0 <= j < i && (#[trigger] table@[j]).pid == pid && group_names(
                                                groups@[k as int].apps@,
                                                table@[j].exe@,
                                                table@[j].display@,
                                            ),
                                ),
                            ),
                        decreases table@.len() - i,
                    {
                        if matches_group(&groups[k].apps, &table[i]) {
                            excluded.insert(table[i].pid);
                        }
                        i = i + 1;
                        proof {
                            assert(excluded@ =~= before.union(
                                Set::new(
                                    |pid: u32|
                                        exists|j: int|
                                            0 <= j < i && (#[trigger] table@[j]).pid == pid && group_names(
                                                groups@[k as int].apps@,
                                                table@[j].exe@,
                                                table@[j].display@,
                                            ),
                                ),
                            ));
                        }
                    }
                    proof {
                        assert(Set::new(
                            |pid: u32|
                                exists|j: int|
                                    0 <= j < table@.len() && (#[trigger] table@[j]).pid == pid && group_names(
                                        groups@[k as int].apps@,
                                        table@[j].exe@,
                                        table@[j].display@,
                                    ),
                        ) =~= named_by(table@, groups@[k as int].apps@));
                    }
                }
                k = k + 1;
                proof {
                    assert(excluded@ =~= Set::new(
                        |pid: u32|
                            exists|g: int|
                                0 <= g < k && group_active(groups@[g].enabled, groups@[g].apps@) && #[trigger] named_by(
                                    table@,
                                    groups@[g].apps@,
                                ).contains(pid),
                    )) by {
                        assert forall|pid: u32| excluded@.contains(pid) implies exists|g: int|
                            0 <= g < k && group_active(groups@[g].enabled, groups@[g].apps@) && #[trigger] named_by(
                                table@,
                                groups@[g].apps@,
                            ).contains(pid) by {
                            if !before.contains(pid) {
                                assert(named_by(table@, groups@[k - 1].apps@).contains(pid));
                            }
                        }
                    }
                }
            }
            assert(excluded@ =~= excluded_by(groups@, table@));
            let mut n: usize = 0;
            while n < sessions.len()
                invariant
                    n <= sessions@.len(),
                    parents@ == parent_map(table@),
                    excluded@ == excluded_by(groups@, table@),
                    pick_views(targets@) == exclude_targets(sessions@, table@, excluded@, own, n as nat),
                decreases sessions@.len() - n,
            {
                let pid = sessions[n].0;
                if !(pid == 0 || pid == own || excluded.contains(&pid) || has_ancestor_in(pid, &excluded, &parents)) {
                    let label = label_for(table, pid);
                    push_target(&mut targets, TargetPick { pid, label, group: None });
                }
                n = n + 1;
            }
        },
    }
    targets
}

} // verus!
