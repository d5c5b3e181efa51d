//! The addresses the network devices are reached at, built from what the config names.
use vstd::prelude::*;
use vstd::string::*;
use crate::text::{
    chars_of, string_of, starts_with_seq, ends_with_seq, starts_with_chars, ends_with_chars, trim_end_char, trim_end_char_chars,
    trimmed, trim_chars, push_chars,
};

verus! {

/// `s` with every leading copy of `p` removed, as `str::trim_start_matches` with a string.
pub open spec fn strip_all_prefix(s: Seq<char>, p: Seq<char>) -> Seq<char>
    decreases s.len(),
{
    if p.len() > 0 && starts_with_seq(s, p) {
        strip_all_prefix(s.skip(p.len() as int), p)
    } else {
        s
    }
}

/// `s` with every trailing copy of `p` removed, as `str::trim_end_matches` with a string.
pub open spec fn strip_all_suffix(s: Seq<char>, p: Seq<char>) -> Seq<char>
    decreases s.len(),
{
    if p.len() > 0 && ends_with_seq(s, p) {
        strip_all_suffix(s.take(s.len() - p.len()), p)
    } else {
        s
    }
}

/// The position of the first `c` at or after `i`, or the length when there is none.
pub open spec fn find_from(s: Seq<char>, c: char, i: nat) -> nat
    decreases s.len() - i,
{
    if i >= s.len() {
        s.len()
    } else if s[i as int] == c {
        i
    } else {
        find_from(s, c, i + 1)
    }
}

/// `v` with every leading copy of `p` removed.
pub fn strip_prefix_all(v: &Vec<char>, p: &Vec<char>) -> (r: Vec<char>)
    ensures
        r@ == strip_all_prefix(v@, p@),
{
    let mut cur: Vec<char> = copy_chars(v);
    if p.len() == 0 {
        return cur;
    }
    while starts_with_chars(&cur, p)
        invariant
            p@.len() > 0,
            strip_all_prefix(v@, p@) == strip_all_prefix(cur@, p@),
        decreases cur@.len(),
    {
        let mut next: Vec<char> = Vec::new();
        let mut k: usize = p.len();
        while k < cur.len()
            invariant
                p@.len() <= k <= cur@.len(),
                next@ == cur@.subrange(p@.len() as int, k as int),
            decreases cur@.len() - k,
        {
            next.push(cur[k]);
            k = k + 1;
            assert(next@ =~= cur@.subrange(p@.len() as int, k as int));
        }
        assert(next@ =~= cur@.skip(p@.len() as int));
        cur = next;
    }
    cur
}

/// `v` with every trailing copy of `p` removed.
pub fn strip_suffix_all(v: &Vec<char>, p: &Vec<char>) -> (r: Vec<char>)
    ensures
        r@ == strip_all_suffix(v@, p@),
{
    let mut cur: Vec<char> = copy_chars(v);
    if p.len() == 0 {
        return cur;
    }
    while ends_with_chars(&cur, p)
        invariant
            p@.len() > 0,
            strip_all_suffix(v@, p@) == strip_all_suffix(cur@, p@),
        decreases cur@.len(),
    {
        let mut next: Vec<char> = Vec::new();
        let keep = cur.len() - p.len();
        let mut k: usize = 0;
        while k < keep
            invariant
                keep <= cur@.len(),
                k <= keep,
                next@ == cur@.take(k as int),
            decreases keep - k,
        {
            next.push(cur[k]);
            k = k + 1;
            assert(next@ =~= cur@.take(k as int));
        }
        cur = next;
    }
    cur
}

/// A copy of `v`.
fn copy_chars(v: &Vec<char>) -> (r: Vec<char>)
    ensures
        r@ == v@,
{
    let mut r: Vec<char> = Vec::new();
    let mut i: usize = 0;
    while i < v.len()
        invariant
            i <= v@.len(),
            r@ == v@.take(i as int),
        decreases v@.len() - i,
    {
        r.push(v[i]);
        i = i + 1;
        assert(r@ =~= v@.take(i as int));
    }
    assert(r@ =~= v@);
    r
}

/// The base URL of a device: the host as written when it already names `http://` or `https://`,
/// otherwise behind `http://`; trailing slashes removed either way.
pub open spec fn base_of(host: Seq<char>) -> Seq<char> {
    if starts_with_seq(host, "http://"@) || starts_with_seq(host, "https://"@) {
        trim_end_char(host, '/')
    } else {
        "http://"@ + trim_end_char(host, '/')
    }
}

/// The base URL requests to a Shelly or WLED controller go to.
pub fn normalize_base(host: &str) -> (s: String)
    ensures
        s@ == base_of(host@),
{
    let h = chars_of(host);
    let http = chars_of("http://");
    let https = chars_of("https://");
    let trimmed_host = trim_end_char_chars(&h, '/');
    if starts_with_chars(&h, &http) || starts_with_chars(&h, &https) {
        string_of(&trimmed_host)
    } else {
        let mut s = String::from_str("http://");
        push_chars(&mut s, &trimmed_host);
        s
    }
}

/// The host part of what the config names: schemes in front, trailing slashes and any path
/// after the host dropped.
pub open spec fn host_of(host: Seq<char>) -> Seq<char> {
    let t = trim_end_char(strip_all_prefix(strip_all_prefix(host, "http://"@), "https://"@), '/');
    t.take(find_from(t, '/', 0) as int)
}

/// The host a UDP packet is addressed to.
pub fn host_only(host: &str) -> (s: String)
    ensures
        s@ == host_of(host@),
{
    let h = chars_of(host);
    let http = chars_of("http://");
    let https = chars_of("https://");
    let a = strip_prefix_all(&h, &http);
    let b = strip_prefix_all(&a, &https);
    let t = trim_end_char_chars(&b, '/');
    let mut p: usize = 0;
    while p < t.len() && t[p] != '/'
        invariant
            p <= t@.len(),
            find_from(t@, '/', 0) == find_from(t@, '/', p as nat),
        decreases t@.len() - p,
    {
        p = p + 1;
    }
    let mut r: Vec<char> = Vec::new();
    let mut k: usize = 0;
    while k < p
        invariant
            p <= t@.len(),
            k <= p,
            r@ == t@.take(k as int),
        decreases p - k,
    {
        r.push(t[k]);
        k = k + 1;
        assert(r@ =~= t@.take(k as int));
    }
    string_of(&r)
}

/// The host of a Hue bridge as written in the config: surrounding whitespace, a scheme in front
/// and trailing slashes dropped.
pub open spec fn bridge_host(bridge: Seq<char>) -> Seq<char> {
    trim_end_char(strip_all_prefix(strip_all_prefix(trimmed(bridge), "https://"@), "http://"@), '/')
}

/// The bridge's CLIP v2 base URL, always over HTTPS.
pub open spec fn bridge_base(bridge: Seq<char>) -> Seq<char> {
    "https://"@ + bridge_host(bridge) + "/clip/v2"@
}

/// The CLIP v2 base URL of a Hue bridge.
pub fn base_url(bridge: &str) -> (s: String)
    ensures
        s@ == bridge_base(bridge@),
{
    let b = chars_of(bridge);
    let t = trim_chars(&b);
    let https = chars_of("https://");
    let http = chars_of("http://");
    let x = strip_prefix_all(&t, &https);
    let y = strip_prefix_all(&x, &http);
    let z = trim_end_char_chars(&y, '/');
    let mut s = String::from_str("https://");
    push_chars(&mut s, &z);
    let suffix = chars_of("/clip/v2");
    push_chars(&mut s, &suffix);
    s
}

/// Where a bridge hands out an application key: the base URL without its `/clip/v2`, plus `/api`.
pub open spec fn pairing_address(bridge: Seq<char>) -> Seq<char> {
    strip_all_suffix(bridge_base(bridge), "/clip/v2"@) + "/api"@
}

/// The URL a pairing request is posted to.
pub fn pairing_url(bridge: &str) -> (s: String)
    ensures
        s@ == pairing_address(bridge@),
{
    let base = base_url(bridge);
    let b = chars_of(base.as_str());
    let suffix = chars_of("/clip/v2");
    let host = strip_suffix_all(&b, &suffix);
    let mut s = string_of(&host);
    let api = chars_of("/api");
    push_chars(&mut s, &api);
    s
}

} // verus!
