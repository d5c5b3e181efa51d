//! Govee LAN protocol: the 20-byte BLE-style packets sent through the "razer" command,
//! the Razer/DreamView mode packet, the base64 wrapping of packets, and the per-segment
//! colour packets of a DreamView strip.
use vstd::prelude::*;

use crate::color::Rgbw;
use crate::json::{as_i64, as_u64, json_bytes_parsed, json_i64, json_u64, member, member_at, parse_json_bytes, Json};
use crate::text::{push_char, push_str};
use vstd::string::*;

verus! {

/// The state a Govee light reported when it was first asked, restored on exit.
#[derive(Debug, Clone, Copy, PartialEq, Eq, Structural)]
pub struct GoveeState {
    pub on: bool,
    pub brightness: u8,
    pub r: u8,
    pub g: u8,
    pub b: u8,
}

/// Most segments Govee's segment bitmap holds.
pub const MAX_SEGMENTS: usize = 15;

/// The exclusive-or of all bytes of `s`.
pub open spec fn xor_all(s: Seq<u8>) -> u8
    decreases s.len(),
{
    if s.len() == 0 {
        0
    } else {
        xor_all(s.drop_last()) ^ s.last()
    }
}

/// The bytes of a Govee packet carrying `payload`: a `0x33` lead byte, at most eighteen
/// payload bytes, zero padding, and a final byte that makes the whole packet XOR to zero.
pub open spec fn packet_body_ok(out: Seq<u8>, payload: Seq<u8>) -> bool {
    let n = if payload.len() < 18 { payload.len() as int } else { 18 };
    &&& out.len() == 20
    &&& out[0] == 0x33u8
    &&& forall|i: int| 1 <= i <= n ==> #[trigger] out[i] == payload[i - 1]
    &&& forall|i: int| n < i < 19 ==> #[trigger] out[i] == 0u8
    &&& out[19] == xor_all(out.subrange(0, 19))
}

/// The exclusive-or of the first `n` bytes of a packet.
fn xor_prefix(out: &[u8; 20], n: usize) -> (x: u8)
    requires
        n <= 20,
    ensures
        x == xor_all(out@.subrange(0, n as int)),
{
    let mut acc: u8 = 0;
    let mut i: usize = 0;
    while i < n
        invariant
            n <= 20,
            i <= n,
            acc == xor_all(out@.subrange(0, i as int)),
        decreases n - i,
    {
        acc = acc ^ out[i];
        i = i + 1;
        assert(out@.subrange(0, i as int).drop_last() =~= out@.subrange(0, i - 1));
    }
    acc
}

/// Lemma: a packet whose last byte is the XOR of the bytes before it XORs to zero as a whole.
pub proof fn lemma_checksum_closes(out: Seq<u8>)
    requires
        out.len() >= 1,
        out.last() == xor_all(out.subrange(0, out.len() - 1)),
    ensures
        xor_all(out) == 0,
{
    assert(out.drop_last() =~= out.subrange(0, out.len() - 1));
    let x = out.last();
    assert(x ^ x == 0) by (bit_vector);
}

/// Frames `payload` as a Govee packet: `0x33`, the payload cut at eighteen bytes, zero
/// padding, and a checksum byte that is the XOR of the nineteen bytes before it.
pub fn govee_packet(payload: &[u8]) -> (out: [u8; 20])
    ensures
        packet_body_ok(out@, payload@),
        xor_all(out@) == 0,
{
    let mut out = [0u8; 20];
    out[0] = 0x33;
    let n = if payload.len() < 18 { payload.len() } else { 18 };
    let mut i: usize = 0;
    while i < n
        invariant
            n <= 18,
            n <= payload@.len(),
            i <= n,
            out@.len() == 20,
            out@[0] == 0x33u8,
            forall|k: int| 1 <= k <= i ==> #[trigger] out@[k] == payload@[k - 1],
            forall|k: int| i < k < 20 ==> #[trigger] out@[k] == 0u8,
        decreases n - i,
    {
        out[1 + i] = payload[i];
        i = i + 1;
    }
    let x = xor_prefix(&out, 19);
    let ghost before = out@;
    out[19] = x;
    assert(out@.subrange(0, 19) =~= before.subrange(0, 19));
    proof {
        lemma_checksum_closes(out@);
    }
    out
}

/// The packet that switches a light's Razer / DreamView mode on or off.
pub open spec fn razer_mode_bytes(on: bool) -> Seq<u8> {
    let v: u8 = if on { 1 } else { 0 };
    let body = seq![0xBBu8, 0x00u8, 0x01u8, 0xB1u8, v];
    body.push(xor_all(body))
}

/// The packet that switches Razer / DreamView mode on or off: `BB 00 01 B1 <on>` and a
/// checksum byte that makes the packet XOR to zero.
pub fn razer_mode_packet(on: bool) -> (out: [u8; 6])
    ensures
        out@ == razer_mode_bytes(on),
        xor_all(out@) == 0,
{
    let v: u8 = if on { 1 } else { 0 };
    let mut out = [0xBBu8, 0x00, 0x01, 0xB1, v, 0x00];
    let mut acc: u8 = 0;
    let mut i: usize = 0;
    while i < 5
        invariant
            i <= 5,
            out@ == seq![0xBBu8, 0x00u8, 0x01u8, 0xB1u8, v, 0x00u8],
            acc == xor_all(out@.subrange(0, i as int)),
        decreases 5 - i,
    {
        acc = acc ^ out[i];
        i = i + 1;
        assert(out@.subrange(0, i as int).drop_last() =~= out@.subrange(0, i - 1));
    }
    let ghost body = seq![0xBBu8, 0x00u8, 0x01u8, 0xB1u8, v];
    assert(out@.subrange(0, 5) =~= body);
    out[5] = acc;
    assert(out@.subrange(0, 5) =~= body);
    assert(out@ =~= body.push(xor_all(body)));
    proof {
        lemma_checksum_closes(out@);
    }
    out
}

// ---------------------------------------------------------------- base64

/// The character of the standard base64 alphabet at position `v`.
pub open spec fn b64_char(v: int) -> char {
    if v < 26 {
        ('A' as int + v) as char
    } else if v < 52 {
        ('a' as int + v - 26) as char
    } else if v < 62 {
        ('0' as int + v - 52) as char
    } else if v == 62 {
        '+'
    } else {
        '/'
    }
}

/// The byte at `i`, or zero past the end.
pub open spec fn byte_or_zero(d: Seq<u8>, i: int) -> int {
    if i < d.len() {
        d[i] as int
    } else {
        0
    }
}

/// The four characters for a group of up to three bytes, `=` standing for what is missing.
pub open spec fn b64_group(d: Seq<u8>) -> Seq<char> {
    let n = byte_or_zero(d, 0) * 65536 + byte_or_zero(d, 1) * 256 + byte_or_zero(d, 2);
    seq![
        b64_char(n / 262144 % 64),
        b64_char(n / 4096 % 64),
        if d.len() >= 2 { b64_char(n / 64 % 64) } else { '=' },
        if d.len() >= 3 { b64_char(n % 64) } else { '=' },
    ]
}

/// Standard base64 with `=` padding, three bytes at a time.
pub open spec fn base64_of(d: Seq<u8>) -> Seq<char>
    decreases d.len(),
{
    if d.len() == 0 {
        Seq::empty()
    } else if d.len() <= 3 {
        b64_group(d)
    } else {
        b64_group(d.subrange(0, 3)) + base64_of(d.subrange(3, d.len() as int))
    }
}

/// The base64 character for a value below 64.
fn b64_digit(v: u32) -> (c: char)
    requires
        v < 64,
    ensures
        c == b64_char(v as int),
{
    if v < 26 {
        (65u8 + v as u8) as char
    } else if v < 52 {
        (71u8 + v as u8) as char
    } else if v < 62 {
        ((v as u8) - 4) as char
    } else if v == 62 {
        '+'
    } else {
        '/'
    }
}

/// Encodes bytes as standard base64 with `=` padding.
pub fn base64(data: &[u8]) -> (s: String)
    ensures
        s@ == base64_of(data@),
{
    let mut out = String::new();
    let len = data.len();
    let mut i: usize = 0;
    assert(data@.subrange(0, len as int) =~= data@);
    while i < len
        invariant
            len == data@.len(),
            i <= len,
            out@ + base64_of(data@.subrange(i as int, len as int)) == base64_of(data@),
        decreases len - i,
    {
        let ghost rest = data@.subrange(i as int, len as int);
        let left = len - i;
        let b0 = data[i] as u32;
        let b1: u32 = if left >= 2 { data[i + 1] as u32 } else { 0 };
        let b2: u32 = if left >= 3 { data[i + 2] as u32 } else { 0 };
        let n: u32 = b0 * 65536 + b1 * 256 + b2;
        let ghost group = if left <= 3 { rest } else { rest.subrange(0, 3) };
        assert(byte_or_zero(group, 0) == b0);
        assert(byte_or_zero(group, 1) == b1);
        assert(byte_or_zero(group, 2) == b2);
        let ghost before = out@;
        push_char(&mut out, b64_digit(n / 262144 % 64));
        push_char(&mut out, b64_digit(n / 4096 % 64));
        if left >= 2 {
            push_char(&mut out, b64_digit(n / 64 % 64));
        } else {
            push_char(&mut out, '=');
        }
        if left >= 3 {
            push_char(&mut out, b64_digit(n % 64));
        } else {
            push_char(&mut out, '=');
        }
        assert(out@ =~= before + b64_group(group));
        if left <= 3 {
            assert(base64_of(rest) == b64_group(rest));
            assert(data@.subrange(len as int, len as int) =~= Seq::<u8>::empty());
            i = len;
        } else {
            assert(rest.subrange(3, rest.len() as int) =~= data@.subrange(i + 3, len as int));
            i = i + 3;
        }
    }
    assert(data@.subrange(len as int, len as int) =~= Seq::<u8>::empty());
    assert(out@ =~= base64_of(data@));
    out
}

/// Law: base64 turns every started group of three bytes into four characters.
pub proof fn lemma_base64_len(d: Seq<u8>)
    ensures
        base64_of(d).len() == 4 * ((d.len() + 2) / 3),
    decreases d.len(),
{
    if d.len() > 3 {
        lemma_base64_len(d.subrange(3, d.len() as int));
    }
}

// ---------------------------------------------------------------- segments

/// The segment count a DreamView strip is driven with: between one and fifteen.
pub open spec fn clamp_segments(segments: int) -> int {
    if segments < 1 {
        1
    } else if segments > MAX_SEGMENTS {
        MAX_SEGMENTS as int
    } else {
        segments
    }
}

/// The colour segment `seg` of `count` shows, picked from `colors` by even spacing.
pub open spec fn segment_color(colors: Seq<Rgbw>, count: int, seg: int) -> Rgbw {
    let at = seg * colors.len() / count;
    colors[if at < colors.len() - 1 { at } else { colors.len() - 1 }]
}

/// The bit of the segment bitmap that segment `seg` of `count` occupies.
pub open spec fn segment_bit(count: int, reverse: bool, seg: int) -> int {
    if reverse {
        count - 1 - seg
    } else {
        seg
    }
}

/// Whether bit `j` of `m` is set.
pub open spec fn has_bit(m: u16, j: u16) -> bool {
    (m >> j) & 1u16 == 1u16
}

/// The distinct elements of `s` in the order they first appear.
pub open spec fn distinct_in_order(s: Seq<Rgbw>) -> Seq<Rgbw>
    decreases s.len(),
{
    if s.len() == 0 {
        Seq::empty()
    } else {
        let rest = distinct_in_order(s.drop_last());
        if rest.contains(s.last()) {
            rest
        } else {
            rest.push(s.last())
        }
    }
}

/// The colours of the first `k` segments.
pub open spec fn segment_colors(colors: Seq<Rgbw>, count: int, k: int) -> Seq<Rgbw> {
    Seq::new(k as nat, |seg: int| segment_color(colors, count, seg))
}

/// Whether bit `j` belongs to a segment below `k` that shows `c`.
pub open spec fn bit_shows(colors: Seq<Rgbw>, count: int, reverse: bool, k: int, c: Rgbw, j: int) -> bool {
    exists|seg: int| 0 <= seg < k && segment_bit(count, reverse, seg) == j && #[trigger] segment_color(colors, count, seg) == c
}

/// The colours a strip's packets carry: the distinct segment colours in the order they first appear.
pub open spec fn segment_groups(colors: Seq<Rgbw>, segments: int) -> Seq<Rgbw> {
    distinct_in_order(segment_colors(colors, clamp_segments(segments), clamp_segments(segments)))
}

/// Whether `packet` is the colour packet for group `g`: the group's colour with the bitmap
/// of exactly the segments that show it.
pub open spec fn segment_packet_ok(colors: Seq<Rgbw>, segments: int, reverse: bool, g: int, packet: Seq<u8>) -> bool {
    let count = clamp_segments(segments);
    let c = segment_groups(colors, segments)[g];
    exists|mask: u16| {
        &&& packet_body_ok(packet, #[trigger] segment_payload(c, mask))
        &&& forall|j: u16| j < 16 ==> (has_bit(mask, j) <==> bit_shows(colors, count, reverse, count, c, j as int))
    }
}

/// The 15-byte segment colour command: `05 15 01`, the colour, seven zero bytes, the bitmap low then high.
pub open spec fn segment_payload(c: Rgbw, mask: u16) -> Seq<u8> {
    seq![0x05u8, 0x15u8, 0x01u8, c.r, c.g, c.b, 0u8, 0u8, 0u8, 0u8, 0u8, 0u8, 0u8, (mask & 0xff) as u8, (mask >> 8) as u8]
}

/// Lemma: a sequence extended by one element contains what it contained and that element.
proof fn lemma_push_contains(s: Seq<Rgbw>, v: Rgbw, x: Rgbw)
    ensures
        s.push(v).contains(x) <==> (s.contains(x) || x == v),
{
    if s.contains(x) {
        let i = choose|i: int| 0 <= i < s.len() && s[i] == x;
        assert(s.push(v)[i] == x);
    }
    if x == v {
        assert(s.push(v)[s.len() as int] == x);
    }
    if s.push(v).contains(x) {
        let i = choose|i: int| 0 <= i < s.push(v).len() && s.push(v)[i] == x;
        if i < s.len() {
            assert(s[i] == x);
        }
    }
}

/// Lemma: distinct_in_order holds each element once and exactly the elements of its input.
pub proof fn lemma_distinct(s: Seq<Rgbw>)
    ensures
        forall|a: int, b: int| 0 <= a < b < distinct_in_order(s).len() ==> distinct_in_order(s)[a] != distinct_in_order(s)[b],
        forall|x: Rgbw| distinct_in_order(s).contains(x) <==> s.contains(x),
    decreases s.len(),
{
    if s.len() > 0 {
        let init = s.drop_last();
        lemma_distinct(init);
        let rest = distinct_in_order(init);
        assert(s =~= init.push(s.last()));
        assert forall|x: Rgbw| distinct_in_order(s).contains(x) <==> s.contains(x) by {
            lemma_push_contains(init, s.last(), x);
            lemma_push_contains(rest, s.last(), x);
        }
        if !rest.contains(s.last()) {
            let d = rest.push(s.last());
            assert forall|a: int, b: int| 0 <= a < b < d.len() implies d[a] != d[b] by {
                if b == rest.len() {
                    assert(d[a] == rest[a]);
                    if d[a] == d[b] {
                        assert(rest.contains(s.last()));
                    }
                }
            }
        }
    }
}

/// Bit `j` of `m | (1 << b)`: set where it was set, and at `b`.
proof fn lemma_or_bit(m: u16, b: u16, j: u16)
    requires
        b < 16,
        j < 16,
    ensures
        has_bit(m | (1u16 << b), j) == (has_bit(m, j) || j == b),
{
    assert(((m | (1u16 << b)) >> j) & 1u16 == 1u16 <==> (((m >> j) & 1u16 == 1u16) || j == b)) by (bit_vector)
        requires
            b < 16,
            j < 16,
    ;
}

/// Bit `j` of `1 << b`: set exactly at `b`.
proof fn lemma_single_bit(b: u16, j: u16)
    requires
        b < 16,
        j < 16,
    ensures
        has_bit(1u16 << b, j) == (j == b),
{
    assert(((1u16 << b) >> j) & 1u16 == 1u16 <==> j == b) by (bit_vector)
        requires
            b < 16,
            j < 16,
    ;
}

/// The per-segment colour packets for a DreamView strip: one packet per distinct colour, in
/// the order the colours first appear along the strip, each carrying the bitmap of the
/// segments that show it. `reverse` mirrors which end segment 0 sits at.
pub fn segment_packets(colors: &[Rgbw], segments: usize, reverse: bool) -> (out: Vec<[u8; 20]>)
    requires
        colors@.len() * MAX_SEGMENTS <= usize::MAX,
    ensures
        colors@.len() == 0 ==> out@.len() == 0,
        colors@.len() > 0 ==> out@.len() == segment_groups(colors@, segments as int).len(),
        colors@.len() > 0 ==> forall|g: int| 0 <= g < out@.len() ==> #[trigger] segment_packet_ok(colors@, segments as int, reverse, g, out@[g]@),
{
    let count: usize = if segments < 1 { 1 } else if segments > MAX_SEGMENTS { MAX_SEGMENTS } else { segments };
    if colors.len() == 0 {
        return Vec::new();
    }
    let len = colors.len();
    let ghost cs = colors@;
    let mut groups: Vec<(Rgbw, u16)> = Vec::new();
    let mut seg: usize = 0;
    while seg < count
        invariant
            1 <= count <= MAX_SEGMENTS,
            count == clamp_segments(segments as int),
            len == cs.len(),
            cs == colors@,
            len >= 1,
            len * MAX_SEGMENTS <= usize::MAX,
            seg <= count,
            groups@.len() == distinct_in_order(segment_colors(cs, count as int, seg as int)).len(),
            forall|g: int| 0 <= g < groups@.len() ==> #[trigger] groups@[g].0 == distinct_in_order(segment_colors(cs, count as int, seg as int))[g],
            forall|g: int, j: u16| 0 <= g < groups@.len() && j < 16 ==> (#[trigger] has_bit(groups@[g].1, j) <==> bit_shows(cs, count as int, reverse, seg as int, groups@[g].0, j as int)),
        decreases count - seg,
    {
        let ghost prev = segment_colors(cs, count as int, seg as int);
        let ghost next = segment_colors(cs, count as int, seg + 1);
        assert(next.drop_last() =~= prev);
        assert(seg * len <= len * MAX_SEGMENTS) by (nonlinear_arith)
            requires
                seg <= MAX_SEGMENTS,
        ;
        let at0 = seg * len / count;
        let at = if at0 < len - 1 { at0 } else { len - 1 };
        let c = colors[at];
        assert(c == segment_color(cs, count as int, seg as int));
        assert(next.last() == c);
        let b: usize = if reverse { count - 1 - seg } else { seg };
        assert(b == segment_bit(count as int, reverse, seg as int));
        let bit: u16 = 1u16 << (b as u16);
        proof {
            lemma_distinct(prev);
        }
        let mut g: usize = 0;
        while g < groups.len() && groups[g].0 != c
            invariant
                g <= groups@.len(),
                forall|k: int| 0 <= k < g ==> #[trigger] groups@[k].0 != c,
            decreases groups@.len() - g,
        {
            g = g + 1;
        }
        let found = g < groups.len();
        let ghost old_groups = groups@;
        if found {
            let (gc, m) = groups[g];
            groups.set(g, (gc, m | bit));
            proof {
                assert(distinct_in_order(prev)[g as int] == c);
                assert(distinct_in_order(prev).contains(c));
                assert(distinct_in_order(next) == distinct_in_order(prev));
                assert forall|h: int, j: u16| 0 <= h < groups@.len() && j < 16 implies (#[trigger] has_bit(groups@[h].1, j) <==> bit_shows(cs, count as int, reverse, seg + 1, groups@[h].0, j as int)) by {
                    let hc = groups@[h].0;
                    if h == g {
                        lemma_or_bit(m, b as u16, j);
                    }
                    if bit_shows(cs, count as int, reverse, seg + 1, hc, j as int) {
                        let s2 = choose|s2: int| 0 <= s2 < seg + 1 && segment_bit(count as int, reverse, s2) == j as int && #[trigger] segment_color(cs, count as int, s2) == hc;
                        if s2 < seg {
                            assert(bit_shows(cs, count as int, reverse, seg as int, hc, j as int));
                        } else {
                            assert(hc == c);
                            if h != g {
                                assert(distinct_in_order(prev)[h] != distinct_in_order(prev)[g as int]);
                            }
                        }
                    }
                    if bit_shows(cs, count as int, reverse, seg as int, hc, j as int) {
                        let s2 = choose|s2: int| 0 <= s2 < seg && segment_bit(count as int, reverse, s2) == j as int && #[trigger] segment_color(cs, count as int, s2) == hc;
                        assert(0 <= s2 < seg + 1);
                    }
                    if h == g && j == b as u16 {
                        assert(segment_color(cs, count as int, seg as int) == c);
                        assert(bit_shows(cs, count as int, reverse, seg + 1, hc, j as int));
                    }
                }
            }
        } else {
            groups.push((c, bit));
            proof {
                assert(!distinct_in_order(prev).contains(c)) by {
                    if distinct_in_order(prev).contains(c) {
                        let k = choose|k: int| 0 <= k < distinct_in_order(prev).len() && distinct_in_order(prev)[k] == c;
                        assert(old_groups[k].0 == c);
                    }
                }
                assert(distinct_in_order(next) == distinct_in_order(prev).push(c));
                assert forall|h: int, j: u16| 0 <= h < groups@.len() && j < 16 implies (#[trigger] has_bit(groups@[h].1, j) <==> bit_shows(cs, count as int, reverse, seg + 1, groups@[h].0, j as int)) by {
                    let hc = groups@[h].0;
                    if h == old_groups.len() {
                        lemma_single_bit(b as u16, j);
                        assert(hc == c);
                        if bit_shows(cs, count as int, reverse, seg + 1, hc, j as int) {
                            let s2 = choose|s2: int| 0 <= s2 < seg + 1 && segment_bit(count as int, reverse, s2) == j as int && #[trigger] segment_color(cs, count as int, s2) == hc;
                            if s2 < seg {
                                assert(prev[s2] == c);
                                assert(prev.contains(c));
                                proof_contains_distinct(prev, c);
                            }
                        }
                        if j == b as u16 {
                            assert(segment_color(cs, count as int, seg as int) == c);
                        }
                    } else {
                        assert(groups@[h] == old_groups[h]);
                        if bit_shows(cs, count as int, reverse, seg + 1, hc, j as int) {
                            let s2 = choose|s2: int| 0 <= s2 < seg + 1 && segment_bit(count as int, reverse, s2) == j as int && #[trigger] segment_color(cs, count as int, s2) == hc;
                            if s2 == seg {
                                assert(hc == c);
                                assert(old_groups[h].0 == c);
                            } else {
                                assert(bit_shows(cs, count as int, reverse, seg as int, hc, j as int));
                            }
                        }
                        if bit_shows(cs, count as int, reverse, seg as int, hc, j as int) {
                            let s2 = choose|s2: int| 0 <= s2 < seg && segment_bit(count as int, reverse, s2) == j as int && #[trigger] segment_color(cs, count as int, s2) == hc;
                            assert(0 <= s2 < seg + 1);
                        }
                    }
                }
            }
        }
        seg = seg + 1;
    }
    let ghost all = segment_colors(cs, count as int, count as int);
    let mut out: Vec<[u8; 20]> = Vec::new();
    let mut k: usize = 0;
    while k < groups.len()
        invariant
            k <= groups@.len(),
            out@.len() == k,
            groups@.len() == distinct_in_order(all).len(),
            forall|g: int| 0 <= g < groups@.len() ==> #[trigger] groups@[g].0 == distinct_in_order(all)[g],
            forall|g: int, j: u16| 0 <= g < groups@.len() && j < 16 ==> (#[trigger] has_bit(groups@[g].1, j) <==> bit_shows(cs, count as int, reverse, count as int, groups@[g].0, j as int)),
            forall|g: int| 0 <= g < k ==> #[trigger] packet_body_ok(out@[g]@, segment_payload(groups@[g].0, groups@[g].1)),
        decreases groups@.len() - k,
    {
        let (c, mask) = groups[k];
        assert(mask & 0xff <= 255u16 && mask >> 8u16 <= 255u16) by (bit_vector);
        let lo = (mask & 0xff) as u8;
        let hi = (mask >> 8) as u8;
        let payload = [0x05u8, 0x15, 0x01, c.r, c.g, c.b, 0, 0, 0, 0, 0, 0, 0, lo, hi];
        assert(payload@ =~= segment_payload(c, mask));
        let p = govee_packet(&payload);
        out.push(p);
        k = k + 1;
    }
    proof {
        let cnt = clamp_segments(segments as int);
        assert(cnt == count as int);
        assert(segment_groups(colors@, segments as int) == distinct_in_order(all));
        assert forall|g: int| 0 <= g < out@.len() implies #[trigger] segment_packet_ok(colors@, segments as int, reverse, g, out@[g]@) by {
            let mask = groups@[g].1;
            let gs = segment_groups(colors@, segments as int);
            assert(packet_body_ok(out@[g]@, segment_payload(groups@[g].0, groups@[g].1)));
            assert(groups@[g].0 == gs[g]);
            assert(packet_body_ok(out@[g]@, segment_payload(gs[g], mask)));
            assert forall|j: u16| j < 16 implies (has_bit(mask, j) <==> bit_shows(colors@, cnt, reverse, cnt, gs[g], j as int)) by {
                assert(has_bit(groups@[g].1, j) <==> bit_shows(cs, count as int, reverse, count as int, groups@[g].0, j as int));
            }
        }
    }
    out
}

/// A colour already in a sequence is already among its distinct elements.
proof fn proof_contains_distinct(s: Seq<Rgbw>, c: Rgbw)
    requires
        s.contains(c),
    ensures
        distinct_in_order(s).contains(c),
{
    lemma_distinct(s);
}

// ---------------------------------------------------------------- commands

/// The brightness a Govee `brightness` command carries: the requested level held within 1 to 100.
pub fn brightness_value(brightness: u8) -> (v: u8)
    ensures
        v == (if brightness < 1 { 1 } else if brightness > 100 { 100 } else { brightness }),
{
    if brightness < 1 {
        1
    } else if brightness > 100 {
        100
    } else {
        brightness
    }
}

/// The value a Govee `turn` command carries.
pub fn turn_value(on: bool) -> (v: u8)
    ensures
        v == (if on { 1u8 } else { 0u8 }),
{
    if on {
        1
    } else {
        0
    }
}

impl GoveeState {
    /// The state a `devStatus` reply describes: `onOff` of 1 means on; brightness defaults to 100
    /// and is capped at 100; each colour channel defaults to 0 and is capped at 255.
    pub fn from_status(on_off: Option<i64>, brightness: Option<u64>, r: Option<u64>, g: Option<u64>, b: Option<u64>) -> (s: Self)
        ensures
            s.on == (on_off == Some(1i64)),
            s.brightness == capped(brightness, 100, 100),
            s.r == capped(r, 0, 255),
            s.g == capped(g, 0, 255),
            s.b == capped(b, 0, 255),
    {
        GoveeState {
            on: match on_off {
                Some(v) => v == 1,
                None => false,
            },
            brightness: cap(brightness, 100, 100),
            r: cap(r, 0, 255),
            g: cap(g, 0, 255),
            b: cap(b, 0, 255),
        }
    }
}

/// A reported number, or `default` when absent, held at `limit`.
pub open spec fn capped(v: Option<u64>, default: u64, limit: u64) -> u8 {
    let x = match v {
        Some(x) => x,
        None => default,
    };
    (if x < limit { x } else { limit }) as u8
}

fn cap(v: Option<u64>, default: u64, limit: u64) -> (r: u8)
    requires
        default <= 255,
        limit <= 255,
    ensures
        r == capped(v, default, limit),
{
    let x = match v {
        Some(x) => x,
        None => default,
    };
    (if x < limit { x } else { limit }) as u8
}


/// The state a parsed `devStatus` reply describes, read from its `msg.data` member as
/// `from_status` reads the fields `onOff`, `brightness` and `color.r`, `color.g`, `color.b`.
pub open spec fn status_of(reply: Json) -> GoveeState {
    let data = member_at(member_at(Some(reply), "msg"@), "data"@);
    let color = member_at(data, "color"@);
    GoveeState {
        on: json_i64(member_at(data, "onOff"@)) == Some(1i64),
        brightness: capped(json_u64(member_at(data, "brightness"@)), 100, 100),
        r: capped(json_u64(member_at(color, "r"@)), 0, 255),
        g: capped(json_u64(member_at(color, "g"@)), 0, 255),
        b: capped(json_u64(member_at(color, "b"@)), 0, 255),
    }
}

/// The state a `devStatus` reply reports, or why the reply is not JSON.
pub fn govee_status_of_reply(reply: &[u8]) -> (r: Result<GoveeState, String>)
    ensures
        match json_bytes_parsed(reply@) {
            Ok(j) => r == Ok::<GoveeState, String>(status_of(j)),
            Err(e) => r is Err && r->Err_0@ == "parse devStatus: "@ + e,
        },
{
    match parse_json_bytes(reply) {
        Ok(v) => {
            let data = member(member(Some(&v), "msg"), "data");
            let color = member(data, "color");
            Ok(GoveeState::from_status(
                as_i64(member(data, "onOff")),
                as_u64(member(data, "brightness")),
                as_u64(member(color, "r")),
                as_u64(member(color, "g")),
                as_u64(member(color, "b")),
            ))
        },
        Err(e) => {
            let mut m = String::from_str("parse devStatus: ");
            push_str(&mut m, e.as_str());
            Err(m)
        },
    }
}

} // verus!
