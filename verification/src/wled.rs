//! WLED's UDP realtime protocol: the packet that colours the whole strip in one write, and the
//! strip geometry it is built for.
use vstd::prelude::*;
use vstd::string::*;
use crate::color::Rgbw;
use crate::text::{decimal, push_decimal, push_str};

verus! {

/// The realtime protocol variants WLED understands.
#[derive(Debug, Clone, Copy, PartialEq, Eq, Structural)]
pub enum WledProtocol {
    Warls,
    Drgb,
    Drgbw,
    Dnrgb,
}

impl Default for WledProtocol {
    fn default() -> (p: Self)
        ensures
            p == WledProtocol::Dnrgb,
    {
        WledProtocol::Dnrgb
    }
}

/// The protocol number in the first byte of a packet.
pub open spec fn protocol_id(p: WledProtocol) -> u8 {
    match p {
        WledProtocol::Warls => 1,
        WledProtocol::Drgb => 2,
        WledProtocol::Drgbw => 3,
        WledProtocol::Dnrgb => 4,
    }
}

/// The bytes each pixel takes.
pub open spec fn pixel_size(p: WledProtocol) -> nat {
    match p {
        WledProtocol::Warls => 4,
        WledProtocol::Drgb => 3,
        WledProtocol::Drgbw => 4,
        WledProtocol::Dnrgb => 3,
    }
}

/// The bytes before the first pixel.
pub open spec fn header_size(p: WledProtocol) -> nat {
    match p {
        WledProtocol::Dnrgb => 4,
        _ => 2,
    }
}

/// The most pixels one packet can address.
pub open spec fn pixel_limit(p: WledProtocol) -> nat {
    match p {
        WledProtocol::Dnrgb => 65535,
        _ => 490,
    }
}

/// The name of a protocol as `{:?}` writes it.
pub open spec fn protocol_name(p: WledProtocol) -> Seq<char> {
    match p {
        WledProtocol::Warls => "Warls"@,
        WledProtocol::Drgb => "Drgb"@,
        WledProtocol::Drgbw => "Drgbw"@,
        WledProtocol::Dnrgb => "Dnrgb"@,
    }
}

impl WledProtocol {
    /// The protocol number.
    pub fn id(self) -> (n: u8)
        ensures
            n == protocol_id(self),
    {
        match self {
            WledProtocol::Warls => 1,
            WledProtocol::Drgb => 2,
            WledProtocol::Drgbw => 3,
            WledProtocol::Dnrgb => 4,
        }
    }

    /// The bytes per pixel.
    pub fn bytes_per_pixel(self) -> (n: usize)
        ensures
            n == pixel_size(self),
    {
        match self {
            WledProtocol::Warls => 4,
            WledProtocol::Drgb => 3,
            WledProtocol::Drgbw => 4,
            WledProtocol::Dnrgb => 3,
        }
    }

    /// The header length.
    pub fn header_len(self) -> (n: usize)
        ensures
            n == header_size(self),
    {
        match self {
            WledProtocol::Dnrgb => 4,
            _ => 2,
        }
    }

    /// The most pixels one packet can address.
    pub fn max_pixels(self) -> (n: usize)
        ensures
            n == pixel_limit(self),
    {
        match self {
            WledProtocol::Warls | WledProtocol::Drgb | WledProtocol::Drgbw => 490,
            WledProtocol::Dnrgb => 65535,
        }
    }

    /// The name of the protocol as `{:?}` writes it.
    pub fn name(self) -> (s: &'static str)
        ensures
            s@ == protocol_name(self),
    {
        match self {
            WledProtocol::Warls => "Warls",
            WledProtocol::Drgb => "Drgb",
            WledProtocol::Drgbw => "Drgbw",
            WledProtocol::Dnrgb => "Dnrgb",
        }
    }
}

/// The segment pixel `led` of `leds` takes its colour from, among `segments`: the pixels are
/// divided evenly in order, or in reverse order for a strip mounted the other way round.
pub open spec fn segment_of(led: nat, leds: nat, segments: nat, reverse: bool) -> int {
    let idx: int = (led * segments) as int / (if leds > 0 {
        leds as int
    } else {
        1int
    });
    let last: int = segments - 1;
    let clamped: int = if idx < last {
        idx
    } else {
        last
    };
    if reverse {
        last - clamped
    } else {
        clamped
    }
}

/// The bytes of one pixel: its index first under WARLS (the low byte of it), then red, green
/// and blue, then white under DRGBW.
pub open spec fn pixel_bytes(p: WledProtocol, led: nat, c: Rgbw) -> Seq<u8> {
    (if p == WledProtocol::Warls {
        seq![(led % 256) as u8]
    } else {
        Seq::empty()
    }) + seq![c.r, c.g, c.b] + (if p == WledProtocol::Drgbw {
        seq![c.w]
    } else {
        Seq::empty()
    })
}

/// The header: protocol number and timeout, and under DNRGB a start index of zero.
pub open spec fn packet_header(p: WledProtocol, timeout_s: u8) -> Seq<u8> {
    if p == WledProtocol::Dnrgb {
        seq![protocol_id(p), timeout_s, 0u8, 0u8]
    } else {
        seq![protocol_id(p), timeout_s]
    }
}

/// The bytes of the first `n` pixels.
pub open spec fn packet_pixels(p: WledProtocol, leds: nat, n: nat, segments: Seq<Rgbw>, reverse: bool) -> Seq<u8>
    decreases n,
{
    if n == 0 {
        Seq::empty()
    } else {
        packet_pixels(p, leds, (n - 1) as nat, segments, reverse) + pixel_bytes(
            p,
            (n - 1) as nat,
            segments[segment_of((n - 1) as nat, leds, segments.len(), reverse)],
        )
    }
}

/// A whole realtime packet for `leds` pixels coloured from `segments`.
pub open spec fn wled_packet(p: WledProtocol, timeout_s: u8, leds: nat, segments: Seq<Rgbw>, reverse: bool) -> Seq<u8> {
    packet_header(p, timeout_s) + packet_pixels(p, leds, leds, segments, reverse)
}

/// The segment a pixel takes its colour from.
fn segment_index(led: usize, leds: usize, segments: usize, reverse: bool) -> (i: usize)
    requires
        segments >= 1,
        led * segments <= usize::MAX,
    ensures
        i as int == segment_of(led as nat, leds as nat, segments as nat, reverse),
        i < segments,
{
    let d: usize = if leds > 0 {
        leds
    } else {
        1
    };
    let idx = led * segments / d;
    let last = segments - 1;
    let clamped = if idx < last {
        idx
    } else {
        last
    };
    if reverse {
        last - clamped
    } else {
        clamped
    }
}

/// Writes the realtime packet for a strip of `leds` pixels into `out`, replacing what it held.
/// The segment colours are the ones to show, already scaled to the brightness.
pub fn build_packet(out: &mut Vec<u8>, protocol: WledProtocol, timeout_s: u8, leds: usize, segments: &[Rgbw], reverse: bool)
    requires
        segments@.len() >= 1,
        leds * segments@.len() <= usize::MAX,
    ensures
        final(out)@ == wled_packet(protocol, timeout_s, leds as nat, segments@, reverse),
{
    out.clear();
    out.push(protocol.id());
    out.push(timeout_s);
    if protocol == WledProtocol::Dnrgb {
        out.push(0u8);
        out.push(0u8);
    }
    let ghost header = out@;
    assert(header =~= packet_header(protocol, timeout_s));
    let n = segments.len();
    let mut led: usize = 0;
    while led < leds
        invariant
            n == segments@.len(),
            n >= 1,
            leds * n <= usize::MAX,
            led <= leds,
            header == packet_header(protocol, timeout_s),
            out@ == header + packet_pixels(protocol, leds as nat, led as nat, segments@, reverse),
        decreases leds - led,
    {
        proof {
            vstd::arithmetic::mul::lemma_mul_inequality(led as int, leds as int, n as int);
        }
        let idx = segment_index(led, leds, n, reverse);
        let ghost before = out@;
        push_pixel(out, protocol, led, segments[idx]);
        proof {
            let pix = packet_pixels(protocol, leds as nat, led as nat, segments@, reverse);
            let one = pixel_bytes(protocol, led as nat, segments@[idx as int]);
            assert(packet_pixels(protocol, leds as nat, (led + 1) as nat, segments@, reverse) == pix + one);
            assert(out@ =~= header + (pix + one));
        }
        led = led + 1;
    }
}

/// Appends the bytes of one pixel.
fn push_pixel(out: &mut Vec<u8>, protocol: WledProtocol, led: usize, c: Rgbw)
    ensures
        final(out)@ == old(out)@ + pixel_bytes(protocol, led as nat, c),
{
    let ghost start = out@;
    if protocol == WledProtocol::Warls {
        out.push(led as u8);
        proof {
            assert((led as u8) == ((led as nat) % 256) as u8) by (bit_vector);
        }
    }
    out.push(c.r);
    out.push(c.g);
    out.push(c.b);
    if protocol == WledProtocol::Drgbw {
        out.push(c.w);
    }
    assert(out@ =~= start + pixel_bytes(protocol, led as nat, c));
}

/// The pixels of the first `n` pixels take `pixel_size` bytes each.
proof fn lemma_pixels_len(p: WledProtocol, leds: nat, n: nat, segments: Seq<Rgbw>, reverse: bool)
    ensures
        packet_pixels(p, leds, n, segments, reverse).len() == n * pixel_size(p),
    decreases n,
{
    if n > 0 {
        lemma_pixels_len(p, leds, (n - 1) as nat, segments, reverse);
        assert(n * pixel_size(p) == (n - 1) * pixel_size(p) + pixel_size(p)) by (nonlinear_arith);
    }
}

/// Law: the whole strip goes out in one packet of the header plus the same number of bytes for
/// every pixel.
pub proof fn lemma_packet_len(p: WledProtocol, timeout_s: u8, leds: nat, segments: Seq<Rgbw>, reverse: bool)
    ensures
        wled_packet(p, timeout_s, leds, segments, reverse).len() == header_size(p) + leds * pixel_size(p),
{
    lemma_pixels_len(p, leds, leds, segments, reverse);
}

/// Law: every pixel takes its colour from one of the segments, and without reversal a pixel
/// further along never shows an earlier segment than the one before it.
pub proof fn lemma_segments_in_order(a: nat, b: nat, leds: nat, segments: nat)
    requires
        segments >= 1,
        a <= b,
    ensures
        0 <= segment_of(a, leds, segments, false) < segments,
        0 <= segment_of(a, leds, segments, true) < segments,
        segment_of(a, leds, segments, false) <= segment_of(b, leds, segments, false),
{
    let d: int = if leds > 0 {
        leds as int
    } else {
        1int
    };
    assert((a * segments) as int <= (b * segments) as int) by (nonlinear_arith)
        requires
            a <= b,
    ;
    vstd::arithmetic::div_mod::lemma_div_is_ordered((a * segments) as int, (b * segments) as int, d);
    vstd::arithmetic::div_mod::lemma_div_pos_is_pos((a * segments) as int, d);
}

/// The pixel count a strip runs with: what the config states when it is a positive number,
/// otherwise what the controller reports.
pub open spec fn stated_leds(leds: Option<usize>) -> Option<usize> {
    match leds {
        Some(n) => if n > 0 {
            Some(n)
        } else {
            None
        },
        None => None,
    }
}

/// The pixel count the config states, when it states a usable one; `None` means the controller
/// has to be asked.
pub fn configured_leds(leds: Option<usize>) -> (r: Option<usize>)
    ensures
        r == stated_leds(leds),
{
    match leds {
        Some(n) => if n > 0 {
            Some(n)
        } else {
            None
        },
        None => None,
    }
}

/// The pixels and segments a strip is driven with: the pixel count held to what the protocol can
/// address (and at least one), the segments to between one and the pixel count.
pub open spec fn geometry_of(protocol: WledProtocol, leds: nat, segments: nat) -> (nat, nat) {
    let l: nat = if leds < 1 {
        1
    } else if leds > pixel_limit(protocol) {
        pixel_limit(protocol)
    } else {
        leds
    };
    let s: nat = if segments < 1 {
        1
    } else if segments > l {
        l
    } else {
        segments
    };
    (l, s)
}

/// The warning given when the config asks for more pixels than the protocol can address.
pub open spec fn pixel_limit_warning(host: Seq<char>, protocol: WledProtocol, asked: nat) -> Seq<char> {
    "Warn: wled "@ + host + ": "@ + protocol_name(protocol) + " can only address "@ + decimal(pixel_limit(protocol))
        + " pixels, using that instead of "@ + decimal(asked) + "."@
}

/// The pixels and segments a strip is driven with, from the pixel count (stated or reported) and
/// the segment count asked for. A stated pixel count beyond what the protocol can address gives a
/// warning.
pub fn strip_geometry(host: &str, protocol: WledProtocol, stated: Option<usize>, leds: usize, segments: usize, warnings: &mut Vec<String>) -> (g: (usize, usize))
    ensures
        g.0 == geometry_of(protocol, leds as nat, segments as nat).0,
        g.1 == geometry_of(protocol, leds as nat, segments as nat).1,
        1 <= g.1 <= g.0 <= pixel_limit(protocol),
        match stated {
            Some(asked) => if asked > pixel_limit(protocol) {
                &&& final(warnings)@.len() == old(warnings)@.len() + 1
                &&& final(warnings)@.take(old(warnings)@.len() as int) == old(warnings)@
                &&& final(warnings)@.last()@ == pixel_limit_warning(host@, protocol, asked as nat)
            } else {
                final(warnings)@ == old(warnings)@
            },
            None => final(warnings)@ == old(warnings)@,
        },
{
    let max = protocol.max_pixels();
    let l: usize = if leds < 1 {
        1
    } else if leds > max {
        max
    } else {
        leds
    };
    if let Some(asked) = stated {
        if asked > max {
            let mut m = String::from_str("Warn: wled ");
            push_str(&mut m, host);
            push_str(&mut m, ": ");
            push_str(&mut m, protocol.name());
            push_str(&mut m, " can only address ");
            push_decimal(&mut m, max as u64);
            push_str(&mut m, " pixels, using that instead of ");
            push_decimal(&mut m, asked as u64);
            push_str(&mut m, ".");
            let ghost before = warnings@;
            warnings.push(m);
            assert(warnings@.take(before.len() as int) =~= before);
        }
    }
    let s: usize = if segments < 1 {
        1
    } else if segments > l {
        l
    } else {
        segments
    };
    (l, s)
}

/// How a strip is named in the log.
pub open spec fn strip_name(host: Seq<char>, leds: nat, segments: nat) -> Seq<char> {
    "wled "@ + host + " ("@ + decimal(leds) + " LEDs, "@ + decimal(segments) + " segments)"@
}

/// The name a strip goes by in the log.
pub fn device_name(host: &str, leds: usize, segments: usize) -> (s: String)
    ensures
        s@ == strip_name(host@, leds as nat, segments as nat),
{
    let mut s = String::from_str("wled ");
    push_str(&mut s, host);
    push_str(&mut s, " (");
    push_decimal(&mut s, leds as u64);
    push_str(&mut s, " LEDs, ");
    push_decimal(&mut s, segments as u64);
    push_str(&mut s, " segments)");
    s
}

/// The first pixel of segment `s` when `leds` pixels are divided over `segments`: the smallest
/// pixel whose share of the strip reaches the segment.
pub open spec fn run_start(s: nat, leds: nat, segments: nat) -> nat {
    ((s * leds + segments - 1) / segments as int) as nat
}

/// Rounding up a quotient, as comparisons: `a` reaches the rounded-up quotient exactly when
/// `a * d` reaches `x`.
proof fn lemma_ceil_compare(a: int, x: int, d: int)
    requires
        d > 0,
        a >= 0,
        x >= 0,
    ensures
        (a >= (x + d - 1) / d) == (a * d >= x),
        ((x + d - 1) / d) * d >= x,
{
    let c = (x + d - 1) / d;
    assert(c * d <= x + d - 1 && x + d - 1 < c * d + d) by (nonlinear_arith)
        requires
            d > 0,
            c == (x + d - 1) / d,
            x >= 0,
    ;
    assert((a >= c) == (a * d >= x)) by (nonlinear_arith)
        requires
            d > 0,
            c * d <= x + d - 1,
            x + d - 1 < c * d + d,
            a >= 0,
    ;
    assert(c * d >= x) by (nonlinear_arith)
        requires
            d > 0,
            x + d - 1 < c * d + d,
    ;
}

/// Law: on a strip with at least as many pixels as segments, pixel `led` shows segment `s`
/// exactly when it lies in the run from `run_start(s)` up to `run_start(s + 1)`: every segment
/// is one unbroken run of pixels.
pub proof fn lemma_segment_runs(led: nat, s: nat, leds: nat, segments: nat)
    requires
        1 <= segments <= leds,
        led < leds,
        s < segments,
    ensures
        (segment_of(led, leds, segments, false) == s) == (run_start(s, leds, segments) <= led < run_start(s + 1, leds, segments)),
{
    let q: int = (led * segments) as int / leds as int;
    assert(0 <= q < segments) by (nonlinear_arith)
        requires
            q == (led * segments) as int / leds as int,
            led < leds,
            leds >= 1,
            segments >= 1,
    {
        assert(led * segments < leds * segments);
    }
    assert(q * leds <= led * segments && led * segments < q * leds + leds) by (nonlinear_arith)
        requires
            q == (led * segments) as int / leds as int,
            leds >= 1,
    ;
    lemma_ceil_compare(led as int, (s * leds) as int, segments as int);
    lemma_ceil_compare(led as int, ((s + 1) * leds) as int, segments as int);
    assert((q == s) == (s * leds <= led * segments && led * segments < (s + 1) * leds)) by (nonlinear_arith)
        requires
            q * leds <= led * segments,
            led * segments < q * leds + leds,
            leds >= 1,
    ;
}

/// Law: the pixels are divided evenly: each segment's run is the pixel count divided by the
/// segment count, rounded down or up. 120 pixels in 16 segments give runs of 7 or 8.
pub proof fn lemma_run_lengths(s: nat, leds: nat, segments: nat)
    requires
        1 <= segments,
        s < segments,
    ensures
        leds / segments <= run_start(s + 1, leds, segments) - run_start(s, leds, segments) <= (leds + segments - 1) / segments as int,
{
    let x: int = (s * leds) as int;
    let d: int = segments as int;
    let l: int = leds as int;
    let c1: int = (x + d - 1) / d;
    let c2: int = (x + l + d - 1) / d;
    let f: int = l / d;
    let g: int = (l + d - 1) / d;
    assert((s + 1) * leds == s * leds + leds) by (nonlinear_arith);
    assert(c1 * d <= x + d - 1 && x + d - 1 < c1 * d + d) by (nonlinear_arith)
        requires
            d > 0,
            c1 == (x + d - 1) / d,
            x >= 0,
    ;
    assert(c2 * d <= x + l + d - 1 && x + l + d - 1 < c2 * d + d) by (nonlinear_arith)
        requires
            d > 0,
            c2 == (x + l + d - 1) / d,
            x + l >= 0,
    ;
    assert(f * d <= l && l < f * d + d) by (nonlinear_arith)
        requires
            d > 0,
            f == l / d,
            l >= 0,
    ;
    assert(g * d <= l + d - 1 && l + d - 1 < g * d + d) by (nonlinear_arith)
        requires
            d > 0,
            g == (l + d - 1) / d,
            l >= 0,
    ;
    assert(f <= c2 - c1 && c2 - c1 <= g) by (nonlinear_arith)
        requires
            d > 0,
            c1 * d <= x + d - 1,
            x + d - 1 < c1 * d + d,
            c2 * d <= x + l + d - 1,
            x + l + d - 1 < c2 * d + d,
            f * d <= l,
            l < f * d + d,
            g * d <= l + d - 1,
            l + d - 1 < g * d + d,
    ;
    assert(c1 >= 0 && c2 >= c1) by (nonlinear_arith)
        requires
            d > 0,
            x >= 0,
            l >= 0,
            c1 == (x + d - 1) / d,
            c2 == (x + l + d - 1) / d,
            c1 * d <= x + d - 1,
            x + d - 1 < c1 * d + d,
            c2 * d <= x + l + d - 1,
            x + l + d - 1 < c2 * d + d,
    ;
}

} // verus!
