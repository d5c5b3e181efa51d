//! Colours: the RGBW value a light is driven with, its hex notation, and the
//! white-channel policy applied to a mixed colour, and which global band a device's band
//! override addresses.
use vstd::prelude::*;

use vstd::string::*;

use crate::text::{
    char_is_hex_digit, chars_eq, chars_of, debug_quoted, debug_string, decimal, is_hex_digit, is_whitespace,
    push_char, push_decimal, push_str, trim_chars, trim_end_ws, trim_start_char, trim_start_char_chars,
    trim_start_ws, trimmed,
};

verus! {

/// A light's colour: red, green, blue and white, one byte each.
#[derive(Debug, Clone, Copy, PartialEq, Eq, Structural, Default)]
pub struct Rgbw {
    pub r: u8,
    pub g: u8,
    pub b: u8,
    pub w: u8,
}

/// How frequencies are spaced between two colour stops.
#[derive(Debug, Clone, Copy, PartialEq, Eq, Structural, Default)]
pub enum Scale {
    #[default]
    Log,
    Linear,
}

/// How two colours are blended.
#[derive(Debug, Clone, Copy, PartialEq, Eq, Structural, Default)]
pub enum Interpolation {
    /// Straight blend of the 8-bit channels.
    #[default]
    Srgb,
    /// Blend in linear light, so the midpoint keeps the combined energy.
    LinearLight,
    /// Blend the hue along the shorter way around the colour wheel.
    Hsv,
}

/// What drives the white channel of the colour sent to a light.
#[derive(Debug, Clone, Copy, PartialEq, Eq, Structural, Default)]
pub enum WhiteChannel {
    /// White stays off.
    #[default]
    Off,
    /// The common part of red, green and blue moves into white.
    MinChannel,
    /// Whatever white the stops or band colours carried.
    FromColor,
    /// Always the configured fixed white.
    Fixed,
}

// ---------------------------------------------------------------- hex notation

/// The value of a hexadecimal digit.
pub open spec fn hex_value(c: char) -> int {
    if '0' <= c && c <= '9' {
        c as int - '0' as int
    } else if 'a' <= c && c <= 'f' {
        c as int - 'a' as int + 10
    } else if 'A' <= c && c <= 'F' {
        c as int - 'A' as int + 10
    } else {
        0
    }
}

/// Whether every character of `h` is a hexadecimal digit.
pub open spec fn all_hex(h: Seq<char>) -> bool {
    forall|i: int| 0 <= i < h.len() ==> is_hex_digit(#[trigger] h[i])
}

/// One hex digit widened to a byte: `F` is 255, `8` is 136.
pub open spec fn nibble_at(h: Seq<char>, i: int) -> u8 {
    (hex_value(h[i]) * 17) as u8
}

/// Two hex digits read as one byte.
pub open spec fn byte_at(h: Seq<char>, i: int) -> u8 {
    (hex_value(h[i]) * 16 + hex_value(h[i + 1])) as u8
}

/// The digits that remain of a colour text once whitespace and leading `#` are gone.
pub open spec fn hex_digits_of(s: Seq<char>) -> Seq<char> {
    trim_start_char(trimmed(s), '#')
}

/// The colour that three, four, six or eight hex digits stand for; the last digit or pair is white.
pub open spec fn color_of_digits(h: Seq<char>) -> Option<Rgbw> {
    if h.len() == 3 {
        Some(Rgbw { r: nibble_at(h, 0), g: nibble_at(h, 1), b: nibble_at(h, 2), w: 0 })
    } else if h.len() == 4 {
        Some(Rgbw { r: nibble_at(h, 0), g: nibble_at(h, 1), b: nibble_at(h, 2), w: nibble_at(h, 3) })
    } else if h.len() == 6 {
        Some(Rgbw { r: byte_at(h, 0), g: byte_at(h, 2), b: byte_at(h, 4), w: 0 })
    } else if h.len() == 8 {
        Some(Rgbw { r: byte_at(h, 0), g: byte_at(h, 2), b: byte_at(h, 4), w: byte_at(h, 6) })
    } else {
        None
    }
}

/// The message for a colour text that holds something other than hex digits.
pub open spec fn not_hex_message(s: Seq<char>) -> Seq<char> {
    "color "@ + debug_quoted(s) + " is not hex"@
}

/// The message for a colour text with an unusable number of digits.
pub open spec fn digit_count_message(s: Seq<char>, n: nat) -> Seq<char> {
    "color "@ + debug_quoted(s) + " has "@ + decimal(n) + " hex digits, expected 3, 4, 6 or 8"@
}

/// What reading the colour text `s` gives: the colour, or the message saying why not.
pub open spec fn color_parse(s: Seq<char>) -> Result<Rgbw, Seq<char>> {
    let h = hex_digits_of(s);
    if !all_hex(h) {
        Err(not_hex_message(s))
    } else {
        match color_of_digits(h) {
            Some(c) => Ok(c),
            None => Err(digit_count_message(s, h.len())),
        }
    }
}

/// The upper-case hex digit for a value below sixteen.
pub open spec fn hex_upper(v: int) -> char {
    if v < 10 {
        ('0' as int + v) as char
    } else {
        ('A' as int + v - 10) as char
    }
}

/// A byte as two upper-case hex digits.
pub open spec fn hex_pair(b: u8) -> Seq<char> {
    seq![hex_upper(b as int / 16), hex_upper(b as int % 16)]
}

/// `#RRGGBB`, or `#RRGGBBWW` when the white channel is on.
pub open spec fn hex_text(c: Rgbw) -> Seq<char> {
    seq!['#'] + hex_pair(c.r) + hex_pair(c.g) + hex_pair(c.b) + (if c.w == 0 {
        Seq::<char>::empty()
    } else {
        hex_pair(c.w)
    })
}

/// The white-channel policy applied to a finished colour.
pub open spec fn with_white(c: Rgbw, white: WhiteChannel, fixed: u8) -> Rgbw {
    match white {
        WhiteChannel::Off => Rgbw { w: 0, ..c },
        WhiteChannel::FromColor => c,
        WhiteChannel::Fixed => Rgbw { w: fixed, ..c },
        WhiteChannel::MinChannel => {
            let m = min_u8(min_u8(c.r, c.g), c.b);
            Rgbw { r: (c.r - m) as u8, g: (c.g - m) as u8, b: (c.b - m) as u8, w: m }
        },
    }
}

/// The smaller of two bytes.
pub open spec fn min_u8(a: u8, b: u8) -> u8 {
    if a <= b {
        a
    } else {
        b
    }
}

/// The value of one hex digit.
fn hex_digit_value(c: char) -> (v: u8)
    requires
        is_hex_digit(c),
    ensures
        v as int == hex_value(c),
        v < 16,
{
    if '0' <= c && c <= '9' {
        ((c as u32) - 48) as u8
    } else if 'a' <= c && c <= 'f' {
        ((c as u32) - 87) as u8
    } else {
        ((c as u32) - 55) as u8
    }
}

/// The upper-case hex digit of a value below sixteen.
fn hex_upper_char(v: u8) -> (c: char)
    requires
        v < 16,
    ensures
        c == hex_upper(v as int),
{
    if v < 10 {
        (48u8 + v) as char
    } else {
        (55u8 + v) as char
    }
}

/// Lemma: the upper-case digit of `v` is a hex digit that reads back as `v`.
pub proof fn lemma_hex_upper_reads_back(v: int)
    requires
        0 <= v < 16,
    ensures
        is_hex_digit(hex_upper(v)),
        hex_value(hex_upper(v)) == v,
        !is_whitespace(hex_upper(v)),
        hex_upper(v) != '#',
{
}

impl Rgbw {
    /// A colour with the white channel off.
    pub fn rgb(r: u8, g: u8, b: u8) -> (c: Self)
        ensures
            c == (Rgbw { r, g, b, w: 0 }),
    {
        Rgbw { r, g, b, w: 0 }
    }

    /// Reads a colour written as three, four, six or eight hex digits, with or without a leading
    /// `#` and surrounding whitespace. The last digit or pair, where there are four or eight, is white.
    pub fn parse(s: &str) -> (r: Result<Self, String>)
        ensures
            match color_parse(s@) {
                Ok(c) => r == Ok::<Rgbw, String>(c),
                Err(m) => r matches Err(e) && e@ == m,
            },
    {
        let chars = chars_of(s);
        let t = trim_chars(&chars);
        let h = trim_start_char_chars(&t, '#');
        let mut i: usize = 0;
        while i < h.len()
            invariant
                i <= h.len(),
                h@ == hex_digits_of(s@),
                forall|k: int| 0 <= k < i ==> is_hex_digit(#[trigger] h@[k]),
            decreases h.len() - i,
        {
            if !char_is_hex_digit(h[i]) {
                assert(!is_hex_digit(h@[i as int]));
                assert(!all_hex(h@));
                let mut m = String::new();
                push_str(&mut m, "color ");
                let q = debug_string(s);
                push_str(&mut m, q.as_str());
                push_str(&mut m, " is not hex");
                assert(m@ =~= not_hex_message(s@));
                assert(color_parse(s@) == Err::<Rgbw, Seq<char>>(not_hex_message(s@)));
                return Err(m);
            }
            i = i + 1;
        }
        let n = h.len();
        if n == 3 {
            Ok(Rgbw {
                r: hex_digit_value(h[0]) * 17,
                g: hex_digit_value(h[1]) * 17,
                b: hex_digit_value(h[2]) * 17,
                w: 0,
            })
        } else if n == 4 {
            Ok(Rgbw {
                r: hex_digit_value(h[0]) * 17,
                g: hex_digit_value(h[1]) * 17,
                b: hex_digit_value(h[2]) * 17,
                w: hex_digit_value(h[3]) * 17,
            })
        } else if n == 6 {
            Ok(Rgbw {
                r: hex_digit_value(h[0]) * 16 + hex_digit_value(h[1]),
                g: hex_digit_value(h[2]) * 16 + hex_digit_value(h[3]),
                b: hex_digit_value(h[4]) * 16 + hex_digit_value(h[5]),
                w: 0,
            })
        } else if n == 8 {
            Ok(Rgbw {
                r: hex_digit_value(h[0]) * 16 + hex_digit_value(h[1]),
                g: hex_digit_value(h[2]) * 16 + hex_digit_value(h[3]),
                b: hex_digit_value(h[4]) * 16 + hex_digit_value(h[5]),
                w: hex_digit_value(h[6]) * 16 + hex_digit_value(h[7]),
            })
        } else {
            let mut m = String::new();
            push_str(&mut m, "color ");
            let q = debug_string(s);
            push_str(&mut m, q.as_str());
            push_str(&mut m, " has ");
            push_decimal(&mut m, n as u64);
            push_str(&mut m, " hex digits, expected 3, 4, 6 or 8");
            assert(m@ =~= digit_count_message(s@, n as nat));
            Err(m)
        }
    }

    /// `#RRGGBB` in upper case, or `#RRGGBBWW` when the white channel is on.
    pub fn to_hex(self) -> (s: String)
        ensures
            s@ == hex_text(self),
    {
        let mut s = String::new();
        push_char(&mut s, '#');
        push_hex_pair(&mut s, self.r);
        push_hex_pair(&mut s, self.g);
        push_hex_pair(&mut s, self.b);
        if self.w != 0 {
            push_hex_pair(&mut s, self.w);
        }
        assert(s@ =~= hex_text(self));
        s
    }
}

/// Appends a byte as two upper-case hex digits.
fn push_hex_pair(s: &mut String, b: u8)
    ensures
        final(s)@ == old(s)@ + hex_pair(b),
{
    push_char(s, hex_upper_char(b / 16));
    push_char(s, hex_upper_char(b % 16));
    assert(s@ =~= old(s)@ + hex_pair(b));
}

/// Law: a colour written out as hex reads back as the same colour.
pub proof fn lemma_hex_round_trip(c: Rgbw)
    ensures
        color_parse(hex_text(c)) == Ok::<Rgbw, Seq<char>>(c),
{
    let s = hex_text(c);
    let body = hex_pair(c.r) + hex_pair(c.g) + hex_pair(c.b) + (if c.w == 0 {
        Seq::<char>::empty()
    } else {
        hex_pair(c.w)
    });
    assert(s =~= seq!['#'] + body);
    lemma_hex_upper_reads_back(c.r as int / 16);
    lemma_hex_upper_reads_back(c.r as int % 16);
    lemma_hex_upper_reads_back(c.g as int / 16);
    lemma_hex_upper_reads_back(c.g as int % 16);
    lemma_hex_upper_reads_back(c.b as int / 16);
    lemma_hex_upper_reads_back(c.b as int % 16);
    lemma_hex_upper_reads_back(c.w as int / 16);
    lemma_hex_upper_reads_back(c.w as int % 16);
    assert(!is_whitespace(s[0]));
    assert(trim_start_ws(s) == s);
    assert(s.last() == body.last());
    assert(!is_whitespace(s.last()));
    assert(trim_end_ws(s) == s);
    assert(trimmed(s) == s);
    assert(s.drop_first() =~= body);
    assert(body[0] != '#');
    assert(trim_start_char(body, '#') == body);
    assert(trim_start_char(s, '#') == body);
    assert(hex_digits_of(s) == body);
    assert(all_hex(body));
    if c.w == 0 {
        assert(body.len() == 6);
    } else {
        assert(body.len() == 8);
    }
    assert(byte_at(body, 0) == c.r);
    assert(byte_at(body, 2) == c.g);
    assert(byte_at(body, 4) == c.b);
    if c.w != 0 {
        assert(byte_at(body, 6) == c.w);
    }
}

/// Applies the white-channel policy to a finished colour: off clears white, a fixed level
/// replaces it, and the minimum-channel policy moves the common part of red, green and blue into white.
pub fn apply_white_channel(c: Rgbw, white: WhiteChannel, fixed: u8) -> (out: Rgbw)
    ensures
        out == with_white(c, white, fixed),
{
    match white {
        WhiteChannel::Off => Rgbw { w: 0, ..c },
        WhiteChannel::FromColor => c,
        WhiteChannel::Fixed => Rgbw { w: fixed, ..c },
        WhiteChannel::MinChannel => {
            let m = if c.r <= c.g { c.r } else { c.g };
            let m = if m <= c.b { m } else { c.b };
            Rgbw { r: c.r - m, g: c.g - m, b: c.b - m, w: m }
        },
    }
}

/// Law: moving the common part into white leaves at least one of red, green and blue at zero and
/// loses no light, since each colour channel plus white gives back the channel it came from.
pub proof fn lemma_min_channel_white(c: Rgbw, fixed: u8)
    ensures
        ({
            let o = with_white(c, WhiteChannel::MinChannel, fixed);
            &&& o.r == 0 || o.g == 0 || o.b == 0
            &&& o.r + o.w == c.r
            &&& o.g + o.w == c.g
            &&& o.b + o.w == c.b
        }),
{
}

/// The colour shown when nothing is playing and nothing else can answer: red.
pub fn d_fallback() -> (c: Rgbw)
    ensures
        c == (Rgbw { r: 255, g: 0, b: 0, w: 0 }),
{
    Rgbw::rgb(255, 0, 0)
}

/// The name a band gets when the config gives it none.
pub fn d_band_name() -> (s: String)
    ensures
        s@ == "band"@,
{
    String::from_str("band")
}

/// The first band from position `from` on whose name is `name`.
pub open spec fn band_named(names: Seq<String>, name: Seq<char>, from: nat) -> Option<nat>
    decreases names.len() - from,
{
    if from >= names.len() {
        None
    } else if names[from as int]@ == name {
        Some(from)
    } else {
        band_named(names, name, from + 1)
    }
}

/// Which global band a device's band override addresses, or the warning when it addresses none:
/// an override with a name takes the first band of that name; one without a name takes the band
/// at its own position in the override list, if there is one.
pub open spec fn override_target(names: Seq<String>, name: Option<Seq<char>>, position: nat, tag: Seq<char>) -> Result<nat, Seq<char>> {
    match name {
        Some(n) => match band_named(names, n, 0) {
            Some(i) => Ok(i),
            None => Err(
                "device "@ + debug_quoted(tag) + ": no global band named "@ + debug_quoted(n) + ", ignoring that override"@,
            ),
        },
        None => if position < names.len() {
            Ok(position)
        } else {
            Err(
                "device "@ + debug_quoted(tag) + ": band override #"@ + decimal(position)
                    + " has no name and no matching global band, ignoring it"@,
            )
        },
    }
}

/// The view of an optional text.
pub open spec fn opt_str_view(o: Option<&str>) -> Option<Seq<char>> {
    match o {
        Some(s) => Some(s@),
        None => None,
    }
}

/// Which global band the override at `position` of a device's `bands` list addresses, given the
/// names of the global bands and the override's `name`, if it has one; or the warning to log
/// when it addresses none.
pub fn band_override_target(global_names: &Vec<String>, name: Option<&str>, position: usize, tag: &str) -> (r: Result<usize, String>)
    ensures
        match override_target(global_names@, opt_str_view(name), position as nat, tag@) {
            Ok(i) => r is Ok && r->Ok_0 as nat == i,
            Err(m) => r is Err && r->Err_0@ == m,
        },
{
    match name {
        Some(n) => {
            let wanted = chars_of(n);
            let mut i: usize = 0;
            while i < global_names.len()
                invariant
                    i <= global_names@.len(),
                    wanted@ == n@,
                    opt_str_view(name) == Some(n@),
                    band_named(global_names@, n@, 0) == band_named(global_names@, n@, i as nat),
                decreases global_names@.len() - i,
            {
                let have = chars_of(global_names[i].as_str());
                if chars_eq(&have, &wanted) {
                    assert(global_names@[i as int]@ == n@);
                    assert(band_named(global_names@, n@, i as nat) == Some(i as nat));
                    return Ok(i);
                }
                assert(global_names@[i as int]@ != n@);
                i = i + 1;
            }
            let mut m = String::from_str("device ");
            let q = debug_string(tag);
            push_str(&mut m, q.as_str());
            push_str(&mut m, ": no global band named ");
            let qn = debug_string(n);
            push_str(&mut m, qn.as_str());
            push_str(&mut m, ", ignoring that override");
            Err(m)
        },
        None => {
            if position < global_names.len() {
                return Ok(position);
            }
            let mut m = String::from_str("device ");
            let q = debug_string(tag);
            push_str(&mut m, q.as_str());
            push_str(&mut m, ": band override #");
            push_decimal(&mut m, position as u64);
            push_str(&mut m, " has no name and no matching global band, ignoring it");
            Err(m)
        },
    }
}

} // verus!
