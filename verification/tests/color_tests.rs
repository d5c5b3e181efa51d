use shellyrgbaudio::color::{apply_white_channel, band_override_target, d_band_name, d_fallback, Rgbw, WhiteChannel};

#[test]
fn parse_accepts_six_hex_digits() {
    let c = Rgbw::parse("#FF8000").unwrap();
    assert_eq!((c.r, c.g, c.b, c.w), (255, 128, 0, 0));
}

#[test]
fn parse_expands_short_forms() {
    let c = Rgbw::parse("abc").unwrap();
    assert_eq!((c.r, c.g, c.b, c.w), (0xaa, 0xbb, 0xcc, 0));
    let c = Rgbw::parse("  #1234 ").unwrap();
    assert_eq!((c.r, c.g, c.b, c.w), (0x11, 0x22, 0x33, 0x44));
}

#[test]
fn parse_reads_white_from_eight_digits() {
    let c = Rgbw::parse("#01020304").unwrap();
    assert_eq!((c.r, c.g, c.b, c.w), (1, 2, 3, 4));
}

#[test]
fn parse_rejects_non_hex() {
    assert_eq!(Rgbw::parse("zz").unwrap_err(), "color \"zz\" is not hex");
}

#[test]
fn parse_rejects_wrong_length() {
    assert_eq!(Rgbw::parse("#12345").unwrap_err(), "color \"#12345\" has 5 hex digits, expected 3, 4, 6 or 8");
}

#[test]
fn to_hex_writes_white_only_when_set() {
    assert_eq!(Rgbw::rgb(1, 2, 3).to_hex(), "#010203");
    assert_eq!(Rgbw { r: 0xab, g: 0, b: 0xff, w: 4 }.to_hex(), "#AB00FF04");
}

#[test]
fn hex_round_trip() {
    for c in [Rgbw::rgb(0, 0, 0), Rgbw::rgb(255, 17, 3), Rgbw { r: 9, g: 8, b: 7, w: 6 }] {
        assert_eq!(Rgbw::parse(&c.to_hex()).unwrap(), c);
    }
}

#[test]
fn min_channel_moves_common_part_to_white() {
    let out = apply_white_channel(Rgbw::rgb(200, 100, 50), WhiteChannel::MinChannel, 0);
    assert_eq!((out.r, out.g, out.b, out.w), (150, 50, 0, 50));
}

#[test]
fn white_policies() {
    let c = Rgbw { r: 1, g: 2, b: 3, w: 4 };
    assert_eq!(apply_white_channel(c, WhiteChannel::Off, 9).w, 0);
    assert_eq!(apply_white_channel(c, WhiteChannel::Fixed, 9).w, 9);
    assert_eq!(apply_white_channel(c, WhiteChannel::FromColor, 9), c);
}

#[test]
fn defaults() {
    assert_eq!(d_fallback(), Rgbw::rgb(255, 0, 0));
    assert_eq!(d_band_name(), "band");
}

fn band_names() -> Vec<String> {
    vec!["bass".to_string(), "mids".to_string(), "bass".to_string()]
}

#[test]
fn band_override_by_name_takes_the_first_match() {
    assert_eq!(band_override_target(&band_names(), Some("bass"), 1, "lamp"), Ok(0));
    assert_eq!(band_override_target(&band_names(), Some("mids"), 0, "lamp"), Ok(1));
}

#[test]
fn band_override_with_an_unknown_name_is_ignored() {
    assert_eq!(
        band_override_target(&band_names(), Some("treble"), 0, "lamp"),
        Err("device \"lamp\": no global band named \"treble\", ignoring that override".to_string())
    );
}

#[test]
fn band_override_without_a_name_takes_its_position() {
    assert_eq!(band_override_target(&band_names(), None, 2, "lamp"), Ok(2));
    assert_eq!(
        band_override_target(&band_names(), None, 5, "lamp"),
        Err("device \"lamp\": band override #5 has no name and no matching global band, ignoring it".to_string())
    );
}
