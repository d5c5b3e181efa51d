use shellyrgbaudio::color::Rgbw;
use shellyrgbaudio::govee::{base64, brightness_value, govee_packet, govee_status_of_reply, razer_mode_packet, segment_packets, turn_value, GoveeState};

#[test]
fn packet_frames_and_checksums() {
    let p = govee_packet(&[0x05, 0x02]);
    assert_eq!(p, [51, 5, 2, 0, 0, 0, 0, 0, 0, 0, 0, 0, 0, 0, 0, 0, 0, 0, 0, 52]);
    assert_eq!(p.iter().fold(0u8, |a, b| a ^ b), 0);
}

#[test]
fn packet_cuts_long_payloads() {
    let p = govee_packet(&[1u8; 30]);
    assert_eq!(p[18], 1);
    assert_eq!(p.iter().fold(0u8, |a, b| a ^ b), 0);
}

#[test]
fn razer_packets() {
    assert_eq!(razer_mode_packet(true), [0xBB, 0x00, 0x01, 0xB1, 0x01, 0x0A]);
    assert_eq!(razer_mode_packet(false), [0xBB, 0x00, 0x01, 0xB1, 0x00, 0x0B]);
}

#[test]
fn base64_pads() {
    assert_eq!(base64(b"Man"), "TWFu");
    assert_eq!(base64(b"Ma"), "TWE=");
    assert_eq!(base64(b"M"), "TQ==");
    assert_eq!(base64(&[0xff, 0xee, 0xdd, 0xcc]), "/+7dzA==");
    assert_eq!(base64(&[]), "");
}

#[test]
fn segments_group_by_colour() {
    let red = Rgbw::rgb(255, 0, 0);
    let blue = Rgbw::rgb(0, 0, 255);
    let out = segment_packets(&[red, blue], 4, false);
    assert_eq!(out, vec![
        [51, 5, 21, 1, 255, 0, 0, 0, 0, 0, 0, 0, 0, 0, 3, 0, 0, 0, 0, 222],
        [51, 5, 21, 1, 0, 0, 255, 0, 0, 0, 0, 0, 0, 0, 12, 0, 0, 0, 0, 209],
    ]);
}

#[test]
fn segments_reverse_and_empty() {
    let red = Rgbw::rgb(255, 0, 0);
    let blue = Rgbw::rgb(0, 0, 255);
    let out = segment_packets(&[red, blue], 4, true);
    assert_eq!(out[0][14], 12);
    assert_eq!(out[1][14], 3);
    assert!(segment_packets(&[], 4, false).is_empty());
}

#[test]
fn command_values() {
    assert_eq!(brightness_value(0), 1);
    assert_eq!(brightness_value(55), 55);
    assert_eq!(brightness_value(200), 100);
    assert_eq!(turn_value(true), 1);
    assert_eq!(turn_value(false), 0);
}

#[test]
fn status_defaults_and_caps() {
    let s = GoveeState::from_status(Some(1), None, Some(300), Some(7), None);
    assert!(s.on);
    assert_eq!((s.brightness, s.r, s.g, s.b), (100, 255, 7, 0));
    let s = GoveeState::from_status(Some(0), Some(150), None, None, None);
    assert!(!s.on);
    assert_eq!(s.brightness, 100);
}

#[test]
fn status_reply_is_read_from_msg_data() {
    let reply = br#"{"msg":{"cmd":"devStatus","data":{"onOff":1,"brightness":250,"color":{"r":12,"g":300,"b":7},"colorTemInKelvin":0}}}"#;
    assert_eq!(
        govee_status_of_reply(reply),
        Ok(GoveeState { on: true, brightness: 100, r: 12, g: 255, b: 7 })
    );
    let sparse = br#"{"msg":{"data":{"onOff":0}}}"#;
    assert_eq!(govee_status_of_reply(sparse), Ok(GoveeState { on: false, brightness: 100, r: 0, g: 0, b: 0 }));
}

#[test]
fn status_reply_that_is_not_json_fails() {
    let e = govee_status_of_reply(b"nope").unwrap_err();
    assert!(e.starts_with("parse devStatus: "), "{e}");
    assert_eq!(e, "parse devStatus: expected ident at line 1 column 2");
}
