use shellyrgbaudio::color::Rgbw;
use shellyrgbaudio::urls::{base_url, host_only, normalize_base, pairing_url};
use shellyrgbaudio::wled::{build_packet, configured_leds, device_name, strip_geometry, WledProtocol};

#[test]
fn base_urls() {
    assert_eq!(normalize_base("192.168.1.70/"), "http://192.168.1.70");
    assert_eq!(normalize_base("https://light.local//"), "https://light.local");
    assert_eq!(normalize_base("http://x"), "http://x");
}

#[test]
fn hosts() {
    assert_eq!(host_only("http://192.168.1.70/json/"), "192.168.1.70");
    assert_eq!(host_only("https://strip.local"), "strip.local");
    assert_eq!(host_only("10.0.0.2"), "10.0.0.2");
}

#[test]
fn hue_urls() {
    assert_eq!(base_url(" http://10.0.0.5/ "), "https://10.0.0.5/clip/v2");
    assert_eq!(base_url("bridge"), "https://bridge/clip/v2");
    assert_eq!(pairing_url("https://10.0.0.5"), "https://10.0.0.5/api");
}

#[test]
fn protocol_constants() {
    assert_eq!(WledProtocol::default(), WledProtocol::Dnrgb);
    assert_eq!((WledProtocol::Warls.id(), WledProtocol::Drgb.id(), WledProtocol::Drgbw.id(), WledProtocol::Dnrgb.id()), (1, 2, 3, 4));
    assert_eq!(WledProtocol::Drgbw.bytes_per_pixel(), 4);
    assert_eq!(WledProtocol::Dnrgb.header_len(), 4);
    assert_eq!(WledProtocol::Drgb.header_len(), 2);
    assert_eq!(WledProtocol::Warls.max_pixels(), 490);
    assert_eq!(WledProtocol::Dnrgb.max_pixels(), 65535);
}

#[test]
fn packets() {
    let red = Rgbw::rgb(255, 0, 0);
    let blue = Rgbw { r: 0, g: 0, b: 255, w: 9 };
    let mut out = vec![7u8; 3];
    build_packet(&mut out, WledProtocol::Drgb, 2, 4, &[red, blue], false);
    assert_eq!(out, vec![2, 2, 255, 0, 0, 255, 0, 0, 0, 0, 255, 0, 0, 255]);
    build_packet(&mut out, WledProtocol::Dnrgb, 1, 2, &[red, blue], true);
    assert_eq!(out, vec![4, 1, 0, 0, 0, 0, 255, 255, 0, 0]);
    build_packet(&mut out, WledProtocol::Drgbw, 2, 1, &[blue], false);
    assert_eq!(out, vec![3, 2, 0, 0, 255, 9]);
    build_packet(&mut out, WledProtocol::Warls, 2, 300, &[red], false);
    assert_eq!(out.len(), 2 + 300 * 4);
    assert_eq!(out[2 + 299 * 4], (299 % 256) as u8);
}

#[test]
fn pixels_divided_evenly() {
    let colors: Vec<Rgbw> = (0..16).map(|i| Rgbw::rgb(i as u8, 0, 0)).collect();
    let mut out = Vec::new();
    build_packet(&mut out, WledProtocol::Drgb, 2, 120, &colors, false);
    let mut runs = vec![0usize; 16];
    for led in 0..120 {
        runs[out[2 + led * 3] as usize] += 1;
    }
    assert!(runs.iter().all(|n| *n == 7 || *n == 8));
}

#[test]
fn geometry() {
    let mut w = Vec::new();
    assert_eq!(strip_geometry("h", WledProtocol::Drgb, Some(1000), 1000, 16, &mut w), (490, 16));
    assert_eq!(w, vec!["Warn: wled h: Drgb can only address 490 pixels, using that instead of 1000.".to_string()]);
    let mut w = Vec::new();
    assert_eq!(strip_geometry("h", WledProtocol::Dnrgb, None, 10, 16, &mut w), (10, 10));
    assert_eq!(strip_geometry("h", WledProtocol::Dnrgb, None, 0, 0, &mut w), (1, 1));
    assert!(w.is_empty());
    assert_eq!(configured_leds(Some(0)), None);
    assert_eq!(configured_leds(Some(60)), Some(60));
    assert_eq!(device_name("10.0.0.9", 60, 8), "wled 10.0.0.9 (60 LEDs, 8 segments)");
}
