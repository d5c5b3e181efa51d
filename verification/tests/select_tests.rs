use shellyrgbaudio::config::AudioDeviceSelector;
use shellyrgbaudio::select::{
    choose_device, describe_devices, is_loopback, linux_loopback_hints, linux_no_loopback_help, list_devices, macos_loopback_hints,
    macos_no_loopback_help, pick_device, SelectError, Selection,
};

fn names(v: &[&str]) -> Vec<String> {
    v.iter().map(|s| s.to_string()).collect()
}

#[test]
fn loopback_by_lowercase_name() {
    let hints = linux_loopback_hints();
    assert!(is_loopback("Monitor of Built-in Audio", &hints));
    assert!(is_loopback("alsa_output.pci.analog-stereo.monitor", &hints));
    assert!(!is_loopback("Built-in Microphone", &hints));
    assert!(is_loopback("BlackHole 2ch", &macos_loopback_hints()));
}

#[test]
fn choose_fails_without_devices() {
    assert_eq!(choose_device(&[], &AudioDeviceSelector::Default, &linux_loopback_hints(), None), Err(SelectError::NoDevices));
}

#[test]
fn choose_by_id_exact_then_case_insensitive() {
    let n = names(&["hw:0", "HW:1", "hw:1"]);
    let pick = |id: &str| choose_device(&n, &AudioDeviceSelector::Id { id: id.to_string() }, &linux_loopback_hints(), None);
    assert_eq!(pick("hw:1"), Ok(Selection { index: 2, fell_back_to_input: false }));
    assert_eq!(pick("Hw:0"), Ok(Selection { index: 0, fell_back_to_input: false }));
    assert_eq!(pick("hw:9"), Err(SelectError::NoMatch { wanted: "hw:9".to_string() }));
}

#[test]
fn choose_by_name_substring() {
    let n = names(&["Built-in Microphone", "USB Headset Monitor"]);
    let r = choose_device(&n, &AudioDeviceSelector::Name { name: "HEADSET".to_string() }, &linux_loopback_hints(), None);
    assert_eq!(r, Ok(Selection { index: 1, fell_back_to_input: false }));
    let r = choose_device(&n, &AudioDeviceSelector::Name { name: "Speaker".to_string() }, &linux_loopback_hints(), None);
    assert_eq!(r, Err(SelectError::NoMatch { wanted: "Speaker".to_string() }));
}

#[test]
fn choose_default_prefers_loopback() {
    let n = names(&["Mic", "Monitor of Speakers"]);
    let r = choose_device(&n, &AudioDeviceSelector::Default, &linux_loopback_hints(), Some(0));
    assert_eq!(r, Ok(Selection { index: 1, fell_back_to_input: false }));
    let n = names(&["Mic", "Line in"]);
    assert_eq!(choose_device(&n, &AudioDeviceSelector::Default, &linux_loopback_hints(), Some(1)), Ok(Selection { index: 1, fell_back_to_input: true }));
    assert_eq!(choose_device(&n, &AudioDeviceSelector::Default, &linux_loopback_hints(), Some(7)), Ok(Selection { index: 0, fell_back_to_input: true }));
}

#[test]
fn device_listing() {
    let n = names(&["Mic", "Monitor of Speakers"]);
    assert_eq!(describe_devices(&n, &linux_loopback_hints(), Some(0)), "  - Mic  [default input]\n  - Monitor of Speakers  [system output]");
    assert_eq!(describe_devices(&[], &linux_loopback_hints(), None), "  (no capture devices found)");
    let n = names(&["Monitor"]);
    assert_eq!(describe_devices(&n, &linux_loopback_hints(), Some(0)), "  - Monitor  [system output, default input]");
}

#[test]
fn list_devices_lines() {
    let lines = list_devices(Ok((names(&["Mic"]), None)), &linux_loopback_hints(), linux_no_loopback_help());
    assert_eq!(lines.len(), 5);
    assert_eq!(lines[0], "--- Capture devices (usable in audio.device) ---");
    assert_eq!(lines[1], "  - Mic");
    assert_eq!(lines[2], "");
    assert_eq!(lines[4], linux_no_loopback_help());
    let lines = list_devices(Ok((names(&["x.monitor"]), None)), &linux_loopback_hints(), "help");
    assert_eq!(lines.len(), 4);
    let lines = list_devices(Err("no host".to_string()), &linux_loopback_hints(), "help");
    assert_eq!(lines, vec!["Could not list the audio devices: no host".to_string()]);
}

#[test]
fn pick_device_reports() {
    let hints = linux_loopback_hints();
    let r = pick_device(&[], &AudioDeviceSelector::Default, &hints, None, "help");
    assert_eq!(r.chosen, Err("no capture devices found. help".to_string()));
    let n = names(&["Mic"]);
    let r = pick_device(&n, &AudioDeviceSelector::Default, &hints, None, "help");
    assert_eq!(r.chosen, Ok(0));
    assert_eq!(r.printed, vec!["Warn: no capture device looks like the system's output, falling back to \"Mic\", which is probably a microphone.".to_string(), "help".to_string()]);
    let r = pick_device(&n, &AudioDeviceSelector::Name { name: "x".to_string() }, &hints, None, "help");
    assert_eq!(r.chosen, Err("no capture device matched \"x\"".to_string()));
    assert_eq!(r.printed.len(), 2);
}

#[test]
fn no_loopback_help_texts() {
    assert!(linux_no_loopback_help().starts_with("No monitor source was found."));
    assert!(linux_no_loopback_help().contains("snd-aloop"));
    assert!(macos_no_loopback_help().starts_with("macOS cannot record its own output without help."));
    assert!(macos_no_loopback_help().contains("BlackHole"));
}
