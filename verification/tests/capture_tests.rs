use shellyrgbaudio::capture::{
    app_format, apps_source, captures_apps, describe_device, enumerate_apps, fallback_app_format, frames_to_drop, list_apps,
    process_alive, push_bounded, sort_apps, AppInfo, CaptureFormat,
};
use shellyrgbaudio::config::{AppMatchMode, AppPatterns, AudioDeviceSelector};
use std::collections::VecDeque;
use shellyrgbaudio::capture::app_lines;

fn app(pid: u32, display: &str, playing: bool) -> AppInfo {
    AppInfo { pid, exe: format!("{display}.exe"), display: display.to_string(), playing }
}

#[test]
fn layout_follows_mask_or_count() {
    let f = CaptureFormat { sample_rate: 48000, channels: 6, channel_mask: 0x3F };
    assert_eq!(f.layout().describe(), "5.1 (FL FR FC LFE BL BR)");
    let f = CaptureFormat { sample_rate: 48000, channels: 2, channel_mask: 0 };
    assert_eq!(f.layout().describe(), "stereo (FL FR)");
}

#[test]
fn device_descriptions() {
    assert_eq!(describe_device(&AudioDeviceSelector::Default), "default output device");
    assert_eq!(describe_device(&AudioDeviceSelector::Id { id: "{0.0.0}".to_string() }), "output device {0.0.0}");
    assert_eq!(describe_device(&AudioDeviceSelector::Name { name: "Speakers \"2\"".to_string() }), "output device \"Speakers \\\"2\\\"\"");
}

#[test]
fn app_format_follows_the_device() {
    let mut w = Vec::new();
    let dev = CaptureFormat { sample_rate: 44100, channels: 8, channel_mask: 0x63F };
    let f = app_format(None, None, Ok(dev), &mut w);
    assert_eq!(f, dev);
    assert!(w.is_empty());
}

#[test]
fn app_format_stated_channels_drop_the_mask() {
    let mut w = Vec::new();
    let dev = CaptureFormat { sample_rate: 44100, channels: 8, channel_mask: 0x63F };
    let f = app_format(Some(4000), Some(2), Ok(dev), &mut w);
    assert_eq!(f, CaptureFormat { sample_rate: 8000, channels: 2, channel_mask: 0 });
    assert_eq!(w, vec!["audio.apps.channels is 2 while the output device runs 8 channels, so the capture is 2 channel(s). Remove the setting to follow the device.".to_string()]);
}

#[test]
fn app_format_falls_back_without_device() {
    let mut w = Vec::new();
    let f = app_format(None, Some(12), Err("no endpoint".to_string()), &mut w);
    assert_eq!(f, CaptureFormat { sample_rate: 48000, channels: 8, channel_mask: 0 });
    assert_eq!(w, vec!["could not read the format of the output device (no endpoint), per-app capture falls back to 48000 Hz and 2 channels".to_string()]);
    let mut w = Vec::new();
    let f = app_format(Some(96000), Some(0), Err("x".to_string()), &mut w);
    assert_eq!(f, CaptureFormat { sample_rate: 96000, channels: 1, channel_mask: 0 });
    assert!(w.is_empty());
    assert_eq!(fallback_app_format(), CaptureFormat { sample_rate: 48000, channels: 2, channel_mask: 0 });
}

#[test]
fn drop_counts() {
    assert_eq!(frames_to_drop(10, 5, 100, 2), 0);
    assert_eq!(frames_to_drop(100, 5, 100, 2), 6);
    assert_eq!(frames_to_drop(3, 200, 100, 2), 3);
    assert_eq!(frames_to_drop(99, 1, 99, 8), 8);
}

#[test]
fn bounded_queue_keeps_newest_whole_frames() {
    let mut q: VecDeque<i32> = (0..10).collect();
    push_bounded(&mut q, &[10, 11, 12], 10, 2);
    assert_eq!(q.iter().copied().collect::<Vec<_>>(), vec![4, 5, 6, 7, 8, 9, 10, 11, 12]);
    let mut q: VecDeque<i32> = VecDeque::new();
    push_bounded(&mut q, &[1, 2], 10, 2);
    assert_eq!(q.len(), 2);
}

#[test]
fn apps_sorted_playing_first_then_by_name() {
    let apps = vec![app(1, "zoom", false), app(2, "Brave", true), app(3, "alpha", false), app(4, "Spotify", true), app(5, "Alpha", false)];
    let out = sort_apps(apps);
    let pids: Vec<u32> = out.iter().map(|a| a.pid).collect();
    assert_eq!(pids, vec![2, 4, 3, 5, 1]);
}

#[test]
fn enumerate_apps_passes_failures_on() {
    assert_eq!(enumerate_apps(Err("boom".to_string())).unwrap_err(), "boom");
    let out = enumerate_apps(Ok(vec![app(1, "b", false), app(2, "a", false)])).unwrap();
    assert_eq!(out[0].pid, 2);
}

#[test]
fn no_per_app_capture_here() {
    assert_eq!(list_apps().unwrap_err(), "capturing a single application is only implemented on Windows; set audio.apps.enabled to false to capture the output device instead");
    assert!(!process_alive(1234));
}

#[test]
fn apps_source_lists_patterns() {
    let groups = vec![
        AppPatterns { enabled: true, apps: vec!["chrome".to_string(), " ".to_string(), "spotify ".to_string()] },
        AppPatterns { enabled: false, apps: vec!["discord".to_string()] },
        AppPatterns { enabled: true, apps: vec!["vlc".to_string()] },
    ];
    assert_eq!(apps_source(AppMatchMode::Include, &groups), "apps chrome, spotify , vlc");
    assert_eq!(apps_source(AppMatchMode::Exclude, &groups), "every app except chrome, spotify , vlc");
}

#[test]
fn capture_mode_decision() {
    let groups = vec![AppPatterns { enabled: true, apps: vec!["chrome".to_string()] }];
    let mut w = Vec::new();
    assert!(captures_apps(true, &groups, true, &mut w));
    assert!(w.is_empty());
    assert!(!captures_apps(true, &groups, false, &mut w));
    assert_eq!(w, vec!["audio.apps.enabled is true but capturing a single application is only implemented on Windows, capturing the output device instead".to_string()]);
    let mut w = Vec::new();
    assert!(!captures_apps(false, &groups, true, &mut w));
    assert!(w.is_empty());
}

#[test]
fn app_listing_lines_line_up() {
    let none = app_lines(&vec![]);
    assert_eq!(none, vec!["--- Applications ---".to_string(), "  (none found)".to_string()]);
    let apps = vec![
        AppInfo { pid: 42, exe: "spotify.exe".to_string(), display: "Spotify".to_string(), playing: true },
        AppInfo { pid: 7, exe: "x.exe".to_string(), display: "Übersicht".to_string(), playing: false },
    ];
    let lines = app_lines(&apps);
    assert_eq!(lines.len(), 3);
    assert_eq!(lines[0], "--- Applications (usable in audio.apps.groups[].apps) ---");
    assert_eq!(lines[1], format!("  {:<9}  {:<24} pid {:<8} {}", "Spotify", "spotify.exe", 42, "playing"));
    assert_eq!(lines[2], format!("  {:<9}  {:<24} pid {:<8} {}", "Übersicht", "x.exe", 7, "idle"));
}
