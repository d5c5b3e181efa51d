use shellyrgbaudio::config::{
    active_groups, apps_usable, d_app_channels, d_app_rate, d_brightness_floor, d_buffer_hns, d_change_interval, d_deadband_rgb,
    d_fft_size, d_rescan, d_silence_fade, d_silence_timeout, d_strip_samples, d_strobe_ms, d_transition_max, d_transition_min,
    d_true, group_is_active, sanitize_fft_size, sanitize_hop_size, AppPatterns,
};

fn group(enabled: bool, apps: &[&str]) -> AppPatterns {
    AppPatterns { enabled, apps: apps.iter().map(|s| s.to_string()).collect() }
}

#[test]
fn default_values() {
    assert_eq!(d_fft_size(), 1024);
    assert_eq!(d_buffer_hns(), 200_000);
    assert_eq!(d_silence_timeout(), 2000);
    assert_eq!(d_silence_fade(), 800);
    assert!(d_true());
    assert_eq!(d_rescan(), 3000);
    assert_eq!(d_app_rate(), 48_000);
    assert_eq!(d_app_channels(), 2);
    assert_eq!(d_strobe_ms(), 40);
    assert_eq!(d_change_interval(), 120);
    assert_eq!(d_transition_min(), 60);
    assert_eq!(d_transition_max(), 600);
    assert_eq!(d_deadband_rgb(), 3);
    assert_eq!(d_brightness_floor(), 1);
    assert_eq!(d_strip_samples(), 8);
}

#[test]
fn fft_size_rounds_up_and_warns() {
    let mut w = Vec::new();
    assert_eq!(sanitize_fft_size(1000, &mut w), 1024);
    assert_eq!(w, vec!["audio.fft_size 1000 is not a power of two in 64..=16384, using 1024".to_string()]);
}

#[test]
fn fft_size_clamps() {
    let mut w = Vec::new();
    assert_eq!(sanitize_fft_size(10, &mut w), 64);
    assert_eq!(sanitize_fft_size(100_000, &mut w), 16384);
    assert_eq!(w.len(), 2);
}

#[test]
fn fft_size_keeps_powers_of_two() {
    let mut w = Vec::new();
    for n in [64usize, 512, 2048, 16384] {
        assert_eq!(sanitize_fft_size(n, &mut w), n);
    }
    assert!(w.is_empty());
}

#[test]
fn hop_size_rules() {
    let mut w = Vec::new();
    assert_eq!(sanitize_hop_size(256, 1024, &mut w), 256);
    assert!(w.is_empty());
    assert_eq!(sanitize_hop_size(0, 1024, &mut w), 1024);
    assert_eq!(sanitize_hop_size(2048, 1024, &mut w), 1024);
    assert_eq!(w, vec![
        "audio.hop_size 0 is not usable, using fft_size".to_string(),
        "audio.hop_size 2048 is larger than fft_size 1024, clamped".to_string(),
    ]);
}

#[test]
fn groups_need_a_non_blank_pattern() {
    assert!(group_is_active(&group(true, &["  ", "chrome"])));
    assert!(!group_is_active(&group(true, &["  ", ""])));
    assert!(!group_is_active(&group(false, &["chrome"])));
    let groups = vec![group(false, &["a"]), group(true, &["b"]), group(true, &[" "]), group(true, &["c"])];
    assert_eq!(active_groups(&groups), vec![1, 3]);
}

#[test]
fn apps_usable_warns_without_groups() {
    let mut w = Vec::new();
    assert!(!apps_usable(true, &vec![group(true, &[" "])], &mut w));
    assert_eq!(w, vec!["audio.apps.enabled is true but no enabled group names an app, capturing the output device instead".to_string()]);
    let mut w = Vec::new();
    assert!(apps_usable(true, &vec![group(true, &["spotify"])], &mut w));
    assert!(!apps_usable(false, &vec![group(true, &["spotify"])], &mut w));
    assert!(w.is_empty());
}
