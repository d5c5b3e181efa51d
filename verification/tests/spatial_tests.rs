use shellyrgbaudio::spatial::{sample_count, DeviceForm, LayoutSelector, SpeakerLayout, SpeakerRole};

#[test]
fn layouts_from_counts() {
    assert_eq!(SpeakerLayout::from_count(2).describe(), "stereo (FL FR)");
    assert_eq!(SpeakerLayout::from_count(1).describe(), "mono (?)");
    assert_eq!(SpeakerLayout::from_count(6).describe(), "5.1 (FL FR FC LFE SL SR)");
    assert_eq!(SpeakerLayout::from_count(0).describe(), "no channels");
    assert_eq!(SpeakerLayout::from_count(7).len(), 7);
}

#[test]
fn layouts_from_masks() {
    let l = SpeakerLayout::from_channel_mask(0x3F, 6);
    assert_eq!(l.describe(), "5.1 (FL FR FC LFE BL BR)");
    let fallback = SpeakerLayout::from_channel_mask(0x3, 6);
    assert_eq!(fallback.describe(), "5.1 (FL FR FC LFE SL SR)");
}

#[test]
fn height_and_roles() {
    let l = SpeakerLayout::from_channel_mask(0x1003, 3);
    assert!(l.has_height());
    assert!(!SpeakerLayout::from_count(8).has_height());
    assert!(SpeakerRole::Lfe.is_omni());
    assert!(!SpeakerRole::FrontLeft.is_omni());
    assert_eq!(SpeakerRole::TopBackRight.short_name(), "TBR");
}

#[test]
fn resolve_keeps_detected_on_mismatch() {
    let mut warnings = Vec::new();
    let l = SpeakerLayout::from_count(2).resolve(&LayoutSelector::Channels(vec![SpeakerRole::FrontCenter]), &mut warnings);
    assert_eq!(l.describe(), "stereo (FL FR)");
    assert_eq!(warnings, vec!["spatial.layout names 1 channels but the capture format has 2, using the detected layout stereo (FL FR) instead".to_string()]);
}

#[test]
fn resolve_takes_stated_layout() {
    let mut warnings = Vec::new();
    let l = SpeakerLayout::from_count(1).resolve(&LayoutSelector::Channels(vec![SpeakerRole::FrontCenter]), &mut warnings);
    assert_eq!(l.describe(), "mono (FC)");
    assert!(warnings.is_empty());
}

#[test]
fn directional_channels_skip_omni() {
    let l = SpeakerLayout::from_count(6);
    assert_eq!(l.directional_channels(), vec![0, 1, 2, 4, 5]);
}

#[test]
fn sample_counts() {
    assert_eq!(sample_count(DeviceForm::Lamp, 0, 1, 8), 1);
    assert_eq!(sample_count(DeviceForm::Strip, 0, 16, 8), 16);
    assert_eq!(sample_count(DeviceForm::Strip, 0, 1, 8), 8);
    assert_eq!(sample_count(DeviceForm::Strip, 0, 1, 1000), 256);
    assert_eq!(sample_count(DeviceForm::Lamp, 3, 1, 0), 1);
}
