use shellyrgbaudio::color::Rgbw;
use shellyrgbaudio::engine::{rgbw_moved, EngineState};
use shellyrgbaudio::error::{config_err, device_err, engine_err, io_err, AppError};
use shellyrgbaudio::log::{LogHistory, LogLevel, LogLine, LOG_HISTORY};
use shellyrgbaudio::paths::Language;
use shellyrgbaudio::tray::{describe_status, first_line, menu_action, toggle_label, MenuAction};
use shellyrgbaudio::engine::{start_action, RunSlot, StartAction};
use shellyrgbaudio::engine::{pipeline_step, poll_interval_ms, silence_timeout_ms, PipelineAction, PipelineEvent};
use shellyrgbaudio::engine::{applies_segments, frame_changed, gradient_len, runtime_segments, send_due};

#[test]
fn error_kinds_and_messages() {
    let e = config_err(format!("{:#}", anyhow::Error::msg("inner cause").context("outer")));
    assert!(matches!(e, AppError::Config(_)));
    assert_eq!(e.kind(), "config");
    assert_eq!(e.message(), "outer: inner cause");
    assert_eq!(engine_err("x".to_string()).kind(), "engine");
    assert_eq!(device_err("x".to_string()).kind(), "device");
    let io = io_err("disk full".to_string());
    assert_eq!(io.kind(), "io");
    assert_eq!(io.message(), "disk full");
}

#[test]
fn log_history_keeps_the_newest() {
    let mut h = LogHistory::new();
    for i in 0..(LOG_HISTORY + 7) {
        h.push(LogLine { level: LogLevel::Info, message: format!("line {i}") });
    }
    assert_eq!(h.len(), LOG_HISTORY);
    let recent = h.recent();
    assert_eq!(recent[0].message, "line 7");
    assert_eq!(recent[LOG_HISTORY - 1].message, format!("line {}", LOG_HISTORY + 6));
}

#[test]
fn log_history_small() {
    let mut h = LogHistory::new();
    h.push(LogLine { level: LogLevel::Warn, message: "a".to_string() });
    h.push(LogLine { level: LogLevel::Error, message: "b".to_string() });
    let r = h.recent();
    assert_eq!(r.len(), 2);
    assert_eq!(r[1].level, LogLevel::Error);
}

#[test]
fn colour_dead_band() {
    let a = Rgbw::rgb(10, 10, 10);
    assert!(!rgbw_moved(Rgbw::rgb(12, 8, 10), a, 3));
    assert!(rgbw_moved(Rgbw::rgb(13, 7, 10), a, 3));
    assert!(rgbw_moved(Rgbw::rgb(14, 10, 10), a, 3));
    assert!(rgbw_moved(Rgbw { r: 10, g: 10, b: 10, w: 4 }, a, 3));
    assert!(rgbw_moved(a, a, -1));
    assert!(rgbw_moved(a, a, 0));
    assert!(rgbw_moved(Rgbw::rgb(255, 0, 255), Rgbw::rgb(0, 255, 0), 255));
    assert!(!rgbw_moved(Rgbw::rgb(255, 0, 255), Rgbw::rgb(0, 255, 0), 256));
}

#[test]
fn first_lines() {
    assert_eq!(first_line("one\ntwo", 60), "one");
    assert_eq!(first_line("one\r\ntwo", 60), "one");
    assert_eq!(first_line("trailing\r", 60), "trailing\r");
    assert_eq!(first_line("abcdef", 3), "abc…");
    assert_eq!(first_line("", 3), "");
    assert_eq!(first_line("äöü", 3), "äöü");
}

#[test]
fn toggle_labels() {
    assert_eq!(toggle_label(EngineState::Running, Language::English), "Pause");
    assert_eq!(toggle_label(EngineState::Starting, Language::German), "Pause");
    assert_eq!(toggle_label(EngineState::Failed, Language::German), "Fortsetzen");
    assert_eq!(toggle_label(EngineState::Stopped, Language::English), "Resume");
}

#[test]
fn status_lines() {
    assert_eq!(describe_status(EngineState::Stopped, None, None, None, 0, Language::English), "Paused");
    assert_eq!(describe_status(EngineState::Failed, None, None, None, 0, Language::German), "Fehler: unbekannter Fehler");
    assert_eq!(
        describe_status(EngineState::Failed, Some("no device\nmore".to_string()), None, None, 0, Language::English),
        "Error: no device"
    );
    assert_eq!(
        describe_status(EngineState::Running, None, Some("48 kHz".to_string()), Some("stereo (FL FR)".to_string()), 2, Language::English),
        "Running · 48 kHz · stereo (FL FR) · 2 devices"
    );
    assert_eq!(describe_status(EngineState::Running, None, None, None, 1, Language::German), "Läuft · 1 Gerät");
}

#[test]
fn pipeline_reports_silence_once_per_quiet_stretch() {
    assert_eq!(silence_timeout_ms(0), 1);
    assert_eq!(silence_timeout_ms(1500), 1500);
    assert_eq!(poll_interval_ms(1500), 100);
    assert_eq!(poll_interval_ms(40), 40);
    let (d, a) = pipeline_step(false, PipelineEvent::Quiet { quiet_ms: 100 }, 1500);
    assert_eq!((d, a), (false, PipelineAction::Wait));
    let (d, a) = pipeline_step(d, PipelineEvent::Quiet { quiet_ms: 1500 }, 1500);
    assert_eq!((d, a), (true, PipelineAction::SendSilence));
    let (d, a) = pipeline_step(d, PipelineEvent::Quiet { quiet_ms: 9000 }, 1500);
    assert_eq!((d, a), (true, PipelineAction::Wait));
    let (d, a) = pipeline_step(d, PipelineEvent::Analysed { has_signal: false }, 1500);
    assert_eq!((d, a), (true, PipelineAction::SendSound));
    let (d, a) = pipeline_step(d, PipelineEvent::Analysed { has_signal: true }, 1500);
    assert_eq!((d, a), (false, PipelineAction::SendSound));
    let (_, a) = pipeline_step(d, PipelineEvent::Disconnected, 1500);
    assert_eq!(a, PipelineAction::Stop);
}

#[test]
fn sender_decisions() {
    assert!(send_due(50, 50));
    assert!(!send_due(49, 50));
    assert_eq!(runtime_segments(0), 1);
    assert_eq!(runtime_segments(7), 7);
    assert!(applies_segments(3, 3));
    assert!(!applies_segments(1, 3));
    assert!(!applies_segments(3, 0));
    assert_eq!(gradient_len(1), 0);
    assert_eq!(gradient_len(0), 0);
    assert_eq!(gradient_len(5), 5);
    let a = Rgbw { r: 10, g: 10, b: 10, w: 0 };
    let b = Rgbw { r: 12, g: 10, b: 10, w: 0 };
    assert!(frame_changed(a, None, 3, false));
    assert!(!frame_changed(b, Some(a), 3, false));
    assert!(frame_changed(b, Some(a), 1, false));
    assert!(frame_changed(b, Some(a), 2, false));
    assert!(frame_changed(b, Some(a), 3, true));
    assert!(!frame_changed(a, Some(a), 1, false));
    assert!(frame_changed(a, Some(a), 0, false));
}

#[test]
fn tray_menu_entries() {
    assert_eq!(menu_action("settings", true), MenuAction::ShowSettings);
    assert_eq!(menu_action("toggle", true), MenuAction::Stop);
    assert_eq!(menu_action("toggle", false), MenuAction::Start);
    assert_eq!(menu_action("reload", false), MenuAction::Restart);
    assert_eq!(menu_action("quit", true), MenuAction::Quit);
    assert_eq!(menu_action("title", true), MenuAction::Ignore);
}

#[test]
fn starting_the_engine() {
    assert_eq!(start_action(RunSlot::Active), StartAction::KeepRunning);
    assert_eq!(start_action(RunSlot::Empty), StartAction::Launch);
    assert_eq!(start_action(RunSlot::Finished), StartAction::CollectThenLaunch);
}
