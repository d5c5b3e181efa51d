use shellyrgbaudio::i18n::{device_count, effective, error_prefix, pause, quit, reload, resume, running, settings, starting, stopped, unknown_error};
use shellyrgbaudio::paths::{from_cli, resolve_config_path, AppPrefs, Language, Theme, CONFIG_FILE, PREFS_FILE};
use shellyrgbaudio::error::AppError;
use shellyrgbaudio::paths::config_target;

fn args(v: &[&str]) -> Vec<String> {
    v.iter().map(|s| s.to_string()).collect()
}

#[test]
fn cli_config_forms() {
    assert_eq!(from_cli(&args(&["app", "--config=/tmp/a.json"])), Some("/tmp/a.json".to_string()));
    assert_eq!(from_cli(&args(&["app", "x", "--config", "b.json", "--config=c"])), Some("b.json".to_string()));
    assert_eq!(from_cli(&args(&["app", "--config"])), None);
    assert_eq!(from_cli(&args(&["--config=skipped"])), None);
    assert_eq!(from_cli(&args(&["app"])), None);
}

#[test]
fn config_path_precedence() {
    let prefs = AppPrefs { config_path: Some("prefs.json".to_string()), ..AppPrefs::default() };
    let d = "default.json".to_string();
    assert_eq!(resolve_config_path(Some("cli".into()), Some("env".into()), &prefs, Some("port".into()), d.clone()), "cli");
    assert_eq!(resolve_config_path(None, Some("env".into()), &prefs, Some("port".into()), d.clone()), "env");
    assert_eq!(resolve_config_path(None, Some("".into()), &prefs, Some("port".into()), d.clone()), "prefs.json");
    let empty = AppPrefs { config_path: Some(String::new()), ..AppPrefs::default() };
    assert_eq!(resolve_config_path(None, None, &empty, Some("port".into()), d.clone()), "port");
    assert_eq!(resolve_config_path(None, None, &AppPrefs::default(), None, d.clone()), "default.json");
}

#[test]
fn prefs_defaults() {
    let p = AppPrefs::default();
    assert_eq!(p.config_path, None);
    assert_eq!(p.theme, Theme::System);
    assert_eq!(p.language, Language::System);
    assert_eq!(CONFIG_FILE, "config.json");
    assert_eq!(PREFS_FILE, "app.json");
}

#[test]
fn languages() {
    assert_eq!(effective(Language::System), Language::English);
    assert_eq!(effective(Language::German), Language::German);
    assert_eq!(resume(Language::German), "Fortsetzen");
    assert_eq!(resume(Language::System), "Resume");
    assert_eq!(pause(Language::English), "Pause");
    assert_eq!(settings(Language::German), "Einstellungen …");
    assert_eq!(reload(Language::German), "Neu laden");
    assert_eq!(quit(Language::English), "Quit");
    assert_eq!(starting(Language::English), "Starting…");
    assert_eq!(stopped(Language::German), "Angehalten");
    assert_eq!(running(Language::German), "Läuft");
    assert_eq!(unknown_error(Language::German), "unbekannter Fehler");
}

#[test]
fn formatted_texts() {
    assert_eq!(error_prefix(Language::German, "kaputt"), "Fehler: kaputt");
    assert_eq!(error_prefix(Language::System, "broken"), "Error: broken");
    assert_eq!(device_count(Language::English, 1), "1 device");
    assert_eq!(device_count(Language::English, 0), "0 devices");
    assert_eq!(device_count(Language::German, 1), "1 Gerät");
    assert_eq!(device_count(Language::German, 12), "12 Geräte");
}

#[test]
fn config_target_trims_and_refuses_empty() {
    assert_eq!(config_target("  /home/u/c.json \n").unwrap(), "/home/u/c.json");
    match config_target("   ") {
        Err(AppError::Config(m)) => assert_eq!(m, "the config path cannot be empty"),
        other => panic!("unexpected {other:?}"),
    }
}
