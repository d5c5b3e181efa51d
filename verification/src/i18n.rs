//! The few words the tray menu shows, in English or German.
use vstd::prelude::*;
use vstd::string::*;
use crate::paths::Language;
use crate::text::{decimal, push_decimal, push_str};

verus! {

/// The language actually shown: following the system means English here.
pub open spec fn effective_language(language: Language) -> Language {
    match language {
        Language::System => Language::English,
        other => other,
    }
}

/// The German text when the effective language is German, the English one otherwise.
pub open spec fn in_language(language: Language, en: Seq<char>, de: Seq<char>) -> Seq<char> {
    if effective_language(language) == Language::German {
        de
    } else {
        en
    }
}

/// The language actually shown.
pub fn effective(language: Language) -> (l: Language)
    ensures
        l == effective_language(language),
        l != Language::System,
{
    match language {
        Language::System => Language::English,
        other => other,
    }
}

/// Whether the effective language is German.
fn german(language: Language) -> (b: bool)
    ensures
        b == (effective_language(language) == Language::German),
{
    match effective(language) {
        Language::German => true,
        _ => false,
    }
}

/// The menu entry that pauses the engine.
pub fn pause(language: Language) -> (s: &'static str)
    ensures
        s@ == in_language(language, "Pause"@, "Pause"@),
{
    if german(language) {
        "Pause"
    } else {
        "Pause"
    }
}

/// The menu entry that resumes the engine.
pub fn resume(language: Language) -> (s: &'static str)
    ensures
        s@ == in_language(language, "Resume"@, "Fortsetzen"@),
{
    if german(language) {
        "Fortsetzen"
    } else {
        "Resume"
    }
}

/// The menu entry that opens the settings window.
pub fn settings(language: Language) -> (s: &'static str)
    ensures
        s@ == in_language(language, "Settings…"@, "Einstellungen …"@),
{
    if german(language) {
        "Einstellungen …"
    } else {
        "Settings…"
    }
}

/// The menu entry that reloads the config.
pub fn reload(language: Language) -> (s: &'static str)
    ensures
        s@ == in_language(language, "Reload"@, "Neu laden"@),
{
    if german(language) {
        "Neu laden"
    } else {
        "Reload"
    }
}

/// The menu entry that quits.
pub fn quit(language: Language) -> (s: &'static str)
    ensures
        s@ == in_language(language, "Quit"@, "Beenden"@),
{
    if german(language) {
        "Beenden"
    } else {
        "Quit"
    }
}

/// The status while the engine starts.
pub fn starting(language: Language) -> (s: &'static str)
    ensures
        s@ == in_language(language, "Starting…"@, "Startet …"@),
{
    if german(language) {
        "Startet …"
    } else {
        "Starting…"
    }
}

/// The status while the engine is paused.
pub fn stopped(language: Language) -> (s: &'static str)
    ensures
        s@ == in_language(language, "Paused"@, "Angehalten"@),
{
    if german(language) {
        "Angehalten"
    } else {
        "Paused"
    }
}

/// The status while the engine runs.
pub fn running(language: Language) -> (s: &'static str)
    ensures
        s@ == in_language(language, "Running"@, "Läuft"@),
{
    if german(language) {
        "Läuft"
    } else {
        "Running"
    }
}

/// What a failure without a reason is called.
pub fn unknown_error(language: Language) -> (s: &'static str)
    ensures
        s@ == in_language(language, "unknown error"@, "unbekannter Fehler"@),
{
    if german(language) {
        "unbekannter Fehler"
    } else {
        "unknown error"
    }
}

/// A failure reason with its prefix.
pub fn error_prefix(language: Language, reason: &str) -> (s: String)
    ensures
        s@ == in_language(language, "Error: "@, "Fehler: "@) + reason@,
{
    let mut s = if german(language) {
        String::from_str("Fehler: ")
    } else {
        String::from_str("Error: ")
    };
    push_str(&mut s, reason);
    s
}

/// How many devices are driven, with the noun in singular or plural.
pub open spec fn device_count_text(language: Language, count: nat) -> Seq<char> {
    if count == 1 {
        in_language(language, "1 device"@, "1 Gerät"@)
    } else {
        decimal(count) + in_language(language, " devices"@, " Geräte"@)
    }
}

/// How many devices are driven.
pub fn device_count(language: Language, count: usize) -> (s: String)
    ensures
        s@ == device_count_text(language, count as nat),
{
    let de = german(language);
    if count == 1 {
        return if de {
            String::from_str("1 Gerät")
        } else {
            String::from_str("1 device")
        };
    }
    let mut s = String::new();
    push_decimal(&mut s, count as u64);
    if de {
        push_str(&mut s, " Geräte");
    } else {
        push_str(&mut s, " devices");
    }
    s
}

} // verus!
