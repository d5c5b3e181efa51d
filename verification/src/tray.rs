//! The tray menu: its status line, the entry that pauses or resumes, and what each entry does.
use vstd::prelude::*;
use vstd::string::*;
use crate::engine::EngineState;
use crate::i18n::{
    in_language, device_count, device_count_text, error_prefix, pause, resume, running, starting, stopped,
    unknown_error,
};
use crate::paths::Language;
use crate::text::{chars_of, chars_eq, push_str, string_of, push_chars};

verus! {

/// The entry that toggles the engine: pause while it runs or starts, resume otherwise.
pub open spec fn toggle_text(state: EngineState, language: Language) -> Seq<char> {
    match state {
        EngineState::Running | EngineState::Starting => in_language(language, "Pause"@, "Pause"@),
        EngineState::Stopped | EngineState::Failed => in_language(language, "Resume"@, "Fortsetzen"@),
    }
}

/// The text of the entry that toggles the engine.
pub fn toggle_label(state: EngineState, language: Language) -> (s: &'static str)
    ensures
        s@ == toggle_text(state, language),
{
    match state {
        EngineState::Running | EngineState::Starting => pause(language),
        EngineState::Stopped | EngineState::Failed => resume(language),
    }
}

/// The position of the first line break at or after `i`, or the length when there is none.
pub open spec fn line_end(text: Seq<char>, i: nat) -> nat
    decreases text.len() - i,
{
    if i >= text.len() {
        text.len()
    } else if text[i as int] == '\n' {
        i
    } else {
        line_end(text, i + 1)
    }
}

/// The first line of `text` as `str::lines` gives it: everything before the first `\n`, without
/// a `\r` right before that `\n`.
pub open spec fn first_line_of(text: Seq<char>) -> Seq<char> {
    let p = line_end(text, 0);
    if p < text.len() && p > 0 && text[p - 1] == '\r' {
        text.take(p - 1)
    } else {
        text.take(p as int)
    }
}

/// `line`, cut to `max` characters with an ellipsis when it is longer.
pub open spec fn shortened(line: Seq<char>, max: nat) -> Seq<char> {
    if line.len() > max {
        line.take(max as int) + "…"@
    } else {
        line
    }
}

/// The first line of `text`, cut to `max` characters with an ellipsis.
pub fn first_line(text: &str, max: usize) -> (s: String)
    ensures
        s@ == shortened(first_line_of(text@), max as nat),
{
    let chars = chars_of(text);
    let mut p: usize = 0;
    while p < chars.len() && chars[p] != '\n'
        invariant
            p <= chars@.len(),
            line_end(chars@, 0) == line_end(chars@, p as nat),
        decreases chars@.len() - p,
    {
        p = p + 1;
    }
    let end: usize = if p < chars.len() && p > 0 && chars[p - 1] == '\r' {
        p - 1
    } else {
        p
    };
    let ghost line = first_line_of(text@);
    assert(line =~= chars@.take(end as int));
    let keep: usize = if end > max {
        max
    } else {
        end
    };
    let mut cut: Vec<char> = Vec::new();
    let mut k: usize = 0;
    while k < keep
        invariant
            keep <= end <= chars@.len(),
            k <= keep,
            cut@ == chars@.take(k as int),
        decreases keep - k,
    {
        cut.push(chars[k]);
        k = k + 1;
        assert(cut@ =~= chars@.take(k as int));
    }
    let mut s = string_of(&cut);
    if end > max {
        push_str(&mut s, "…");
        assert(s@ =~= shortened(line, max as nat));
    } else {
        assert(s@ =~= shortened(line, max as nat));
    }
    s
}

/// The parts of the status line while the engine runs, joined by ` · `: the word for running,
/// the sample rate and the layout when known, and the device count.
pub open spec fn running_line(language: Language, rate: Option<Seq<char>>, layout: Option<Seq<char>>, devices: nat) -> Seq<char> {
    let base = in_language(language, "Running"@, "Läuft"@);
    let with_rate = match rate {
        Some(r) => base + " · "@ + r,
        None => base,
    };
    let with_layout = match layout {
        Some(l) => with_rate + " · "@ + l,
        None => with_rate,
    };
    with_layout + " · "@ + device_count_text(language, devices)
}

/// The status line of the tray menu for each engine state. A failure shows the first line of its
/// reason, at most sixty characters of it.
pub open spec fn status_text(state: EngineState, error: Option<Seq<char>>, rate: Option<Seq<char>>, layout: Option<Seq<char>>, devices: nat, language: Language) -> Seq<char> {
    match state {
        EngineState::Stopped => in_language(language, "Paused"@, "Angehalten"@),
        EngineState::Starting => in_language(language, "Starting…"@, "Startet …"@),
        EngineState::Failed => {
            let reason = match error {
                Some(e) => e,
                None => in_language(language, "unknown error"@, "unbekannter Fehler"@),
            };
            in_language(language, "Error: "@, "Fehler: "@) + shortened(first_line_of(reason), 60)
        },
        EngineState::Running => running_line(language, rate, layout, devices),
    }
}

/// The view of an optional string.
pub open spec fn text_of(o: Option<String>) -> Option<Seq<char>> {
    match o {
        Some(s) => Some(s@),
        None => None,
    }
}

/// The status line of the tray menu. `rate` is the sample rate as already written out in kHz.
pub fn describe_status(state: EngineState, error: Option<String>, rate: Option<String>, layout: Option<String>, devices: usize, language: Language) -> (s: String)
    ensures
        s@ == status_text(state, text_of(error), text_of(rate), text_of(layout), devices as nat, language),
{
    match state {
        EngineState::Stopped => String::from_str(stopped(language)),
        EngineState::Starting => String::from_str(starting(language)),
        EngineState::Failed => {
            let line = match &error {
                Some(e) => first_line(e.as_str(), 60),
                None => first_line(unknown_error(language), 60),
            };
            error_prefix(language, line.as_str())
        },
        EngineState::Running => {
            let mut s = String::from_str(running(language));
            if let Some(r) = &rate {
                push_str(&mut s, " · ");
                push_str(&mut s, r.as_str());
            }
            if let Some(l) = &layout {
                push_str(&mut s, " · ");
                push_str(&mut s, l.as_str());
            }
            push_str(&mut s, " · ");
            let d = device_count(language, devices);
            push_str(&mut s, d.as_str());
            s
        },
    }
}

/// What a tray menu entry asks for.
#[derive(Debug, Clone, Copy, PartialEq, Eq, Structural)]
pub enum MenuAction {
    ShowSettings,
    Stop,
    Start,
    Restart,
    Quit,
    Ignore,
}

/// The action for a menu entry: `settings` shows the window, `toggle` stops a running engine and
/// starts a stopped one, `reload` restarts it, `quit` quits; other entries do nothing.
pub open spec fn action_for(id: Seq<char>, running: bool) -> MenuAction {
    if id == "settings"@ {
        MenuAction::ShowSettings
    } else if id == "toggle"@ {
        if running {
            MenuAction::Stop
        } else {
            MenuAction::Start
        }
    } else if id == "reload"@ {
        MenuAction::Restart
    } else if id == "quit"@ {
        MenuAction::Quit
    } else {
        MenuAction::Ignore
    }
}

/// What clicking the tray menu entry `id` does, given whether the engine runs.
pub fn menu_action(id: &str, running: bool) -> (a: MenuAction)
    ensures
        a == action_for(id@, running),
{
    let c = chars_of(id);
    let settings = chars_of("settings");
    let toggle = chars_of("toggle");
    let reload = chars_of("reload");
    let quit = chars_of("quit");
    if chars_eq(&c, &settings) {
        MenuAction::ShowSettings
    } else if chars_eq(&c, &toggle) {
        if running {
            MenuAction::Stop
        } else {
            MenuAction::Start
        }
    } else if chars_eq(&c, &reload) {
        MenuAction::Restart
    } else if chars_eq(&c, &quit) {
        MenuAction::Quit
    } else {
        MenuAction::Ignore
    }
}

} // verus!
