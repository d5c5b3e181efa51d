//! Where the configuration lives and the preferences the desktop app keeps beside it.
use vstd::prelude::*;
use vstd::string::*;
use crate::text::{starts_with_seq, chars_of, string_of, starts_with_chars, chars_eq, trimmed, trim_chars};
use crate::error::AppError;

verus! {

/// The file the desktop app keeps its own preferences in.
pub const PREFS_FILE: &'static str = "app.json";

/// The name of the configuration file.
pub const CONFIG_FILE: &'static str = "config.json";

/// The colour scheme of the settings window.
#[derive(Debug, Clone, Copy, PartialEq, Eq, Structural)]
pub enum Theme {
    System,
    Light,
    Dark,
}

impl Default for Theme {
    fn default() -> (t: Self)
        ensures
            t == Theme::System,
    {
        Theme::System
    }
}

/// The language of the window and the tray menu.
#[derive(Debug, Clone, Copy, PartialEq, Eq, Structural)]
pub enum Language {
    System,
    English,
    German,
}

impl Default for Language {
    fn default() -> (l: Self)
        ensures
            l == Language::System,
    {
        Language::System
    }
}

/// The desktop app's own preferences: where the config lives, the theme and the language.
#[derive(Debug, Clone)]
pub struct AppPrefs {
    pub config_path: Option<String>,
    pub theme: Theme,
    pub language: Language,
}

impl Default for AppPrefs {
    fn default() -> (p: Self)
        ensures
            p.config_path is None,
            p.theme == Theme::System,
            p.language == Language::System,
    {
        AppPrefs { config_path: None, theme: Theme::System, language: Language::System }
    }
}

/// A config file that could not be read and was set aside: where its copy went, if a copy could
/// be written, and why it could not be read.
#[derive(Debug, Clone)]
pub struct Recovered {
    pub backup: Option<String>,
    pub error: String,
}

/// The view of an optional string.
pub open spec fn opt_text(o: Option<String>) -> Option<Seq<char>> {
    match o {
        Some(s) => Some(s@),
        None => None,
    }
}

/// The config path given on the command line, looking from argument `i` on: the value of the
/// first `--config=<path>`, or the argument after the first `--config` (nothing when that was the
/// last argument).
pub open spec fn cli_config_from(args: Seq<String>, i: nat) -> Option<Seq<char>>
    decreases args.len() - i,
{
    if i >= args.len() {
        None
    } else if starts_with_seq(args[i as int]@, "--config="@) {
        Some(args[i as int]@.skip(9))
    } else if args[i as int]@ == "--config"@ {
        if i + 1 < args.len() {
            Some(args[i + 1int]@)
        } else {
            None
        }
    } else {
        cli_config_from(args, i + 1)
    }
}

/// The config path named on the command line. `args` is the whole command line, program name
/// first.
pub fn from_cli(args: &[String]) -> (r: Option<String>)
    ensures
        opt_text(r) == cli_config_from(args@, 1),
{
    let prefix = chars_of("--config=");
    let flag = chars_of("--config");
    proof {
        reveal_strlit("--config=");
        reveal_strlit("--config");
    }
    let mut i: usize = 1;
    while i < args.len()
        invariant
            1 <= i,
            prefix@ == "--config="@,
            prefix@.len() == 9,
            flag@ == "--config"@,
            cli_config_from(args@, 1) == cli_config_from(args@, i as nat),
        decreases args@.len() - i,
    {
        let text = chars_of(args[i].as_str());
        if starts_with_chars(&text, &prefix) {
            let mut rest: Vec<char> = Vec::new();
            let mut k: usize = 9;
            while k < text.len()
                invariant
                    9 <= k <= text@.len(),
                    rest@ == text@.subrange(9, k as int),
                decreases text@.len() - k,
            {
                rest.push(text[k]);
                k = k + 1;
                assert(rest@ =~= text@.subrange(9, k as int));
            }
            assert(rest@ =~= text@.skip(9));
            return Some(string_of(&rest));
        }
        if chars_eq(&text, &flag) {
            if i + 1 < args.len() {
                return Some(args[i + 1].clone());
            }
            return None;
        }
        i = i + 1;
    }
    None
}

/// A value that is there and not empty.
pub open spec fn given(o: Option<Seq<char>>) -> bool {
    o is Some && o->Some_0.len() > 0
}

/// Where the config is read from: the first of the command line, the environment variable, the
/// path in the preferences, a config file beside the executable, and the default location that
/// answers. The environment variable and the preferences only answer when not empty.
pub open spec fn config_path_choice(cli: Option<Seq<char>>, env: Option<Seq<char>>, prefs: Option<Seq<char>>, portable: Option<Seq<char>>, default: Seq<char>) -> Seq<char> {
    if cli is Some {
        cli->Some_0
    } else if given(env) {
        env->Some_0
    } else if given(prefs) {
        prefs->Some_0
    } else if portable is Some {
        portable->Some_0
    } else {
        default
    }
}

/// Picks where the config is read from. `cli` is what `from_cli` found, `env` the value of
/// `SHELLYRGBAUDIO_CONFIG`, `portable` a config file beside the executable when there is one,
/// and `default` the per-user location.
pub fn resolve_config_path(cli: Option<String>, env: Option<String>, prefs: &AppPrefs, portable: Option<String>, default: String) -> (p: String)
    ensures
        p@ == config_path_choice(opt_text(cli), opt_text(env), opt_text(prefs.config_path), opt_text(portable), default@),
{
    if let Some(path) = cli {
        return path;
    }
    if let Some(value) = env {
        if value.as_str().unicode_len() > 0 {
            return value;
        }
    }
    if let Some(path) = &prefs.config_path {
        if path.as_str().unicode_len() > 0 {
            return path.clone();
        }
    }
    if let Some(path) = portable {
        return path;
    }
    default
}

/// The path a new config location is stored as: the one given, trimmed; an empty one is refused.
pub fn config_target(path: &str) -> (r: Result<String, AppError>)
    ensures
        match r {
            Ok(t) => trimmed(path@).len() > 0 && t@ == trimmed(path@),
            Err(e) => trimmed(path@).len() == 0 && (e is Config) && e->Config_0@ == "the config path cannot be empty"@,
        },
{
    let c = chars_of(path);
    let t = trim_chars(&c);
    if t.len() == 0 {
        return Err(AppError::Config(String::from_str("the config path cannot be empty")));
    }
    Ok(string_of(&t))
}

} // verus!
