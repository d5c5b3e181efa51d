//! The command line of the console program.
use vstd::prelude::*;
use vstd::string::*;
use crate::text::{chars_of, chars_eq, debug_quoted, debug_string, push_str, string_with};

verus! {

/// What the command line asks for.
#[derive(Debug)]
pub enum Invocation {
    /// Print the usage and stop.
    Help,
    /// An option that does not exist: say so, print the usage and stop.
    UnknownOption(String),
    /// List the devices, the applications, or both, and stop.
    List { devices: bool, apps: bool },
    /// Run with the config at this path.
    Run(String),
}

/// Whether two invocations ask for the same thing.
pub open spec fn same_invocation(a: Invocation, b: Invocation) -> bool {
    match (a, b) {
        (Invocation::Help, Invocation::Help) => true,
        (Invocation::UnknownOption(x), Invocation::UnknownOption(y)) => x@ == y@,
        (Invocation::List { devices: d1, apps: a1 }, Invocation::List { devices: d2, apps: a2 }) => d1 == d2 && a1 == a2,
        (Invocation::Run(x), Invocation::Run(y)) => x@ == y@,
        _ => false,
    }
}

/// What the arguments from position `i` on ask for, given what the earlier ones set: the list
/// flags, and the config path (the last plain argument wins). Help stops at once, as does an
/// unknown option; otherwise listing wins over running, and running takes the path given, else
/// the environment's, else `config.json`.
pub open spec fn invocation_from(args: Seq<String>, i: nat, devices: bool, apps: bool, path: Option<Seq<char>>, env: Option<Seq<char>>) -> Invocation
    decreases args.len() - i,
{
    if i >= args.len() {
        if devices || apps {
            Invocation::List { devices, apps }
        } else {
            Invocation::Run(
                string_with(
                    match path {
                        Some(p) => p,
                        None => match env {
                            Some(e) => e,
                            None => "config.json"@,
                        },
                    },
                ),
            )
        }
    } else {
        let a = args[i as int]@;
        if a == "--list-devices"@ {
            invocation_from(args, i + 1, true, apps, path, env)
        } else if a == "--list-apps"@ {
            invocation_from(args, i + 1, devices, true, path, env)
        } else if a == "-h"@ || a == "--help"@ {
            Invocation::Help
        } else if a.len() > 0 && a[0] == '-' {
            Invocation::UnknownOption(string_with(a))
        } else {
            invocation_from(args, i + 1, devices, apps, Some(a), env)
        }
    }
}

/// Whether `flag` is among the arguments from position `from` on.
pub open spec fn flag_given(args: Seq<String>, from: nat, flag: Seq<char>) -> bool {
    exists|k: int| from <= k < args.len() && (#[trigger] args[k])@ == flag
}

proof fn lemma_list_flags_from(args: Seq<String>, i: nat, devices: bool, apps: bool, path: Option<Seq<char>>, env: Option<Seq<char>>)
    ensures
        invocation_from(args, i, devices, apps, path, env) matches Invocation::List { devices: d, apps: a } ==> d == (devices
            || flag_given(args, i, "--list-devices"@)) && a == (apps || flag_given(args, i, "--list-apps"@)),
    decreases args.len() - i,
{
    reveal_strlit("--list-devices");
    reveal_strlit("--list-apps");
    assert("--list-devices"@.len() == 14 && "--list-apps"@.len() == 11);
    if i < args.len() {
        let a = args[i as int]@;
        if a == "--list-devices"@ {
            lemma_list_flags_from(args, i + 1, true, apps, path, env);
        } else if a == "--list-apps"@ {
            lemma_list_flags_from(args, i + 1, devices, true, path, env);
        } else {
            lemma_list_flags_from(args, i + 1, devices, apps, Some(a), env);
        }
        assert forall|f: Seq<char>| flag_given(args, i, f) == ((args[i as int])@ == f || flag_given(args, i + 1, f)) by {
            if flag_given(args, i, f) {
                let k = choose|k: int| i <= k < args.len() && (#[trigger] args[k])@ == f;
                if k != i {
                    assert(i + 1 <= k < args.len() && args[k]@ == f);
                }
            }
            if (args[i as int])@ == f {
                assert(i <= i < args.len() && args[i as int]@ == f);
            }
        }
        assert(flag_given(args, i, "--list-devices"@) == ((args[i as int])@ == "--list-devices"@ || flag_given(
            args,
            i + 1,
            "--list-devices"@,
        )));
        assert(flag_given(args, i, "--list-apps"@) == ((args[i as int])@ == "--list-apps"@ || flag_given(args, i + 1, "--list-apps"@)));
    }
}

/// Law: when the command line asks for listings, it lists the devices exactly when
/// `--list-devices` is among the arguments after the program name, and the applications exactly
/// when `--list-apps` is; neither flag sets the other.
pub proof fn lemma_list_flags(args: Seq<String>, env: Option<Seq<char>>)
    ensures
        invocation_from(args, 1, false, false, None, env) matches Invocation::List { devices, apps } ==> devices
            == flag_given(args, 1, "--list-devices"@) && apps == flag_given(args, 1, "--list-apps"@),
{
    lemma_list_flags_from(args, 1, false, false, None, env);
}

/// Whether an argument is an option: it starts with `-`.
pub open spec fn is_option(a: Seq<char>) -> bool {
    a.len() > 0 && a[0] == '-'
}

proof fn lemma_run_path_from(args: Seq<String>, i: nat, devices: bool, apps: bool, path: Option<Seq<char>>, env: Option<Seq<char>>)
    ensures
        invocation_from(args, i, devices, apps, path, env) matches Invocation::Run(p) ==> {
            &&& !devices && !apps
            &&& forall|k: int| i <= k < args.len() ==> !is_option((#[trigger] args[k])@)
            &&& p == string_with(
                if i < args.len() {
                    args.last()@
                } else {
                    match path {
                        Some(q) => q,
                        None => match env {
                            Some(e) => e,
                            None => "config.json"@,
                        },
                    }
                },
            )
        },
    decreases args.len() - i,
{
    if i < args.len() {
        let a = args[i as int]@;
        if a == "--list-devices"@ {
            lemma_run_path_from(args, i + 1, true, apps, path, env);
        } else if a == "--list-apps"@ {
            lemma_run_path_from(args, i + 1, devices, true, path, env);
        } else {
            lemma_run_path_from(args, i + 1, devices, apps, Some(a), env);
        }
    }
}

/// Law: when the command line asks to run, no argument after the program name is an option, and
/// the config path is the last argument; with none it is `SHELLYRGBAUDIO_CONFIG`, else
/// `config.json`.
pub proof fn lemma_run_takes_last_argument(args: Seq<String>, env: Option<Seq<char>>)
    ensures
        invocation_from(args, 1, false, false, None, env) matches Invocation::Run(p) ==> {
            &&& forall|k: int| 1 <= k < args.len() ==> !is_option((#[trigger] args[k])@)
            &&& p == string_with(
                if args.len() > 1 {
                    args.last()@
                } else {
                    match env {
                        Some(e) => e,
                        None => "config.json"@,
                    }
                },
            )
        },
{
    lemma_run_path_from(args, 1, false, false, None, env);
}

/// The view of an optional string.
pub open spec fn opt_seq(o: Option<String>) -> Option<Seq<char>> {
    match o {
        Some(s) => Some(s@),
        None => None,
    }
}

/// Reads the command line. `args` is the whole command line, program name first; `env` is the
/// value of `SHELLYRGBAUDIO_CONFIG`.
pub fn parse_args(args: &[String], env: Option<String>) -> (r: Invocation)
    ensures
        same_invocation(r, invocation_from(args@, 1, false, false, None, opt_seq(env))),
{
    let list_devices = chars_of("--list-devices");
    let list_apps = chars_of("--list-apps");
    let short_help = chars_of("-h");
    let long_help = chars_of("--help");
    let mut devices = false;
    let mut apps = false;
    let mut path: Option<String> = None;
    let mut i: usize = 1;
    while i < args.len()
        invariant
            1 <= i,
            list_devices@ == "--list-devices"@,
            list_apps@ == "--list-apps"@,
            short_help@ == "-h"@,
            long_help@ == "--help"@,
            invocation_from(args@, 1, false, false, None, opt_seq(env)) == invocation_from(
                args@,
                i as nat,
                devices,
                apps,
                opt_seq(path),
                opt_seq(env),
            ),
        decreases args@.len() - i,
    {
        let a = chars_of(args[i].as_str());
        if chars_eq(&a, &list_devices) {
            devices = true;
        } else if chars_eq(&a, &list_apps) {
            apps = true;
        } else if chars_eq(&a, &short_help) || chars_eq(&a, &long_help) {
            return Invocation::Help;
        } else if a.len() > 0 && a[0] == '-' {
            let unknown = args[i].clone();
            proof {
                let w = args@[i as int]@;
                assert(exists|t: String| t@ == w) by {
                    assert(unknown@ == w);
                }
            }
            return Invocation::UnknownOption(unknown);
        } else {
            path = Some(args[i].clone());
        }
        i = i + 1;
    }
    if devices || apps {
        return Invocation::List { devices, apps };
    }
    let p = match path {
        Some(p) => p,
        None => match env {
            Some(e) => e,
            None => String::from_str("config.json"),
        },
    };
    proof {
        let w = p@;
        assert(exists|t: String| t@ == w) by {
            assert(p@ == w);
        }
    }
    Invocation::Run(p)
}

/// The usage text, one line per entry.
pub fn usage() -> (lines: Vec<&'static str>)
    ensures
        lines@.len() == 3,
        lines@[0]@ == "Usage: ShellyRGBAudio [config.json] [--list-devices] [--list-apps]"@,
        lines@[1]@ == "  --list-devices   print the output devices usable in audio.device"@,
        lines@[2]@ == "  --list-apps      print the applications usable in audio.apps.groups[].apps"@,
{
    vec![
        "Usage: ShellyRGBAudio [config.json] [--list-devices] [--list-apps]",
        "  --list-devices   print the output devices usable in audio.device",
        "  --list-apps      print the applications usable in audio.apps.groups[].apps",
    ]
}

/// What an unknown option is answered with.
pub fn unknown_option_message(option: &str) -> (s: String)
    ensures
        s@ == "Unknown option "@ + debug_quoted(option@) + "."@,
{
    let mut s = String::from_str("Unknown option ");
    let q = debug_string(option);
    push_str(&mut s, q.as_str());
    push_str(&mut s, ".");
    s
}

} // verus!
