use shellyrgbaudio::cli::{parse_args, unknown_option_message, usage, Invocation};

fn args(a: &[&str]) -> Vec<String> {
    a.iter().map(|s| s.to_string()).collect()
}

#[test]
fn no_arguments_run_the_default_config() {
    match parse_args(&args(&["prog"]), None) {
        Invocation::Run(p) => assert_eq!(p, "config.json"),
        other => panic!("unexpected {other:?}"),
    }
}

#[test]
fn environment_names_the_config_when_no_path_is_given() {
    match parse_args(&args(&["prog"]), Some("/etc/x.json".to_string())) {
        Invocation::Run(p) => assert_eq!(p, "/etc/x.json"),
        other => panic!("unexpected {other:?}"),
    }
    match parse_args(&args(&["prog", "a.json", "b.json"]), Some("/etc/x.json".to_string())) {
        Invocation::Run(p) => assert_eq!(p, "b.json"),
        other => panic!("unexpected {other:?}"),
    }
}

#[test]
fn list_flags_win_over_running() {
    match parse_args(&args(&["prog", "a.json", "--list-apps"]), None) {
        Invocation::List { devices, apps } => {
            assert!(!devices);
            assert!(apps);
        }
        other => panic!("unexpected {other:?}"),
    }
    match parse_args(&args(&["prog", "--list-devices", "--list-apps"]), None) {
        Invocation::List { devices, apps } => assert!(devices && apps),
        other => panic!("unexpected {other:?}"),
    }
}

#[test]
fn help_and_unknown_options_stop_at_once() {
    assert!(matches!(parse_args(&args(&["prog", "--list-apps", "-h", "--bogus"]), None), Invocation::Help));
    assert!(matches!(parse_args(&args(&["prog", "--help"]), None), Invocation::Help));
    match parse_args(&args(&["prog", "--bogus", "--help"]), None) {
        Invocation::UnknownOption(o) => assert_eq!(o, "--bogus"),
        other => panic!("unexpected {other:?}"),
    }
    assert_eq!(unknown_option_message("--bogus"), "Unknown option \"--bogus\".");
}

#[test]
fn usage_lists_the_options() {
    let u = usage();
    assert_eq!(u.len(), 3);
    assert_eq!(u[0], "Usage: ShellyRGBAudio [config.json] [--list-devices] [--list-apps]");
    assert!(u[1].starts_with("  --list-devices"));
    assert!(u[2].starts_with("  --list-apps"));
}
