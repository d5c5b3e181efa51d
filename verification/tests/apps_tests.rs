use std::collections::{HashMap, HashSet};

use shellyrgbaudio::apps::{
    add_session, display_name, has_ancestor_in, matches_group, matches_pattern, parents_of, resolve_targets,
    session_apps, wide, wide_to_string, ProcEntry,
};
use shellyrgbaudio::apps::description_key;
use shellyrgbaudio::config::{AppMatchMode, AppPatterns};

fn proc(pid: u32, parent: u32, exe: &str, display: &str) -> ProcEntry {
    ProcEntry { pid, parent, exe: exe.to_string(), display: display.to_string() }
}

fn table() -> Vec<ProcEntry> {
    vec![
        proc(10, 1, "chrome.exe", "Google Chrome"),
        proc(11, 10, "chrome.exe", "Google Chrome"),
        proc(12, 11, "renderer.exe", "Renderer"),
        proc(20, 1, "Spotify.exe", "Spotify"),
        proc(30, 1, "game.exe", "Some Game"),
        proc(99, 1, "shellyrgbaudio.exe", "ShellyRGBAudio"),
    ]
}

#[test]
fn patterns_match_executable_or_display_name() {
    let p = proc(1, 0, "Spotify.exe", "Spotify Premium");
    assert!(matches_pattern("spotify.exe", &p));
    assert!(matches_pattern(" SPOTIFY ", &p));
    assert!(matches_pattern("premium", &p));
    assert!(!matches_pattern("   ", &p));
    assert!(!matches_pattern("discord", &p));
    assert!(matches_group(&vec!["discord".to_string(), "spotify".to_string()], &p));
    assert!(!matches_group(&vec![], &p));
}

#[test]
fn ancestry_walks_up_the_parent_chain() {
    let parents = parents_of(&table());
    let mut set = HashSet::new();
    set.insert(10u32);
    assert!(has_ancestor_in(12, &set, &parents));
    assert!(has_ancestor_in(11, &set, &parents));
    assert!(!has_ancestor_in(10, &set, &parents));
    assert!(!has_ancestor_in(20, &set, &parents));
    let mut looped: HashMap<u32, u32> = HashMap::new();
    looped.insert(5, 5);
    assert!(!has_ancestor_in(5, &set, &looped));
}

#[test]
fn sessions_merge_per_process() {
    let mut s = Vec::new();
    add_session(&mut s, 20, false);
    add_session(&mut s, 10, false);
    add_session(&mut s, 20, true);
    add_session(&mut s, 10, false);
    assert_eq!(s, vec![(20, true), (10, false)]);
}

#[test]
fn session_listing_names_system_sounds_and_skips_gone_processes() {
    let apps = session_apps(&table(), &vec![(0, true), (20, false), (777, true), (20, true)]);
    assert_eq!(apps.len(), 2);
    assert_eq!(apps[0].pid, 0);
    assert_eq!(apps[0].exe, "-");
    assert_eq!(apps[0].display, "System sounds (cannot be captured)");
    assert!(apps[0].playing);
    assert_eq!(apps[1].pid, 20);
    assert_eq!(apps[1].exe, "Spotify.exe");
    assert!(!apps[1].playing);
}

#[test]
fn display_names_fall_back_to_the_executable() {
    assert_eq!(display_name("chrome.exe", Some("Google Chrome".to_string())), "Google Chrome");
    assert_eq!(display_name("chrome.exe", Some(String::new())), "chrome");
    assert_eq!(display_name("GAME.EXE", None), "GAME");
    assert_eq!(display_name("tool", None), "tool");
}

#[test]
fn wide_strings_round_trip() {
    let w = wide("Héllo");
    assert_eq!(w, vec![72, 233, 108, 108, 111, 0]);
    assert_eq!(wide_to_string(&w), "Héllo");
    assert_eq!(wide_to_string(&[32, 65, 66, 32, 0, 67]), "AB");
    assert_eq!(wide_to_string(&[0x41, 0x42]), "AB");
}

#[test]
fn include_mode_picks_named_processes_and_their_children() {
    let groups = vec![
        AppPatterns { enabled: true, apps: vec!["chrome".to_string()] },
        AppPatterns { enabled: false, apps: vec!["spotify".to_string()] },
        AppPatterns { enabled: true, apps: vec!["game".to_string(), "chrome".to_string()] },
    ];
    let picks = resolve_targets(AppMatchMode::Include, true, &groups, &table(), &vec![], 99);
    let got: Vec<(u32, String, Option<usize>)> = picks.into_iter().map(|p| (p.pid, p.label, p.group)).collect();
    assert_eq!(
        got,
        vec![
            (10, "Google Chrome".to_string(), Some(0)),
            (11, "Google Chrome".to_string(), Some(0)),
            (12, "Renderer".to_string(), Some(0)),
            (30, "Some Game".to_string(), Some(2)),
        ]
    );
    let flat = resolve_targets(AppMatchMode::Include, false, &groups, &table(), &vec![], 99);
    assert_eq!(flat.iter().map(|p| p.pid).collect::<Vec<_>>(), vec![10, 11, 30]);
}

#[test]
fn exclude_mode_picks_every_other_session() {
    let groups = vec![AppPatterns { enabled: true, apps: vec!["chrome".to_string()] }];
    let sessions = vec![(0, true), (12, true), (20, false), (99, true), (555, true), (20, true)];
    let picks = resolve_targets(AppMatchMode::Exclude, true, &groups, &table(), &sessions, 99);
    let got: Vec<(u32, String, Option<usize>)> = picks.into_iter().map(|p| (p.pid, p.label, p.group)).collect();
    assert_eq!(got, vec![(20, "Spotify".to_string(), None), (555, "pid 555".to_string(), None)]);
}

#[test]
fn version_resource_key() {
    assert_eq!(description_key(0x0409, 0x04b0), "\\StringFileInfo\\040904b0\\FileDescription");
    assert_eq!(description_key(0xffff, 0), "\\StringFileInfo\\ffff0000\\FileDescription");
}

#[test]
fn wide_writes_surrogate_pairs_above_the_basic_plane() {
    assert_eq!(wide("a\u{1F600}"), vec![0x61, 0xD83D, 0xDE00, 0]);
    assert_eq!(wide(""), vec![0]);
}

#[test]
fn wide_text_decodes_pairs_and_replaces_lone_surrogates() {
    assert_eq!(wide_to_string(&[0xD83D, 0xDE00, 0xD800, 0x41, 0xDC00, 0]), "\u{1F600}\u{FFFD}A\u{FFFD}");
}
