use shellyrgbaudio::hue::{
    describe_lights, device_name, lights_from, list_lights, pairing_outcome, segment_for_light, select_lights, wanted_lights,
    HueLightInfo,
};

fn light(id: &str, name: &str) -> HueLightInfo {
    HueLightInfo { id: id.to_string(), name: name.to_string() }
}

#[test]
fn lights_without_an_id_are_skipped_and_unnamed_ones_take_their_id() {
    let entries = vec![
        (Some("a1".to_string()), Some("Desk".to_string())),
        (None, Some("ghost".to_string())),
        (Some("b2".to_string()), None),
    ];
    let lights = lights_from(entries);
    assert_eq!(lights.len(), 2);
    assert_eq!(lights[0].id, "a1");
    assert_eq!(lights[0].name, "Desk");
    assert_eq!(lights[1].id, "b2");
    assert_eq!(lights[1].name, "b2");
}

#[test]
fn a_failed_listing_keeps_its_reason() {
    let r = list_lights(Err("the bridge rejected the application key".to_string()));
    assert_eq!(r.unwrap_err(), "the bridge rejected the application key");
    let ok = list_lights(Ok(vec![(Some("x".to_string()), Some("Lamp".to_string()))])).unwrap();
    assert_eq!(ok.len(), 1);
    assert_eq!(ok[0].name, "Lamp");
}

#[test]
fn description_quotes_names_and_gives_ids() {
    assert_eq!(describe_lights(&vec![]), "no lights at all");
    let d = describe_lights(&vec![light("1", "Desk"), light("2", "Shelf \"top\"")]);
    assert_eq!(d, "\"Desk\" (1), \"Shelf \\\"top\\\"\" (2)");
}

#[test]
fn wanted_ids_are_trimmed_and_blanks_dropped() {
    let w = wanted_lights(&vec![" a ".to_string(), "   ".to_string(), "b".to_string()]);
    assert_eq!(w, vec!["a".to_string(), "b".to_string()]);
}

#[test]
fn selection_finds_positions_of_wanted_lights() {
    let offered = vec![light("1", "Desk"), light("2", "Shelf"), light("3", "Floor")];
    let (ids, pos) = select_lights("10.0.0.2", "key", &vec!["3".to_string(), " 1".to_string()], &offered).unwrap();
    assert_eq!(ids, vec!["3".to_string(), "1".to_string()]);
    assert_eq!(pos, vec![2, 0]);
}

#[test]
fn selection_errors_name_the_problem() {
    let offered = vec![light("1", "Desk")];
    let e = select_lights("br", "  ", &vec!["1".to_string()], &offered).unwrap_err();
    assert_eq!(
        e,
        "hue br: \"application_key\" is empty. Press the link button on the bridge and pair, that is what hands the key out."
    );
    let e = select_lights("br", "k", &vec![" ".to_string()], &offered).unwrap_err();
    assert_eq!(e, "hue br: no light selected in \"lights\". The bridge offers: \"Desk\" (1)");
    let e = select_lights("br", "k", &vec!["9".to_string()], &offered).unwrap_err();
    assert_eq!(e, "hue br: no light with the id \"9\". The bridge offers: \"Desk\" (1)");
    let e = select_lights("br", "k", &vec!["9".to_string()], &vec![]).unwrap_err();
    assert_eq!(e, "hue br: no light with the id \"9\". The bridge offers: no lights at all");
}

#[test]
fn lights_spread_evenly_over_segments() {
    assert_eq!(segment_for_light(0, 3, 6), 0);
    assert_eq!(segment_for_light(1, 3, 6), 2);
    assert_eq!(segment_for_light(2, 3, 6), 4);
    assert_eq!(segment_for_light(3, 2, 4), 3);
    assert_eq!(segment_for_light(0, 0, 1), 0);
    assert_eq!(segment_for_light(5, 2, 2), 1);
}

#[test]
fn device_name_lists_the_lights() {
    assert_eq!(device_name("br", &vec!["Desk".to_string(), "Shelf".to_string()]), "hue br (Desk, Shelf)");
    assert_eq!(device_name("br", &vec![]), "hue br ()");
}

#[test]
fn pairing_answers() {
    assert_eq!(pairing_outcome(Some("abc".to_string()), None).unwrap(), "abc");
    assert_eq!(
        pairing_outcome(None, Some("link button not pressed".to_string())).unwrap_err(),
        "pairing was refused: link button not pressed"
    );
    assert_eq!(pairing_outcome(None, None).unwrap_err(), "pairing was refused: the bridge gave no reason");
}
