use shellyrgbaudio::json::{
    default_kinds, device_registry, find, get_member, merge_defaults, migrate_legacy_devices,
    migrate_legacy_top_level, overlay, set_member, take_member, unknown_type_message, default_entry, is_well_formed, prepare_config, load_config_text, as_u64, as_i64, Items, Json, Members,
};

fn text(s: &str) -> Json {
    Json::Text(s.to_string())
}

fn num(s: &str) -> Json {
    Json::Number(s.to_string())
}

fn obj(fields: Vec<(&str, Json)>) -> Json {
    let mut m = Members::End;
    for (k, v) in fields.into_iter().rev() {
        m = Members::Member(k.to_string(), Box::new(v), Box::new(m));
    }
    Json::Object(m)
}

fn arr(items: Vec<Json>) -> Json {
    let mut it = Items::End;
    for v in items.into_iter().rev() {
        it = Items::Item(Box::new(v), Box::new(it));
    }
    Json::Array(it)
}

fn render(j: &Json) -> String {
    match j {
        Json::Null => "null".to_string(),
        Json::Bool(b) => b.to_string(),
        Json::Number(n) => n.clone(),
        Json::Text(t) => format!("{t:?}"),
        Json::Array(items) => {
            let mut parts = Vec::new();
            let mut cur = items;
            while let Items::Item(v, rest) = cur {
                parts.push(render(v));
                cur = rest;
            }
            format!("[{}]", parts.join(","))
        }
        Json::Object(m) => {
            let mut parts = Vec::new();
            let mut cur = m;
            while let Members::Member(k, v, rest) = cur {
                parts.push(format!("{k:?}:{}", render(v)));
                cur = rest;
            }
            format!("{{{}}}", parts.join(","))
        }
    }
}

#[test]
fn defaults_fill_only_what_is_missing() {
    let mut user = obj(vec![
        ("audio", obj(vec![("device", text("speakers"))])),
        ("fps", num("30")),
        ("color_map", text("custom")),
    ]);
    let defaults = obj(vec![
        ("audio", obj(vec![("device", text("default")), ("gain", num("1.0"))])),
        ("fps", num("60")),
        ("color_map", obj(vec![("saturation", num("1.0"))])),
        ("output", obj(vec![("change_interval_ms", num("50"))])),
    ]);
    merge_defaults(&mut user, &defaults);
    assert_eq!(
        render(&user),
        r#"{"audio":{"device":"speakers","gain":1.0},"fps":30,"color_map":"custom","output":{"change_interval_ms":50}}"#
    );
}

#[test]
fn defaults_leave_a_non_object_alone() {
    let mut user = arr(vec![num("1")]);
    merge_defaults(&mut user, &obj(vec![("a", num("2"))]));
    assert_eq!(render(&user), "[1]");
}

#[test]
fn overlay_replaces_and_merges_objects() {
    let mut base = obj(vec![
        ("saturation", num("1.0")),
        ("palette", obj(vec![("low", text("red")), ("high", text("blue"))])),
        ("mode", text("hue")),
    ]);
    let patch = obj(vec![
        ("palette", obj(vec![("high", text("green"))])),
        ("mode", obj(vec![("x", num("1"))])),
        ("extra", Json::Bool(true)),
    ]);
    overlay(&mut base, &patch);
    assert_eq!(
        render(&base),
        r#"{"saturation":1.0,"palette":{"low":"red","high":"green"},"mode":{"x":1},"extra":true}"#
    );
    let mut scalar = num("5");
    overlay(&mut scalar, &text("x"));
    assert_eq!(render(&scalar), "\"x\"");
}

#[test]
fn members_get_set_and_take() {
    let m = match obj(vec![("a", num("1")), ("b", num("2"))]) {
        Json::Object(m) => m,
        _ => unreachable!(),
    };
    assert_eq!(render(get_member(&m, "b").unwrap()), "2");
    assert!(get_member(&m, "c").is_none());
    let m = set_member(m, "a".to_string(), num("7"));
    let m = set_member(m, "c".to_string(), num("3"));
    assert_eq!(render(&Json::Object(m)), r#"{"a":7,"b":2,"c":3}"#);
    let m = match obj(vec![("a", num("1")), ("b", num("2"))]) {
        Json::Object(m) => m,
        _ => unreachable!(),
    };
    let (rest, taken) = take_member(m, "a");
    assert_eq!(render(&taken.unwrap()), "1");
    assert_eq!(render(&Json::Object(rest)), r#"{"b":2}"#);
}

#[test]
fn legacy_top_level_keys_move_into_sections() {
    let mut top = obj(vec![
        ("audio_device", text("speakers")),
        ("change_interval_ms", num("40")),
        ("output", obj(vec![("transition_min_ms", num("10"))])),
        ("transition_min_ms", num("99")),
        ("beat_threshold", num("1.5")),
        ("dynamics", obj(vec![("band_alpha", num("0.3")), ("band_release", num("0.1"))])),
        ("color_map", obj(vec![("saturate", Json::Bool(true))])),
    ]);
    migrate_legacy_top_level(&mut top);
    assert_eq!(
        render(&top),
        r#"{"audio":{"device":"speakers"},"output":{"transition_min_ms":10,"change_interval_ms":40},"dynamics":{"band_release":0.1,"beat_threshold":1.5,"band_attack":0.3},"color_map":{"saturation":1.0}}"#
    );
}

#[test]
fn saturate_false_and_existing_saturation() {
    let mut a = obj(vec![("color_map", obj(vec![("saturate", Json::Bool(false))]))]);
    migrate_legacy_top_level(&mut a);
    assert_eq!(render(&a), r#"{"color_map":{"saturation":0.0}}"#);
    let mut b = obj(vec![("color_map", obj(vec![("saturate", Json::Bool(true)), ("saturation", num("0.5"))]))]);
    migrate_legacy_top_level(&mut b);
    assert_eq!(render(&b), r#"{"color_map":{"saturation":0.5}}"#);
    let mut c = obj(vec![("color_map", obj(vec![("saturate", text("yes"))]))]);
    migrate_legacy_top_level(&mut c);
    assert_eq!(render(&c), r#"{"color_map":{}}"#);
    let mut d = obj(vec![("audio_device", text("x")), ("audio", num("3"))]);
    migrate_legacy_top_level(&mut d);
    assert_eq!(render(&d), r#"{"audio":3}"#);
}

#[test]
fn legacy_device_arrays_become_devices() {
    let registry = device_registry();
    let mut top = obj(vec![
        ("shelly", obj(vec![("host", text("10.0.0.5"))])),
        ("govees", arr(vec![obj(vec![("ip", text("10.0.0.9")), ("type", text("govee_dreamview"))]), num("4")])),
        ("fps", num("30")),
    ]);
    migrate_legacy_devices(&mut top, &registry);
    assert_eq!(
        render(&top),
        r#"{"fps":30,"devices":[{"type":"govee_dreamview","ip":"10.0.0.9"},{"type":"govee_lan"},{"type":"shelly","host":"10.0.0.5"}]}"#
    );
}

#[test]
fn existing_devices_are_kept_and_legacy_arrays_dropped() {
    let registry = device_registry();
    let mut top = obj(vec![
        ("devices", arr(vec![obj(vec![("type", text("wled"))])])),
        ("shellys", arr(vec![obj(vec![("host", text("a"))])])),
    ]);
    migrate_legacy_devices(&mut top, &registry);
    assert_eq!(render(&top), r#"{"devices":[{"type":"wled"}]}"#);
    let mut nothing = obj(vec![("fps", num("1"))]);
    migrate_legacy_devices(&mut nothing, &registry);
    assert_eq!(render(&nothing), r#"{"fps":1}"#);
}

#[test]
fn registry_lookups() {
    let registry = device_registry();
    assert_eq!(find(&registry, "hue"), Some(2));
    assert_eq!(find(&registry, "lifx"), None);
    assert_eq!(default_kinds(&registry), vec![3]);
    assert_eq!(
        unknown_type_message("lifx", &registry),
        "Unknown device type \"lifx\" (known: [\"govee_lan\", \"govee_dreamview\", \"hue\", \"shelly\", \"wled\"]). Skipping."
    );
    let e = default_entry(
        obj(vec![("host", text("x")), ("type", text("old"))]),
        "shelly",
        text("point"),
        num("0.2"),
        num("1.0"),
    );
    assert_eq!(
        render(&e),
        r#"{"host":"x","type":"shelly","form":"point","position":null,"extent":0.2,"path":null,"spatiality":1.0}"#
    );
    assert_eq!(render(&default_entry(num("1"), "shelly", Json::Null, Json::Null, Json::Null)), "1");
}

#[test]
fn well_formedness_catches_repeated_keys() {
    assert!(is_well_formed(&obj(vec![("a", arr(vec![obj(vec![("x", num("1"))])])), ("b", Json::Null)])));
    assert!(!is_well_formed(&obj(vec![("a", num("1")), ("a", num("2"))])));
    assert!(!is_well_formed(&arr(vec![obj(vec![("k", num("1")), ("k", num("1"))])])));
}

#[test]
fn prepared_config_migrates_then_fills_defaults() {
    let defaults = obj(vec![
        ("audio", obj(vec![("device", text("default")), ("gain", num("1.0"))])),
        ("devices", arr(vec![obj(vec![("type", text("shelly"))])])),
    ]);
    let parsed = obj(vec![("audio_device", text("speakers")), ("shelly", obj(vec![("host", text("h"))]))]);
    let (cfg, replaced) = prepare_config(parsed, &defaults, &device_registry());
    assert!(!replaced);
    assert_eq!(
        render(&cfg),
        r#"{"audio":{"device":"speakers","gain":1.0},"devices":[{"type":"shelly","host":"h"}]}"#
    );
    let (cfg, replaced) = prepare_config(arr(vec![]), &defaults, &device_registry());
    assert!(replaced);
    assert_eq!(render(&cfg), render(&defaults));
}

fn config_defaults() -> Json {
    obj(vec![
        ("audio", obj(vec![("device", text("default")), ("gain", num("1.0"))])),
        ("devices", arr(vec![obj(vec![("type", text("shelly"))])])),
    ])
}

#[test]
fn config_text_is_parsed_past_byte_order_marks() {
    let raw = "\u{feff}{\"shelly\": {\"host\": \"h\"}, \"audio_device\": \"speakers\"}";
    let (cfg, replaced) = load_config_text(raw, &config_defaults(), &device_registry()).unwrap();
    assert!(!replaced);
    assert_eq!(
        render(&cfg),
        r#"{"audio":{"device":"speakers","gain":1.0},"devices":[{"type":"shelly","host":"h"}]}"#
    );
}

#[test]
fn config_text_that_is_not_json_gives_the_parser_error() {
    let e = load_config_text("{\"audio\": }", &config_defaults(), &device_registry()).unwrap_err();
    assert_eq!(e, "expected value at line 1 column 11");
}

#[test]
fn config_text_with_another_root_takes_the_defaults() {
    let (cfg, replaced) = load_config_text("[1, 2]", &config_defaults(), &device_registry()).unwrap();
    assert!(replaced);
    assert_eq!(render(&cfg), render(&config_defaults()));
}

#[test]
fn numbers_read_as_integers() {
    assert_eq!(as_u64(Some(&num("42"))), Some(42));
    assert_eq!(as_u64(Some(&num("18446744073709551615"))), Some(u64::MAX));
    assert_eq!(as_u64(Some(&num("-3"))), None);
    assert_eq!(as_u64(Some(&num("1.5"))), None);
    assert_eq!(as_u64(Some(&text("7"))), None);
    assert_eq!(as_u64(None), None);
    assert_eq!(as_i64(Some(&num("-3"))), Some(-3));
    assert_eq!(as_i64(Some(&num("-9223372036854775808"))), Some(i64::MIN));
    assert_eq!(as_i64(Some(&num("9223372036854775808"))), None);
    assert_eq!(as_i64(Some(&num("1"))), Some(1));
}
