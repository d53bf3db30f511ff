use cloudkitty_core::config::{
    validate_capacity, validate_durations, validate_elements, validate_meow_windows,
    validate_purr_ticks, validate_roster, validate_world, ConfigError, DurationsConfig,
    EdgePenalty, ElementsConfig, RosterEntry, WorldConfig,
};
use cloudkitty_core::config::{fingerprint, validate_behavior_limits, validate_behavior_names, validate_vision, BehaviorLimits};
use cloudkitty_core::element::ElementType;

fn world() -> WorldConfig {
    WorldConfig::default_world()
}

fn expect_invalid(r: Result<(), ConfigError>, field: &str, value: &str) -> String {
    match r {
        Err(ConfigError::Invalid {
            field: f,
            value: v,
            expected,
        }) => {
            assert_eq!(f, field);
            assert_eq!(v, value);
            expected
        }
        other => panic!("expected an invalid {field}, got {other:?}"),
    }
}

#[test]
fn the_shipped_tables_are_valid() {
    assert!(validate_world(&world()).is_ok());
    assert!(validate_durations(&DurationsConfig::default_durations()).is_ok());
    assert!(validate_elements(&ElementsConfig::default_elements(), &world()).is_ok());
    assert!(validate_purr_ticks(20, 40).is_ok());
    assert!(validate_meow_windows(10, 30).is_ok());
}

#[test]
fn a_lonely_roster_is_refused_with_the_constitution_named() {
    let roster = vec![RosterEntry {
        id: 1,
        name: "Miso".to_string(),
        x: 3,
        y: 3,
        behavior: "needs_driven".to_string(),
    }];
    let err = validate_roster(&world(), &roster).unwrap_err();
    assert_eq!(
        err.message(),
        "config error: [[kitty]] roster is 1 kitties; the constitution requires at least 2 kitties (Article III: kitties cannot be alone)"
    );
}

#[test]
fn element_rules_are_checked_in_element_order() {
    let mut e = ElementsConfig::default_elements();
    e.chow.min = 0;
    e.bug.max = 1000;
    let expected = expect_invalid(validate_elements(&e, &world()), "[elements.chow] min", "0");
    assert_eq!(expected, "must be at least 1 for this element type");

    let mut e = ElementsConfig::default_elements();
    e.bug.max = 1000;
    let expected = expect_invalid(validate_elements(&e, &world()), "[elements.bug] max", "1000");
    assert_eq!(expected, "must be at most 32 (floor(area / 32) for a 32x32 world)");

    let mut e = ElementsConfig::default_elements();
    e.greeble.min = 0;
    assert!(validate_elements(&e, &world()).is_ok(), "greebles may be absent");
}

#[test]
fn every_element_rule_error_names_its_key() {
    let mut e = ElementsConfig::default_elements();
    e.water.min = 9;
    e.water.max = 8;
    let expected = expect_invalid(validate_elements(&e, &world()), "[elements.water] min", "9");
    assert_eq!(expected, "must not exceed max (8)");

    let mut e = ElementsConfig::default_elements();
    e.chow.servings = None;
    expect_invalid(validate_elements(&e, &world()), "[elements.chow] servings", "0");

    let mut e = ElementsConfig::default_elements();
    e.sunbeam.ttl = Some(0);
    expect_invalid(validate_elements(&e, &world()), "[elements.sunbeam] ttl", "0");

    let mut e = ElementsConfig::default_elements();
    e.greeble.roam_cell = Some(4);
    expect_invalid(validate_elements(&e, &world()), "[elements.greeble] roam_cell", "4");

    let mut e = ElementsConfig::default_elements();
    e.bug.roam_cell = Some(1);
    expect_invalid(validate_elements(&e, &world()), "[elements.bug] roam_cell", "1");

    let mut e = ElementsConfig::default_elements();
    e.bug.dart = true;
    expect_invalid(validate_elements(&e, &world()), "[elements.bug] dart", "true");
}

#[test]
fn the_spawn_dials_are_bounded() {
    let mut e = ElementsConfig::default_elements();
    e.ttl_jitter = 2147483647;
    expect_invalid(validate_elements(&e, &world()), "[elements] ttl_jitter", "2147483647");

    let mut e = ElementsConfig::default_elements();
    e.spread_candidates = 0;
    expect_invalid(validate_elements(&e, &world()), "[elements] spread_candidates", "0");

    let mut e = ElementsConfig::default_elements();
    e.spread_candidates = 10001;
    expect_invalid(validate_elements(&e, &world()), "[elements] spread_candidates", "10001");

    let mut e = ElementsConfig::default_elements();
    e.edge_penalty = EdgePenalty::Invalid {
        text: "NaN".to_string(),
    };
    expect_invalid(validate_elements(&e, &world()), "[elements] edge_penalty", "NaN");
}

#[test]
fn a_lake_needs_a_two_by_two_world() {
    let w = WorldConfig {
        width: 40,
        height: 1,
        ..world()
    };
    let mut e = ElementsConfig::default_elements();
    e.water.max = 1;
    e.chow.max = 1;
    e.bug.max = 1;
    e.greeble.max = 1;
    e.sunbeam.max = 1;
    e.water.min = 1;
    e.chow.min = 1;
    e.bug.min = 1;
    e.greeble.min = 1;
    e.sunbeam.min = 1;
    assert!(validate_elements(&e, &w).is_ok());
    e.water.min = 4;
    e.water.max = 4;
    // 40 tiles hold at most one of a kind, so the lake minimum trips the max
    // first; a larger strip shows the lake rule itself.
    let w = WorldConfig {
        width: 200,
        height: 1,
        ..world()
    };
    expect_invalid(validate_elements(&e, &w), "[world] width/height", "200x1");
}

#[test]
fn population_helpers() {
    assert_eq!(ElementsConfig::hard_min(ElementType::Greeble), 0);
    assert_eq!(ElementsConfig::hard_min(ElementType::Water), 1);
    assert_eq!(ElementsConfig::hard_max(1024), 32);
    assert_eq!(ElementsConfig::default_elements().total_min(), 17);
    let mut e = ElementsConfig::default_elements();
    e.water.min = u32::MAX;
    assert_eq!(e.total_min(), u32::MAX, "the sum saturates");
    assert_eq!(e.rule(ElementType::Bug).ttl, Some(300));
}

#[test]
fn purr_ticks_rows() {
    expect_invalid(validate_purr_ticks(0, 5), "[purr] min_ticks", "0");
    expect_invalid(validate_purr_ticks(9, 5), "[purr] min_ticks", "9 (max_ticks is 5)");
    expect_invalid(validate_purr_ticks(1, 1000001), "[purr] max_ticks", "1000001");
}

#[test]
fn meow_window_rows() {
    expect_invalid(validate_meow_windows(0, 30), "[meow] recent_window_ticks", "0");
    let expected = expect_invalid(validate_meow_windows(10, 25), "[meow] digest_window_ticks", "25");
    assert_eq!(
        expected,
        "must be a positive integer multiple of [meow] recent_window_ticks (10) -- the rate cell counts calls per window / cooldown"
    );
    expect_invalid(validate_meow_windows(10, 0), "[meow] digest_window_ticks", "0");
}

#[test]
fn capacity_counts_tiles() {
    let w = WorldConfig {
        width: 4,
        height: 8,
        ..world()
    };
    assert!(validate_capacity(&w, 2, 32).is_ok());
    expect_invalid(validate_capacity(&w, 33, 1), "[[kitty]] roster", "33 kitties");
}

#[test]
fn behavior_limits_and_vision() {
    let ok = BehaviorLimits {
        chase_patience_ticks: 12,
        chase_exclusion_ticks: 60,
        solo_play_reach: 8,
        sunbeam_reach: 6,
        budget_strikes: 3,
        bench_ticks: 100,
        reply_max_bytes: 4096,
        relaunch_cooldown_ticks: 10,
        exchange_timeout_ms: 100,
    };
    assert!(validate_behavior_limits(&ok).is_ok());
    let zero_patience = BehaviorLimits {
        chase_patience_ticks: 0,
        ..ok
    };
    let expected = expect_invalid(
        validate_behavior_limits(&zero_patience),
        "[behavior] chase_patience_ticks",
        "0",
    );
    assert_eq!(expected, "must be at least 1 tick");
    let zero_exclusion = BehaviorLimits {
        chase_exclusion_ticks: 0,
        ..ok
    };
    expect_invalid(
        validate_behavior_limits(&zero_exclusion),
        "[behavior] chase_exclusion_ticks",
        "0",
    );
    let zero_bytes = BehaviorLimits {
        reply_max_bytes: 0,
        ..ok
    };
    expect_invalid(validate_behavior_limits(&zero_bytes), "[behavior] reply_max_bytes", "0");
    assert!(validate_vision(2).is_ok());
    expect_invalid(validate_vision(1), "[vision] radius", "1");
}

fn seat(id: u32, name: &str, x: u32, y: u32, behavior: &str) -> RosterEntry {
    RosterEntry {
        id,
        name: name.to_string(),
        x,
        y,
        behavior: behavior.to_string(),
    }
}

fn default_roster() -> Vec<RosterEntry> {
    vec![
        seat(1, "Miso", 3, 3, "needs_driven"),
        seat(2, "Biscuit", 12, 12, "playful"),
    ]
}

#[test]
fn unknown_behavior_names_are_rejected() {
    let mut roster = default_roster();
    roster[0].behavior = "telepathic".into();
    let known = vec!["needs_driven".to_string(), "playful".to_string()];
    let msg = validate_behavior_names(&roster, &known).unwrap_err().message();
    assert!(msg.contains("telepathic"), "{msg}");
    assert!(msg.contains("needs_driven"), "lists valid names: {msg}");
}

#[test]
fn unknown_behaviors_list_the_known_names_in_order() {
    let mut roster = default_roster();
    roster[1].behavior = "zoomies".into();
    let known = vec![
        "playful".to_string(),
        "needs_driven".to_string(),
        "idle".to_string(),
    ];
    assert!(validate_behavior_names(&default_roster(), &known).is_ok());
    let err = validate_behavior_names(&roster, &known).unwrap_err();
    assert_eq!(
        err.message(),
        "config error: [[kitty]] 'Biscuit' behavior is zoomies; must be one of: idle, needs_driven, playful"
    );
}

#[test]
fn fingerprint_changes_with_world_shape() {
    let a = world();
    let mut b = world();
    b.width = 40;
    assert_ne!(fingerprint(&a, &default_roster()), fingerprint(&b, &default_roster()));
}

#[test]
fn fingerprint_spells_shape_seed_and_ids_sorted_as_text() {
    let roster = vec![
        seat(10, "A", 0, 0, "idle"),
        seat(2, "B", 1, 0, "idle"),
        seat(1, "C", 2, 0, "idle"),
    ];
    assert_eq!(fingerprint(&world(), &roster), "w32h32s20260718k1.10.2");
    let mut ticked = world();
    ticked.tick_ms = 100;
    assert_eq!(
        fingerprint(&world(), &roster),
        fingerprint(&ticked, &roster),
        "the tick rate never orphans a saved world"
    );
}
