use cloudkitty_core::config::{
    default_bench_ticks, default_budget_strikes, default_chase_exclusion_ticks,
    default_chase_patience_ticks, default_exchange_timeout_ms, default_purr_max_ticks,
    default_purr_min_ticks, default_relaunch_cooldown_ticks, default_reply_max_bytes,
    default_solo_play_reach, default_sunbeam_reach, fingerprint, validate_behavior_limits,
    validate_capacity, validate_durations, validate_elements, validate_events,
    validate_persistence, validate_purr_ticks, validate_roster, validate_viewer, validate_world,
    BehaviorLimits, ConfigError, DurationBounds, DurationsConfig, ElementsConfig, EventsConfig,
    PersistenceConfig, RosterEntry, ViewerConfig, WorldConfig,
};

/// The whole-number and text sections of the shipped configuration.
struct Shipped {
    world: WorldConfig,
    kitties: Vec<RosterEntry>,
    elements: ElementsConfig,
    limits: BehaviorLimits,
    purr_min_ticks: u64,
    purr_max_ticks: u64,
    viewer: ViewerConfig,
    events: EventsConfig,
    persistence: PersistenceConfig,
    durations: DurationsConfig,
}

fn seat(id: u32, name: &str, x: u32, y: u32, behavior: &str) -> RosterEntry {
    RosterEntry {
        id,
        name: name.to_string(),
        x,
        y,
        behavior: behavior.to_string(),
    }
}

fn cfg() -> Shipped {
    Shipped {
        world: WorldConfig::default_world(),
        kitties: vec![
            seat(1, "Miso", 10, 12, "needs_driven"),
            seat(2, "Biscuit", 20, 18, "playful"),
            seat(3, "Pumpkin", 16, 8, "needs_driven"),
        ],
        elements: ElementsConfig::default_elements(),
        limits: BehaviorLimits {
            chase_patience_ticks: default_chase_patience_ticks(),
            chase_exclusion_ticks: default_chase_exclusion_ticks(),
            solo_play_reach: default_solo_play_reach(),
            sunbeam_reach: default_sunbeam_reach(),
            budget_strikes: default_budget_strikes(),
            bench_ticks: default_bench_ticks(),
            reply_max_bytes: default_reply_max_bytes(),
            relaunch_cooldown_ticks: default_relaunch_cooldown_ticks(),
            exchange_timeout_ms: default_exchange_timeout_ms(),
        },
        purr_min_ticks: default_purr_min_ticks(),
        purr_max_ticks: default_purr_max_ticks(),
        viewer: ViewerConfig::default_viewer(),
        events: EventsConfig::default_events(),
        persistence: PersistenceConfig::default_persistence(),
        durations: DurationsConfig::default_durations(),
    }
}

impl Shipped {
    /// The library's sections, in the order the whole-file check runs them.
    fn validate(&self) -> Result<(), ConfigError> {
        validate_world(&self.world)?;
        validate_roster(&self.world, &self.kitties)?;
        validate_elements(&self.elements, &self.world)?;
        validate_behavior_limits(&self.limits)?;
        validate_purr_ticks(self.purr_min_ticks, self.purr_max_ticks)?;
        validate_viewer(&self.viewer)?;
        validate_events(&self.events)?;
        validate_persistence(&self.persistence)?;
        validate_durations(&self.durations)?;
        validate_capacity(
            &self.world,
            self.kitties.len() as u32,
            self.elements.total_min(),
        )
    }

    fn fingerprint(&self) -> String {
        fingerprint(&self.world, &self.kitties)
    }
}

fn message(c: &Shipped) -> String {
    c.validate().unwrap_err().message()
}

#[test]
fn the_shipped_default_config_is_valid() {
    cfg().validate().expect("default config must be valid");
}

#[test]
fn fewer_than_two_kitties_is_rejected() {
    let mut c = cfg();
    c.kitties.truncate(1);
    let msg = message(&c);
    assert!(msg.contains("1 kitties"), "names the value: {msg}");
    assert!(msg.contains("at least 2"), "names the range: {msg}");
    assert!(msg.contains("Article III"), "cites the constitution: {msg}");
}

#[test]
fn zero_kitties_is_rejected() {
    let mut c = cfg();
    c.kitties.clear();
    assert!(c.validate().is_err());
}

#[test]
fn the_reserved_kitty_id_is_rejected() {
    let mut c = cfg();
    c.kitties[0].id = u32::MAX;
    let msg = message(&c);
    assert!(msg.contains("reserved"), "{msg}");
}

#[test]
fn duplicate_kitty_ids_are_rejected() {
    let mut c = cfg();
    c.kitties[1].id = c.kitties[0].id;
    let msg = message(&c);
    assert!(msg.contains("unique"), "{msg}");
}

#[test]
fn duplicate_starting_positions_are_rejected() {
    let mut c = cfg();
    c.kitties[1].x = c.kitties[0].x;
    c.kitties[1].y = c.kitties[0].y;
    let msg = message(&c);
    assert!(msg.contains("same tile"), "{msg}");
}

#[test]
fn off_grid_positions_are_rejected() {
    let mut c = cfg();
    c.kitties[0].x = c.world.width;
    let msg = message(&c);
    assert!(msg.contains("within the world"), "{msg}");
}

#[test]
fn element_max_above_the_hard_bound_is_rejected() {
    let mut c = cfg();
    // 32x32 = 1024 tiles => hard max 32.
    c.elements.bug.max = ElementsConfig::hard_max(c.world.area()) + 1;
    let msg = message(&c);
    assert!(msg.contains("at most 32"), "names the allowed range: {msg}");
}

#[test]
fn element_min_below_the_hard_bound_is_rejected() {
    let mut c = cfg();
    c.elements.water.min = 0;
    let msg = message(&c);
    assert!(msg.contains("at least 1"), "{msg}");
}

#[test]
fn greebles_may_be_absent_entirely() {
    let mut c = cfg();
    c.elements.greeble.min = 0;
    c.validate().expect("greebles are allowed to have min 0");
}

#[test]
fn min_above_max_is_rejected() {
    let mut c = cfg();
    c.elements.sunbeam.min = 3;
    c.elements.sunbeam.max = 2;
    let msg = message(&c);
    assert!(msg.contains("not exceed max"), "{msg}");
}

#[test]
fn worlds_too_small_for_their_elements_are_rejected() {
    let mut c = cfg();
    c.world.width = 4;
    c.world.height = 4; // 16 tiles: floor(16/32) == 0
    let msg = message(&c);
    assert!(msg.contains("at least 32 tiles"), "{msg}");
}

#[test]
fn zero_tick_rate_is_rejected() {
    let mut c = cfg();
    c.world.tick_ms = 0;
    assert!(c.validate().is_err());
}

#[test]
fn purr_tick_bounds_reject_arithmetic_hazards() {
    let mut c = cfg();
    c.purr_max_ticks = 1_000_000; // at the bound: legal
    assert!(c.validate().is_ok());
    c.purr_max_ticks = 1_000_001;
    let msg = message(&c);
    assert!(msg.contains("[purr] max_ticks"), "{msg}");
    c.purr_max_ticks = u64::MAX;
    assert!(c.validate().is_err());
}

#[test]
fn zero_chase_windows_are_rejected() {
    let mut c = cfg();
    c.limits.chase_patience_ticks = 0;
    let msg = message(&c);
    assert!(msg.contains("chase_patience_ticks"), "{msg}");

    let mut c = cfg();
    c.limits.chase_exclusion_ticks = 0;
    let msg = message(&c);
    assert!(msg.contains("chase_exclusion_ticks"), "{msg}");
}

#[test]
fn zero_solo_play_reach_is_rejected() {
    let mut c = cfg();
    c.limits.solo_play_reach = 0;
    let msg = message(&c);
    assert!(msg.contains("solo_play_reach"), "{msg}");
}

#[test]
fn zero_viewer_patience_is_rejected() {
    let mut c = cfg();
    c.viewer.distress_patience_ticks = 0;
    let msg = message(&c);
    assert!(msg.contains("[viewer] distress_patience_ticks"), "{msg}");
}

#[test]
fn a_zero_minimum_duration_is_rejected_by_name() {
    let mut c = cfg();
    c.durations.eat = DurationBounds::new(0, 5);
    let msg = message(&c);
    assert!(msg.contains("[actions.durations] eat.min"), "{msg}");
    assert!(msg.contains('0'), "{msg}");
}

#[test]
fn a_maximum_below_the_minimum_is_rejected_by_name() {
    let mut c = cfg();
    c.durations.sleep = DurationBounds::new(4, 3);
    let msg = message(&c);
    assert!(msg.contains("[actions.durations] sleep.max"), "{msg}");
    assert!(msg.contains("sleep.min (4)"), "{msg}");
}

#[test]
fn instant_actions_are_a_lawful_configuration() {
    // min = max = 1 everywhere.
    let mut c = cfg();
    for bounds in [
        &mut c.durations.eat,
        &mut c.durations.drink,
        &mut c.durations.play,
        &mut c.durations.bath,
        &mut c.durations.sleep,
        &mut c.durations.cuddle,
    ] {
        *bounds = DurationBounds::new(1, 1);
    }
    c.validate().expect("instant actions are legal");
}

#[test]
fn fingerprint_ignores_water_tunables() {
    // The water dials are not among the fingerprint's inputs at all.
    let a = cfg();
    let b = cfg();
    assert_eq!(
        a.fingerprint(),
        b.fingerprint(),
        "pricing water must never orphan a saved world"
    );
}

#[test]
fn fingerprint_ignores_the_new_behavior_tunables() {
    let a = cfg();
    let mut b = cfg();
    b.limits.sunbeam_reach = 3;
    b.viewer.distress_patience_ticks = 999;
    assert_eq!(
        a.fingerprint(),
        b.fingerprint(),
        "tuning selection must never orphan a saved world"
    );
}

#[test]
fn fingerprint_ignores_duration_tunables() {
    let a = cfg();
    let mut b = cfg();
    b.durations.eat = DurationBounds::new(1, 9);
    b.durations.sleep = DurationBounds::new(3, 20);
    assert_eq!(
        a.fingerprint(),
        b.fingerprint(),
        "duration tuning must never orphan a saved world"
    );
}

#[test]
fn roam_cell_validation_refuses_zero_and_one() {
    for bad in [0u32, 1] {
        let mut c = cfg();
        c.elements.bug.roam_cell = Some(bad);
        let err = message(&c);
        assert!(err.contains("[elements.bug] roam_cell"), "{err}");
        assert!(err.contains(&bad.to_string()), "{err}");
    }
}

#[test]
fn roam_cell_validation_refuses_non_bug_tables() {
    let mut c = cfg();
    c.elements.greeble.roam_cell = Some(4);
    let err = message(&c);
    assert!(err.contains("[elements.greeble] roam_cell"), "{err}");

    let mut c = cfg();
    c.elements.sunbeam.roam_cell = Some(4);
    let err = message(&c);
    assert!(err.contains("[elements.sunbeam] roam_cell"), "{err}");
}

#[test]
fn roam_cell_validation_accepts_legal_values() {
    // 2 is the floor, 4 is the served package, 64 exceeds the world
    // (legal: the whole world becomes one cell).
    for good in [2u32, 4, 64] {
        let mut c = cfg();
        c.elements.bug.roam_cell = Some(good);
        c.validate()
            .unwrap_or_else(|e| panic!("roam_cell {good} must load: {}", e.message()));
    }
}

#[test]
fn dart_validation_refuses_non_greeble_tables() {
    let mut c = cfg();
    c.elements.bug.dart = true;
    let err = message(&c);
    assert!(err.contains("[elements.bug] dart"), "{err}");

    let mut c = cfg();
    c.elements.sunbeam.dart = true;
    let err = message(&c);
    assert!(err.contains("[elements.sunbeam] dart"), "{err}");
}

#[test]
fn dart_validation_accepts_the_greeble_flag() {
    let mut c = cfg();
    c.elements.greeble.dart = true;
    c.validate()
        .expect("dart on the greeble table is the whole point");
}
