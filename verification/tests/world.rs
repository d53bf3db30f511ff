use cloudkitty_core::action::{Action, TargetRef};
use cloudkitty_core::config::{
    default_meow_recent_window_ticks, ChaseRules, ContagionMembership, DurationsConfig, EventsConfig,
};
use cloudkitty_core::element::{Element, ElementKind, ElementType};
use cloudkitty_core::grid::{Direction, Position};
use cloudkitty_core::kitty::{AbandonedChase, Activity, ActivityClock, Kitty};
use cloudkitty_core::meow::{Meow, MessageKind};
use cloudkitty_core::needs::{need_index, ArmingBand, NeedKind};
use cloudkitty_core::rng::SimRng;
use cloudkitty_core::world::{DurationRuling, World};

fn rules() -> ChaseRules {
    ChaseRules {
        chase_patience_ticks: 12,
        chase_exclusion_ticks: 60,
    }
}

/// A 16x16 world holding two cats, Miso (1) and Biscuit (2).
fn two_cats() -> World {
    let kitties = vec![
        Kitty::new(1, "Miso", Position::new(3, 3), "needs_driven"),
        Kitty::new(2, "Biscuit", Position::new(12, 12), "playful"),
    ];
    World::new(16, 16, 1234, kitties, &EventsConfig::default_events())
}

fn chase_world() -> World {
    let mut world = two_cats();
    world.elements.clear();
    let idx = world.kitty_index(1).unwrap();
    world.kitties[idx].pos = Position::new(2, 2);
    let other = world.kitty_index(2).unwrap();
    world.kitties[other].pos = Position::new(0, 15);
    world.push_element(Element {
        id: 900,
        kind: ElementKind::Greeble {
            heading: Direction::North,
        },
        pos: Position::new(14, 14),
        ttl: Some(500),
    });
    world
}

#[test]
fn an_applied_chase_starts_a_pursuit_and_a_detour_does_not_reset_it() {
    let mut world = chase_world();
    let config = rules();
    let target = TargetRef::Element { id: 900 };

    world.tick = 10;
    world.update_pursuit(1, Action::Chase(target), &config);
    let p = world.kitty(1).unwrap().pursuit.expect("pursuit recorded");
    assert_eq!(p.started, 10);
    assert_eq!(p.closest, 24, "(2,2) to (14,14) is 24 walking steps");

    world.tick = 12;
    world.update_pursuit(1, Action::Drink, &config);
    let p = world
        .kitty(1)
        .unwrap()
        .pursuit
        .expect("survives the detour");
    assert_eq!(p.started, 10, "the clock did not reset");
}

#[test]
fn closing_in_updates_closest_and_keeps_the_chase_alive_past_patience() {
    let mut world = chase_world();
    let config = rules();
    let target = TargetRef::Element { id: 900 };

    world.tick = 10;
    world.update_pursuit(1, Action::Chase(target), &config);
    let idx = world.kitty_index(1).unwrap();
    world.kitties[idx].pos = Position::new(6, 6);
    world.tick = 11;
    world.update_pursuit(1, Action::Chase(target), &config);
    let p = world.kitty(1).unwrap().pursuit.unwrap();
    assert_eq!(p.closest, 16, "(6,6) to (14,14) is 16 walking steps");
    assert_eq!(p.improved_at, 11, "gaining ground resets the patience clock");
}

#[test]
fn converting_a_diagonal_offset_into_a_straight_one_counts_as_progress() {
    let mut world = two_cats();
    let config = rules();
    world.elements.clear();
    let idx = world.kitty_index(1).unwrap();
    world.kitties[idx].pos = Position::new(5, 5);
    let other = world.kitty_index(2).unwrap();
    world.kitties[other].pos = Position::new(0, 15);
    world.push_element(Element {
        id: 910,
        kind: ElementKind::Greeble {
            heading: Direction::North,
        },
        pos: Position::new(6, 6),
        ttl: Some(500),
    });
    let target = TargetRef::Element { id: 910 };

    world.tick = 10;
    world.update_pursuit(1, Action::Chase(target), &config);
    assert_eq!(world.kitty(1).unwrap().pursuit.unwrap().closest, 2);

    let idx = world.kitty_index(1).unwrap();
    world.kitties[idx].pos = Position::new(6, 5);
    world.tick = 11;
    world.update_pursuit(1, Action::Chase(target), &config);
    let p = world.kitty(1).unwrap().pursuit.unwrap();
    assert_eq!(p.closest, 1);
    assert_eq!(
        p.improved_at, 11,
        "closing the corner is real, catch-enabling progress"
    );
}

#[test]
fn a_chase_that_keeps_closing_is_never_called_hopeless() {
    let mut world = chase_world();
    let config = rules();
    let target = TargetRef::Element { id: 900 };
    let steps = config.chase_patience_ticks * 2;

    world.tick = 10;
    world.update_pursuit(1, Action::Chase(target), &config);

    for step in 1..=steps {
        let idx = world.kitty_index(1).unwrap();
        let pos = world.kitties[idx].pos;
        world.kitties[idx].pos = Position::new(pos.x + 1, pos.y + 1);
        world.tick = 10 + step;
        world.update_pursuit(1, Action::Chase(target), &config);

        let kitty = world.kitty(1).unwrap();
        assert!(
            kitty.pursuit.is_some(),
            "the chase was dropped at step {step} while still gaining ground"
        );
        assert!(
            kitty.abandoned_chases.is_empty(),
            "a productive chase must not blacklist its target (step {step})"
        );
    }

    world.update_pursuit(
        1,
        Action::Play {
            target: Some(target),
        },
        &config,
    );
    let kitty = world.kitty(1).unwrap();
    assert!(kitty.pursuit.is_none());
    assert!(kitty.abandoned_chases.is_empty());
}

#[test]
fn a_chase_stuck_at_a_fixed_distance_is_still_given_up_on() {
    let mut world = chase_world();
    let config = rules();
    let target = TargetRef::Element { id: 900 };

    world.tick = 10;
    world.update_pursuit(1, Action::Chase(target), &config);
    let start_distance = world.kitty(1).unwrap().pursuit.unwrap().closest;

    for step in 1..=config.chase_patience_ticks {
        world.tick = 10 + step;
        world.update_pursuit(1, Action::Chase(target), &config);
        assert_eq!(
            world.kitty(1).unwrap().pursuit.unwrap().closest,
            start_distance,
            "no ground gained"
        );
    }

    world.update_pursuit(1, Action::Idle, &config);
    let kitty = world.kitty(1).unwrap();
    assert!(kitty.pursuit.is_none());
    assert!(
        kitty.is_chase_excluded(target, world.tick),
        "a chase that never gains ground is still hopeless"
    );
}

#[test]
fn a_futile_chase_is_abandoned_and_its_target_excluded() {
    let mut world = chase_world();
    let config = rules();
    let target = TargetRef::Element { id: 900 };

    world.tick = 10;
    world.update_pursuit(1, Action::Chase(target), &config);

    world.tick = 10 + config.chase_patience_ticks;
    world.update_pursuit(1, Action::Idle, &config);

    let kitty = world.kitty(1).unwrap();
    assert!(kitty.pursuit.is_none(), "the chase is over");
    assert!(
        kitty.is_chase_excluded(target, world.tick),
        "the target is written off"
    );
    assert!(
        !kitty.is_chase_excluded(target, world.tick + config.chase_exclusion_ticks),
        "the exclusion expires on schedule"
    );
}

#[test]
fn catching_the_target_ends_the_pursuit_without_an_exclusion() {
    let mut world = chase_world();
    let config = rules();
    let target = TargetRef::Element { id: 900 };

    world.tick = 10;
    world.update_pursuit(1, Action::Chase(target), &config);
    world.tick = 40;
    world.update_pursuit(
        1,
        Action::Play {
            target: Some(target),
        },
        &config,
    );

    let kitty = world.kitty(1).unwrap();
    assert!(kitty.pursuit.is_none());
    assert!(kitty.abandoned_chases.is_empty(), "no grudge held");
}

#[test]
fn a_dead_target_clears_the_pursuit_without_an_exclusion() {
    let mut world = chase_world();
    let config = rules();
    let target = TargetRef::Element { id: 900 };

    world.tick = 10;
    world.update_pursuit(1, Action::Chase(target), &config);
    world.elements.retain(|e| e.id != 900);
    world.tick = 30;
    world.update_pursuit(1, Action::Idle, &config);

    let kitty = world.kitty(1).unwrap();
    assert!(kitty.pursuit.is_none());
    assert!(kitty.abandoned_chases.is_empty());
}

#[test]
fn expired_exclusions_are_pruned_on_the_next_update() {
    let mut world = chase_world();
    let config = rules();
    let idx = world.kitty_index(1).unwrap();
    world.kitties[idx].abandoned_chases.push(AbandonedChase {
        target: TargetRef::Element { id: 900 },
        until: 20,
    });

    world.tick = 25;
    world.update_pursuit(1, Action::Idle, &config);
    assert!(world.kitty(1).unwrap().abandoned_chases.is_empty());
}

#[test]
fn two_uncatchable_targets_both_end_up_excluded_so_solo_play_unlocks() {
    let mut world = chase_world();
    let config = rules();
    world.push_element(Element {
        id: 901,
        kind: ElementKind::Greeble {
            heading: Direction::South,
        },
        pos: Position::new(15, 2),
        ttl: Some(500),
    });
    let a = TargetRef::Element { id: 900 };
    let b = TargetRef::Element { id: 901 };
    let patience = config.chase_patience_ticks;

    world.tick = 10;
    world.update_pursuit(1, Action::Chase(a), &config);
    world.tick = 10 + patience;
    world.update_pursuit(1, Action::Chase(b), &config);
    assert!(
        world.kitty(1).unwrap().is_chase_excluded(a, world.tick),
        "switching away from a stale chase writes the old target off"
    );

    world.tick = 10 + 2 * patience;
    world.update_pursuit(1, Action::play_solo(), &config);

    let kitty = world.kitty(1).unwrap();
    assert!(kitty.is_chase_excluded(a, world.tick), "A still excluded");
    assert!(kitty.is_chase_excluded(b, world.tick), "B excluded too");
    assert!(kitty.pursuit.is_none());
}

#[test]
fn lookups_find_the_first_match() {
    let mut world = two_cats();
    world.push_element(Element {
        id: 5,
        kind: ElementKind::Water,
        pos: Position::new(4, 3),
        ttl: None,
    });
    world.push_element(Element {
        id: 6,
        kind: ElementKind::Chow { servings: 0 },
        pos: Position::new(3, 4),
        ttl: None,
    });
    assert_eq!(world.kitty_index(2), Some(1));
    assert_eq!(world.kitty_index(9), None);
    assert_eq!(world.kitty_at(Position::new(12, 12)).unwrap().id, 2);
    assert!(world.kitty_at(Position::new(0, 0)).is_none());
    assert_eq!(world.element(6).unwrap().pos, Position::new(3, 4));
    assert_eq!(world.element_at(Position::new(4, 3)).unwrap().id, 5);
    assert_eq!(world.count_of(ElementType::Water), 1);
    assert_eq!(world.count_of(ElementType::Bug), 0);
    assert_eq!(
        world
            .adjacent_element(Position::new(3, 3), ElementType::Water)
            .unwrap()
            .id,
        5
    );
    assert!(
        world.adjacent_stocked_chow(Position::new(3, 3)).is_none(),
        "the bowl beside Miso is empty"
    );
    assert!(!world.adjacent_critter(Position::new(3, 3)));
}

#[test]
fn element_ids_skip_zero_and_the_reserved_id() {
    let mut world = two_cats();
    assert_eq!(world.allocate_element_id(), 1);
    assert_eq!(world.allocate_element_id(), 2);
    world.push_element(Element {
        id: 40,
        kind: ElementKind::Sunbeam,
        pos: Position::new(0, 0),
        ttl: Some(3),
    });
    assert_eq!(world.allocate_element_id(), 41, "push keeps the counter ahead");
    world.next_element_id = u32::MAX;
    assert_eq!(world.allocate_element_id(), 1, "the reserved id is never issued");
    world.next_element_id = 0;
    assert_eq!(world.allocate_element_id(), 1, "zero is skipped");
}

#[test]
fn free_tiles_come_in_row_major_order() {
    let mut world = World::new(3, 2, 1, Vec::new(), &EventsConfig::default_events());
    world.push_element(Element {
        id: 1,
        kind: ElementKind::Water,
        pos: Position::new(1, 0),
        ttl: None,
    });
    assert_eq!(
        world.free_element_tiles(),
        vec![
            Position::new(0, 0),
            Position::new(2, 0),
            Position::new(0, 1),
            Position::new(1, 1),
            Position::new(2, 1),
        ]
    );
}

#[test]
fn the_turn_order_is_a_permutation_of_the_roster() {
    let kitties: Vec<Kitty> = (1..=6)
        .map(|id| Kitty::new(id, "cat", Position::new(id, 0), "idle"))
        .collect();
    let mut world = World::new(16, 16, 77, kitties, &EventsConfig::default_events());
    for _ in 0..20 {
        let mut order = world.draw_turn_order();
        order.sort();
        assert_eq!(order, vec![1, 2, 3, 4, 5, 6]);
    }
    // Same seed, same orders.
    let mk = || {
        let kitties: Vec<Kitty> = (1..=6)
            .map(|id| Kitty::new(id, "cat", Position::new(id, 0), "idle"))
            .collect();
        World::new(16, 16, 5, kitties, &EventsConfig::default_events())
    };
    let (mut a, mut b) = (mk(), mk());
    for _ in 0..5 {
        assert_eq!(a.draw_turn_order(), b.draw_turn_order());
    }
}

#[test]
fn seeds_are_dealt_in_roster_order_for_the_current_tick() {
    let mut world = two_cats();
    world.tick = 7;
    let dealt = world.deal_decision_seeds();
    assert_eq!(dealt.tick(), 7);
    let ids: Vec<u32> = dealt.iter().iter().map(|(id, _)| *id).collect();
    assert_eq!(ids, vec![1, 2]);
    let mut twin = two_cats();
    twin.advance_past_decision_draws();
    let mut again = two_cats();
    let _ = again.deal_decision_seeds();
    assert_eq!(twin.rng.next_u64(), again.rng.next_u64());
}

fn durations() -> DurationsConfig {
    DurationsConfig::default_durations()
}

#[test]
fn inside_the_minimum_the_scene_continues_and_past_it_a_switch_interrupts() {
    let mut world = two_cats();
    let d = durations();
    let idx = world.kitty_index(1).unwrap();
    world.kitties[idx].activity = Activity::Eating;
    world.kitties[idx].activity_clock = Some(ActivityClock::start(10));
    world.tick = 10;
    assert_eq!(
        world.enforcement_verdict(1, &Action::Drink, &d),
        Action::Eat,
        "inside the minimum the meal goes on"
    );
    assert_eq!(
        world.duration_ruling(1, &Action::Eat, &d),
        DurationRuling::Continue(Action::Eat)
    );
    world.tick = 10 + d.eat.min;
    assert_eq!(world.duration_ruling(1, &Action::Drink, &d), DurationRuling::Interrupt);
    assert_eq!(world.enforcement_verdict(1, &Action::Drink, &d), Action::Drink);
    assert_eq!(
        world.enforcement_verdict(1, &Action::Idle, &d),
        Action::Eat,
        "idling continues the scene"
    );
    assert_eq!(world.enforce_durations(1, Action::Drink, &d), Action::Drink);
    assert_eq!(world.kitty(1).unwrap().activity, Activity::Idle);
    assert_eq!(world.activity_log.len(), 1, "the interrupted meal is logged");
    // An idle kitty is not governed.
    assert_eq!(world.duration_ruling(2, &Action::Drink, &d), DurationRuling::NotGoverned);
}

#[test]
fn ending_one_side_of_a_duet_ends_both() {
    let mut world = two_cats();
    let a = world.kitty_index(1).unwrap();
    let b = world.kitty_index(2).unwrap();
    world.kitties[a].activity = Activity::Playing {
        target: Some(TargetRef::Kitty { id: 2 }),
    };
    world.kitties[a].activity_clock = Some(ActivityClock::start(3));
    world.kitties[b].activity = Activity::Playing {
        target: Some(TargetRef::Kitty { id: 1 }),
    };
    world.kitties[b].activity_clock = Some(ActivityClock::start(3));
    world.end_activity(2);
    assert_eq!(world.kitty(1).unwrap().activity, Activity::Idle);
    assert_eq!(world.kitty(2).unwrap().activity, Activity::Idle);
    assert_eq!(world.activity_log.len(), 2, "one end per cleared scene");
    assert_eq!(world.pending_endings.len(), 2);
    assert_eq!(world.pending_endings[0].kitty_id, 2);
    assert_eq!(world.pending_endings[1].kitty_id, 1);
}

#[test]
fn a_vanished_critter_ends_play_and_a_present_one_does_not() {
    let mut world = two_cats();
    world.push_element(Element {
        id: 30,
        kind: ElementKind::Bug,
        pos: Position::new(3, 4),
        ttl: Some(9),
    });
    let a = world.kitty_index(1).unwrap();
    world.kitties[a].activity = Activity::Playing {
        target: Some(TargetRef::Element { id: 30 }),
    };
    world.kitties[a].activity_clock = Some(ActivityClock::start(1));
    assert!(!world.counterpart_gone(1));
    world.prune_dead_activity(1);
    assert_eq!(world.kitty(1).unwrap().activity.is_in_progress(), true);
    world.elements.clear();
    assert!(world.counterpart_gone(1));
    world.prune_dead_activity(1);
    assert_eq!(world.kitty(1).unwrap().activity, Activity::Idle);
}

#[test]
fn friends_are_available_beside_and_conscriptable_only_when_idle() {
    let mut world = two_cats();
    assert!(!world.is_available_friend(1, 2), "too far away");
    let b = world.kitty_index(2).unwrap();
    world.kitties[b].pos = Position::new(3, 4);
    assert!(world.is_available_friend(1, 2));
    assert!(!world.is_available_friend(1, 1), "not oneself");
    assert!(world.is_conscriptable_friend(1, 2));
    world.kitties[b].activity = Activity::Sleeping {
        in_sunbeam: false,
        with_friend: None,
    };
    world.kitties[b].activity_clock = Some(ActivityClock::start(0));
    assert!(!world.is_conscriptable_friend(1, 2), "a sleeping cat is never drafted");
    assert!(world.is_settled(2));
    assert!(!world.is_settled(1));
}

#[test]
fn elements_never_step_onto_each_other_or_off_the_grid() {
    let mut world = two_cats();
    world.push_element(Element {
        id: 1,
        kind: ElementKind::Bug,
        pos: Position::new(0, 0),
        ttl: Some(10),
    });
    world.push_element(Element {
        id: 2,
        kind: ElementKind::Water,
        pos: Position::new(1, 0),
        ttl: None,
    });
    world.try_step_element(0, Direction::East);
    assert_eq!(world.elements[0].pos, Position::new(0, 0), "the tile is taken");
    world.try_step_element(0, Direction::North);
    assert_eq!(world.elements[0].pos, Position::new(0, 0), "the grid ends here");
    world.try_step_element(0, Direction::South);
    assert_eq!(world.elements[0].pos, Position::new(0, 1));
    world.try_step_element(7, Direction::South);
    assert_eq!(world.elements.len(), 2, "an unknown index moves nothing");
}

#[test]
fn expiry_counts_down_and_drops_only_elements() {
    let mut world = two_cats();
    world.push_element(Element {
        id: 1,
        kind: ElementKind::Bug,
        pos: Position::new(0, 0),
        ttl: Some(1),
    });
    world.push_element(Element {
        id: 2,
        kind: ElementKind::Sunbeam,
        pos: Position::new(1, 0),
        ttl: Some(3),
    });
    world.push_element(Element {
        id: 3,
        kind: ElementKind::Chow { servings: 0 },
        pos: Position::new(2, 0),
        ttl: None,
    });
    world.push_element(Element {
        id: 4,
        kind: ElementKind::Water,
        pos: Position::new(3, 0),
        ttl: None,
    });
    world.expire_elements();
    let ids: Vec<u32> = world.elements.iter().map(|e| e.id).collect();
    assert_eq!(ids, vec![2, 4]);
    assert_eq!(world.elements[0].ttl, Some(2));
    assert_eq!(world.kitties.len(), 2, "kitties never expire");
}

fn all_hungry() -> [bool; 6] {
    [false; 6]
}

#[test]
fn a_meal_waits_out_its_minimum_and_ends_at_its_maximum() {
    let mut world = two_cats();
    let d = durations();
    world.push_element(Element {
        id: 70,
        kind: ElementKind::Chow { servings: 5 },
        pos: Position::new(3, 4),
        ttl: None,
    });
    let a = world.kitty_index(1).unwrap();
    world.kitties[a].activity = Activity::Eating;
    world.kitties[a].activity_clock = Some(ActivityClock::start(10));
    // Content already, but inside the minimum: the meal goes on.
    let mut sated = [all_hungry(), all_hungry()];
    sated[0][0] = true;
    world.tick = 10;
    world.resolve_activity_ends(&d, &sated);
    assert_eq!(world.kitty(1).unwrap().activity, Activity::Eating);
    // At the minimum with the need at zero: it ends.
    world.tick = 10 + d.eat.min - 1;
    world.resolve_activity_ends(&d, &sated);
    assert_eq!(world.kitty(1).unwrap().activity, Activity::Idle);
    assert_eq!(world.pending_endings.len(), 1);

    // Still hungry: the meal runs to its maximum and no further.
    let a = world.kitty_index(1).unwrap();
    world.kitties[a].activity = Activity::Eating;
    world.kitties[a].activity_clock = Some(ActivityClock::start(100));
    let hungry = [all_hungry(), all_hungry()];
    world.tick = 100 + d.eat.max - 2;
    world.resolve_activity_ends(&d, &hungry);
    assert_eq!(world.kitty(1).unwrap().activity, Activity::Eating);
    world.tick = 100 + d.eat.max - 1;
    world.resolve_activity_ends(&d, &hungry);
    assert_eq!(world.kitty(1).unwrap().activity, Activity::Idle, "the cap holds");
}

#[test]
fn an_emptied_bowl_ends_the_meal_once_the_minimum_is_met() {
    let mut world = two_cats();
    let d = durations();
    world.push_element(Element {
        id: 71,
        kind: ElementKind::Chow { servings: 0 },
        pos: Position::new(3, 4),
        ttl: None,
    });
    let a = world.kitty_index(1).unwrap();
    world.kitties[a].activity = Activity::Eating;
    world.kitties[a].activity_clock = Some(ActivityClock::start(10));
    let hungry = [all_hungry(), all_hungry()];
    world.tick = 10;
    world.resolve_activity_ends(&d, &hungry);
    assert_eq!(world.kitty(1).unwrap().activity, Activity::Eating, "pauses below the minimum");
    world.tick = 10 + d.eat.min - 1;
    world.resolve_activity_ends(&d, &hungry);
    assert_eq!(world.kitty(1).unwrap().activity, Activity::Idle, "and ends at it");
}

#[test]
fn a_duet_ends_for_both_when_either_is_content() {
    let mut world = two_cats();
    let d = durations();
    let a = world.kitty_index(1).unwrap();
    let b = world.kitty_index(2).unwrap();
    world.kitties[b].pos = Position::new(3, 4);
    world.kitties[a].activity = Activity::Playing {
        target: Some(TargetRef::Kitty { id: 2 }),
    };
    world.kitties[b].activity = Activity::Playing {
        target: Some(TargetRef::Kitty { id: 1 }),
    };
    world.kitties[a].activity_clock = Some(ActivityClock::start(20));
    world.kitties[b].activity_clock = Some(ActivityClock::start(20));
    let mut sated = [all_hungry(), all_hungry()];
    sated[1][3] = true; // Biscuit has had enough play
    world.tick = 20 + d.play.min;
    world.resolve_activity_ends(&d, &sated);
    assert_eq!(world.kitty(1).unwrap().activity, Activity::Idle);
    assert_eq!(world.kitty(2).unwrap().activity, Activity::Idle);
    assert_eq!(world.pending_endings.len(), 2, "both scenes recorded once");
}

#[test]
fn contagion_membership_follows_the_scene_and_the_rule() {
    let mut world = two_cats();
    world.push_element(Element {
        id: 60,
        kind: ElementKind::Water,
        pos: Position::new(3, 3),
        ttl: None,
    });
    let b = world.kitty_index(2).unwrap();
    world.kitties[b].pos = Position::new(3, 4);
    // The dry cat grooms the wet one: its own activity names a wet partner.
    world.kitties[b].activity = Activity::Grooming { target: Some(1) };
    assert_eq!(world.contagion_members(ContagionMembership::OptionA, true), vec![2]);
    assert!(world.contagion_members(ContagionMembership::OptionA, false).is_empty());

    // The wet cat grooms the dry one: only the bidirectional rule admits it.
    world.kitties[b].activity = Activity::Idle;
    let a = world.kitty_index(1).unwrap();
    world.kitties[a].activity = Activity::Grooming { target: Some(2) };
    assert!(world.contagion_members(ContagionMembership::OptionA, true).is_empty());
    assert_eq!(
        world.contagion_members(ContagionMembership::Bidirectional, true),
        vec![2]
    );

    // A partner who wandered off draws no charge.
    world.kitties[b].pos = Position::new(9, 9);
    assert!(world
        .contagion_members(ContagionMembership::Bidirectional, true)
        .is_empty());
}

// ---- distress ------------------------------------------------------------

/// The host's distress table for `two_cats`: which needs of each kitty (in
/// roster order) are at or past the threshold.
fn table(first: &[NeedKind], second: &[NeedKind]) -> Vec<[bool; 6]> {
    let mut rows = vec![[false; 6], [false; 6]];
    for kind in first {
        rows[0][need_index(*kind)] = true;
    }
    for kind in second {
        rows[1][need_index(*kind)] = true;
    }
    rows
}

#[test]
fn distress_is_edge_triggered() {
    let mut world = two_cats();

    // Push a need over the threshold and record.
    world.record_distress(&table(&[NeedKind::Eat], &[]));
    assert_eq!(world.distress.len(), 1);

    // Still over the threshold on later ticks: no new events.
    for _ in 0..10 {
        world.record_distress(&table(&[NeedKind::Eat], &[]));
    }
    assert_eq!(world.distress.len(), 1, "one event per crossing");

    // Drop below, then cross again: a second event.
    world.record_distress(&table(&[], &[]));
    assert_eq!(world.distress.len(), 1);

    world.record_distress(&table(&[NeedKind::Eat], &[]));
    assert_eq!(world.distress.len(), 2, "re-armed after dropping below");
}

#[test]
fn distress_since_is_stamped_on_crossing_and_cleared_on_recovery() {
    let mut world = two_cats();
    let play = need_index(NeedKind::Play);
    world.tick = 100;
    world.record_distress(&table(&[NeedKind::Play], &[]));
    assert_eq!(world.kitty(1).unwrap().distress_since[play], Some(100));

    // Still distressed later: the first stamp is preserved.
    world.tick = 150;
    world.record_distress(&table(&[NeedKind::Play], &[]));
    assert_eq!(
        world.kitty(1).unwrap().distress_since[play],
        Some(100),
        "the age keeps counting from the crossing"
    );

    // Recovery clears both the distress and its age.
    world.record_distress(&table(&[], &[]));
    let kitty = world.kitty(1).unwrap();
    assert!(!kitty.in_distress[play]);
    assert_eq!(kitty.distress_since[play], None);
}

#[test]
fn a_pre_004_resume_self_heals_its_distress_ages() {
    let mut world = two_cats();
    let bath = need_index(NeedKind::Bath);
    // In distress, but no start tick recorded.
    let idx = world.kitty_index(1).unwrap();
    world.kitties[idx].in_distress[bath] = true;
    world.kitties[idx].distress_since = [None; 6];

    world.tick = 500;
    world.record_distress(&table(&[NeedKind::Bath], &[]));
    assert_eq!(
        world.kitty(1).unwrap().distress_since[bath],
        Some(500),
        "the age starts counting from the resume, not from a guess"
    );
}

#[test]
fn distress_events_name_the_kitty_the_need_and_the_tick() {
    let mut world = two_cats();
    world.tick = 42;
    let events = world.record_distress(&table(&[NeedKind::Drink], &[NeedKind::Eat, NeedKind::Bath]));
    let seen: Vec<(u32, NeedKind, u64)> = events.iter().map(|e| (e.kitty_id, e.need, e.tick)).collect();
    assert_eq!(
        seen,
        vec![
            (1, NeedKind::Drink, 42),
            (2, NeedKind::Eat, 42),
            (2, NeedKind::Bath, 42),
        ]
    );
    assert_eq!(world.distress.len(), 3);
}

// ---- snapshots -------------------------------------------------------------

#[test]
fn a_snapshot_round_trips_the_rule_state() {
    let mut world = two_cats();
    world.tick = 33;
    world.push_element(Element {
        id: 5,
        kind: ElementKind::Water,
        pos: Position::new(1, 1),
        ttl: None,
    });
    world.push_element(Element {
        id: 9,
        kind: ElementKind::Chow { servings: 2 },
        pos: Position::new(4, 4),
        ttl: Some(7),
    });
    let snap = world.snapshot();
    assert_eq!((snap.width, snap.height, snap.tick), (16, 16, 33));
    assert_eq!(snap.elements, world.elements);
    let names: Vec<&str> = snap.kitties.iter().map(|k| k.name.as_str()).collect();
    assert_eq!(names, vec!["Miso", "Biscuit"]);

    let mut rebuilt = World::from_snapshot(&snap);
    assert_eq!(rebuilt.tick, 33);
    assert_eq!(rebuilt.elements, world.elements);
    assert_eq!(rebuilt.kitty(2).unwrap().pos, Position::new(12, 12));
    assert_eq!(rebuilt.distress.len(), 0);
    assert_eq!(rebuilt.allocate_element_id(), 10, "ids resume past the largest");
}

#[test]
fn a_rebuilt_world_counts_ids_from_one_when_empty_or_at_the_top() {
    let world = World::new(4, 4, 1, Vec::new(), &EventsConfig::default_events());
    assert_eq!(World::from_snapshot(&world.snapshot()).next_element_id, 1);

    let mut top = World::new(4, 4, 1, Vec::new(), &EventsConfig::default_events());
    top.elements.push(Element {
        id: u32::MAX,
        kind: ElementKind::Water,
        pos: Position::new(0, 0),
        ttl: None,
    });
    assert_eq!(World::from_snapshot(&top.snapshot()).next_element_id, 1);
}

// ---- announce arming -------------------------------------------------------

#[test]
fn arming_follows_the_edge_rule_and_holds_within_the_band() {
    let mut world = two_cats();
    let eat = need_index(NeedKind::Eat);
    let play = need_index(NeedKind::Play);
    let mut bands = vec![[ArmingBand::Below; 6], [ArmingBand::Below; 6]];
    bands[0][eat] = ArmingBand::AtOrAbove;
    world.update_announce_arming(&bands);
    assert!(world.kitty(1).unwrap().announce_armed[eat]);
    assert!(!world.kitty(1).unwrap().announce_armed[play]);

    // Inside the band: the arming holds either way.
    bands[0][eat] = ArmingBand::Within;
    bands[0][play] = ArmingBand::Within;
    world.update_announce_arming(&bands);
    assert!(world.kitty(1).unwrap().announce_armed[eat], "armed stays armed in the band");
    assert!(!world.kitty(1).unwrap().announce_armed[play], "disarmed stays disarmed in the band");

    // Below the band: disarmed.
    bands[0][eat] = ArmingBand::Below;
    world.update_announce_arming(&bands);
    assert!(!world.kitty(1).unwrap().announce_armed[eat]);
    assert!(world.kitty(2).unwrap().announce_armed.iter().all(|a| !a));
}

// ---- purr durations --------------------------------------------------------

#[test]
fn purr_durations_stay_within_their_bounds() {
    let mut world = two_cats();
    for _ in 0..200 {
        let d = world.draw_purr_duration(30, 90);
        assert!((30..=90).contains(&d), "{d} outside [30, 90]");
    }
    assert_eq!(world.draw_purr_duration(7, 7), 7);
}

#[test]
fn equal_bounds_still_consult_the_generator() {
    let mut idle = two_cats();
    let mut busy = two_cats();
    assert_eq!(busy.draw_purr_duration(40, 40), 40);
    assert_ne!(idle.rng.next_u64(), busy.rng.next_u64());
}

#[test]
fn snapshot_queries_see_the_snapshot() {
    let kitties = vec![
        Kitty::new(1, "Miso", Position::new(3, 3), "needs_driven"),
        Kitty::new(2, "Biscuit", Position::new(12, 12), "playful"),
        Kitty::new(3, "Tofu", Position::new(5, 3), "idle"),
        Kitty::new(4, "Pumpkin", Position::new(3, 5), "idle"),
    ];
    let mut world = World::new(16, 16, 9, kitties, &EventsConfig::default_events());
    world.push_element(Element {
        id: 1,
        kind: ElementKind::Water,
        pos: Position::new(0, 0),
        ttl: None,
    });
    world.push_element(Element {
        id: 2,
        kind: ElementKind::Bug,
        pos: Position::new(9, 9),
        ttl: Some(30),
    });
    world.push_element(Element {
        id: 3,
        kind: ElementKind::Water,
        pos: Position::new(1, 0),
        ttl: None,
    });
    let snap = world.snapshot();

    let others: Vec<u32> = snap.others(1).iter().map(|k| k.id).collect();
    assert_eq!(others, vec![2, 3, 4]);
    let waters: Vec<u32> = snap.elements_of(ElementType::Water).iter().map(|e| e.id).collect();
    assert_eq!(waters, vec![1, 3]);
    let critters: Vec<u32> = snap.critters().iter().map(|e| e.id).collect();
    assert_eq!(critters, vec![2]);
    assert_eq!(snap.element_at(Position::new(1, 0)).map(|e| e.id), Some(3));
    assert!(snap.element_at(Position::new(2, 0)).is_none());
    assert_eq!(snap.kitty(4).map(|k| k.name.as_str()), Some("Pumpkin"));

    // Tofu and Pumpkin are both two tiles from Miso: the lower id wins.
    assert_eq!(snap.nearest_friend(1, Position::new(3, 3)).map(|k| k.id), Some(3));
    assert_eq!(snap.nearest_friend(2, Position::new(12, 12)).map(|k| k.id), Some(3));
    let alone = World::new(4, 4, 1, vec![Kitty::new(7, "Solo", Position::new(0, 0), "idle")], &EventsConfig::default_events());
    assert!(alone.snapshot().nearest_friend(7, Position::new(0, 0)).is_none());
    assert!(!snap.counterpart_gone(1));
}

#[test]
fn a_new_world_holds_its_kitties_in_id_order() {
    let kitties = vec![
        Kitty::new(7, "Tofu", Position::new(1, 1), "idle"),
        Kitty::new(2, "Biscuit", Position::new(2, 2), "playful"),
        Kitty::new(5, "Miso", Position::new(3, 3), "needs_driven"),
    ];
    let world = World::new(8, 8, 3, kitties, &EventsConfig::default_events());
    let ids: Vec<u32> = world.kitties.iter().map(|k| k.id).collect();
    assert_eq!(ids, vec![2, 5, 7]);
    assert_eq!(world.kitty(7).unwrap().name, "Tofu");
}

/// Where a need value stands against the default announce band (threshold
/// 30, hysteresis 5), as the host reads it.
fn band(value: f32) -> ArmingBand {
    if value >= 30.0 {
        ArmingBand::AtOrAbove
    } else if value < 30.0 - 5.0 {
        ArmingBand::Below
    } else {
        ArmingBand::Within
    }
}

#[test]
fn announce_arming_rises_holds_and_falls_on_the_hysteresis_edges() {
    // Armed at >= threshold, held anywhere in the band
    // [threshold - hysteresis, threshold), disarmed only below it.
    let mut world = two_cats();
    let eat = need_index(NeedKind::Eat);
    let set = |world: &mut World, value: f32| {
        let mut bands = vec![[ArmingBand::Below; 6], [ArmingBand::Below; 6]];
        bands[0][eat] = band(value);
        world.update_announce_arming(&bands);
    };
    let armed = |world: &World| world.kitty(1).unwrap().announce_armed[eat];

    // Rising: just below the threshold stays disarmed...
    set(&mut world, 29.9);
    assert!(!armed(&world), "below threshold never arms");
    // ...at the threshold arms.
    set(&mut world, 30.0);
    assert!(armed(&world), "the threshold is inclusive");

    // Held: relief into the band keeps the word speakable mid-errand.
    set(&mut world, 26.0);
    assert!(armed(&world), "the band holds an armed kind");

    // Falling: below threshold - hysteresis disarms.
    set(&mut world, 24.9);
    assert!(!armed(&world), "below the band disarms");

    // And a disarmed kind in the band stays disarmed.
    set(&mut world, 27.0);
    assert!(!armed(&world), "the band holds a disarmed kind too");
}

// ---- refusals --------------------------------------------------------------

#[test]
fn a_refused_proposal_is_stamped_and_a_legal_one_is_not() {
    let mut world = two_cats();
    world.tick = 17;
    // Legal: validated as proposed.
    world.stamp_refusal(1, Action::Eat, Action::Eat, Action::Eat);
    // Idle proposals are never refusals.
    world.stamp_refusal(1, Action::Idle, Action::Idle, Action::Idle);
    assert_eq!(world.refusal_log.len(), 0);

    // Refused mid-scene: the scene continued, so the refusal was absorbed.
    world.stamp_refusal(2, Action::Drink, Action::Idle, Action::Eat);
    // Refused with nothing to continue.
    world.tick = 18;
    world.stamp_refusal(1, Action::Eat, Action::Idle, Action::Idle);
    let stamps: Vec<(u32, Action, u64, bool)> = world
        .refusal_log
        .to_vec()
        .iter()
        .map(|e| (e.kitty_id, e.proposed, e.tick, e.absorbed))
        .collect();
    assert_eq!(
        stamps,
        vec![(2, Action::Drink, 17, true), (1, Action::Eat, 18, false)]
    );
}

#[test]
fn the_refusal_ring_keeps_its_configured_retention() {
    let events = EventsConfig {
        refusal_retention: 3,
        ..EventsConfig::default_events()
    };
    let kitties = vec![
        Kitty::new(1, "Miso", Position::new(3, 3), "needs_driven"),
        Kitty::new(2, "Biscuit", Position::new(12, 12), "playful"),
    ];
    let mut world = World::new(16, 16, 1234, kitties, &events);
    for tick in 0..5 {
        world.tick = tick;
        world.stamp_refusal(1, Action::Eat, Action::Idle, Action::Idle);
    }
    let ticks: Vec<u64> = world.refusal_log.to_vec().iter().map(|e| e.tick).collect();
    assert_eq!(ticks, vec![2, 3, 4], "the ring holds the newest 3 of 5, oldest dropped first");
}

#[test]
fn skipping_the_decision_draws_moves_the_master_like_a_deal() {
    let mut dealt = two_cats();
    let mut skipped = two_cats();
    dealt.deal_decision_seeds();
    skipped.advance_past_decision_draws();
    assert_eq!(dealt.rng.next_u64(), skipped.rng.next_u64());
}

#[test]
fn the_turn_order_is_fisher_yates_over_the_master_generator() {
    let mk = || {
        let kitties: Vec<Kitty> = (1..=5)
            .map(|id| Kitty::new(id, "cat", Position::new(id, 0), "idle"))
            .collect();
        World::new(16, 16, 31, kitties, &EventsConfig::default_events())
    };
    let (mut world, mut twin) = (mk(), mk());
    let order = world.draw_turn_order();
    let mut expected: Vec<u32> = vec![1, 2, 3, 4, 5];
    for i in (1..expected.len()).rev() {
        let j = twin.rng.gen_range_u32(0, i as u32 + 1) as usize;
        expected.swap(i, j);
    }
    assert_eq!(order, expected);
    // Both generators stand at the same place afterwards.
    assert_eq!(world.rng.next_u64(), twin.rng.next_u64());
}

#[test]
fn a_single_kitty_turn_order_takes_no_draw() {
    let mk = || {
        let kitties = vec![Kitty::new(9, "solo", Position::new(1, 1), "idle")];
        World::new(8, 8, 4, kitties, &EventsConfig::default_events())
    };
    let (mut world, mut untouched) = (mk(), mk());
    assert_eq!(world.draw_turn_order(), vec![9]);
    assert_eq!(world.rng.next_u64(), untouched.rng.next_u64());
}

fn meow_at(kitty_id: u32, kind: MessageKind, tick: u64) -> Meow {
    Meow {
        kitty_id,
        kind,
        tick,
        intensity_bits: 0.0f32.to_bits(),
        pos: Position::new(0, 0),
        reply: false,
    }
}

#[test]
fn per_tick_meowing_stays_bounded_by_the_pruning_window() {
    let mut world = two_cats();
    let window = default_meow_recent_window_ticks();
    for _ in 0..200 {
        world.tick += 1;
        let tick = world.tick;
        world.recent_meows.push(meow_at(1, MessageKind::WantPlay, tick));
        world.prune_transient(window);
    }
    assert!(
        world.recent_meows.len() as u64 <= window + 1,
        "bounded: {} entries for window {}",
        world.recent_meows.len(),
        window
    );
}

#[test]
fn pruning_keeps_exactly_the_meows_inside_the_window() {
    let mut world = two_cats();
    world.tick = 30;
    for t in [5u64, 19, 20, 21, 30] {
        world.recent_meows.push(meow_at(2, MessageKind::Chirp, t));
    }
    world.kitties[0].set_meow_cooldown(MessageKind::Mew, 30);
    world.kitties[0].set_meow_cooldown(MessageKind::Trill, 31);
    world.prune_transient(10);
    let ticks: Vec<u64> = world.recent_meows.iter().map(|m| m.tick).collect();
    assert_eq!(ticks, vec![20, 21, 30]);
    assert!(world.kitties[0].can_meow(MessageKind::Mew, 30));
    assert!(!world.kitties[0].can_meow(MessageKind::Trill, 30));
    // Early in a run the window reaches back to tick 0.
    let mut young = two_cats();
    young.tick = 3;
    young.recent_meows.push(meow_at(1, MessageKind::Mew, 0));
    young.prune_transient(10);
    assert_eq!(young.recent_meows.len(), 1);
}

#[test]
fn a_snapshot_carries_the_recent_meows_both_ways() {
    let mut world = two_cats();
    world.recent_meows.push(meow_at(1, MessageKind::WantEat, 0));
    let snap = world.snapshot();
    assert_eq!(snap.recent_meows, world.recent_meows);
    let back = World::from_snapshot(&snap);
    assert_eq!(back.recent_meows, world.recent_meows);
}

#[test]
fn a_dead_scene_ends_with_every_kitty_still_on_the_roster() {
    let mut world = two_cats();
    world.push_element(Element {
        id: 30,
        kind: ElementKind::Bug,
        pos: Position::new(3, 4),
        ttl: Some(9),
    });
    let a = world.kitty_index(1).unwrap();
    world.kitties[a].activity = Activity::Playing {
        target: Some(TargetRef::Element { id: 30 }),
    };
    world.kitties[a].activity_clock = Some(ActivityClock::start(1));
    world.elements.clear();
    let other = world.kitty(2).unwrap();
    let other_before = (other.pos, other.activity, other.activity_clock);
    world.prune_dead_activity(1);
    assert_eq!(world.kitties.len(), 2);
    assert_eq!(world.kitty(1).unwrap().activity, Activity::Idle);
    assert_eq!(world.kitty(1).unwrap().pos, Position::new(3, 3));
    let other = world.kitty(2).unwrap();
    assert_eq!((other.pos, other.activity, other.activity_clock), other_before);
    assert_eq!(world.activity_log.len(), 1);
}

#[test]
fn a_world_draws_from_its_own_seed_and_a_rebuilt_one_from_zero() {
    let mut world = World::new(8, 8, 4242, Vec::new(), &EventsConfig::default_events());
    let mut fresh = SimRng::from_seed(4242);
    assert_eq!(world.rng.next_u64(), fresh.next_u64());
    let mut rebuilt = World::from_snapshot(&two_cats().snapshot());
    let mut zero = SimRng::from_seed(0);
    assert_eq!(rebuilt.rng.next_u64(), zero.next_u64());
    assert_eq!(rebuilt.activity_log.len(), 0);
}
