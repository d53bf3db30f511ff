use cloudkitty_core::action::{Action, TargetRef};
use cloudkitty_core::kitty::{Activity, ActivityClock};
use cloudkitty_core::needs::NeedKind;

#[test]
fn the_elapsed_convention_is_inclusive() {
    let clock = ActivityClock::start(10);
    assert_eq!(clock.elapsed(10), 1, "the starting tick counts");
    assert_eq!(clock.elapsed(14), 5);
    assert_eq!(clock.serviced_before(10), 0);
    assert_eq!(clock.serviced_before(12), 2, "min 2 is met from tick 12");
}

#[test]
fn continuation_actions_mirror_their_activities() {
    assert_eq!(Activity::Eating.continuation(), Some(Action::Eat));
    assert_eq!(
        Activity::Playing {
            target: Some(TargetRef::Element { id: 7 })
        }
        .continuation(),
        Some(Action::Play {
            target: Some(TargetRef::Element { id: 7 })
        })
    );
    assert_eq!(Activity::Idle.continuation(), None);

    // Idle continues anything in progress; a different play target is a
    // switch, not a continuation.
    let playing = Activity::Playing {
        target: Some(TargetRef::Element { id: 7 }),
    };
    assert!(playing.is_continued_by(&Action::Idle));
    assert!(playing.is_continued_by(&Action::Play {
        target: Some(TargetRef::Element { id: 7 })
    }));
    assert!(!playing.is_continued_by(&Action::Play {
        target: Some(TargetRef::Element { id: 8 })
    }));
    assert!(!playing.is_continued_by(&Action::Eat));
    assert!(!Activity::Idle.is_continued_by(&Action::Idle));
}

#[test]
fn every_activity_names_its_governing_need_or_lawfully_has_none() {
    assert_eq!(Activity::Eating.governing_need(), Some(NeedKind::Eat));
    assert_eq!(Activity::Drinking.governing_need(), Some(NeedKind::Drink));
    assert_eq!(
        Activity::Playing { target: None }.governing_need(),
        Some(NeedKind::Play)
    );
    assert_eq!(
        Activity::Grooming { target: Some(2) }.governing_need(),
        Some(NeedKind::Bath),
        "friend-grooming is governed by bath (the *friend's* -- whose is the engine's business)"
    );
    assert_eq!(
        Activity::Sleeping {
            in_sunbeam: true,
            with_friend: None
        }
        .governing_need(),
        Some(NeedKind::Sleep)
    );
    assert_eq!(
        Activity::Resting {
            with_friend: Some(2)
        }
        .governing_need(),
        Some(NeedKind::Cuddle)
    );
    // Solo rest is posture, not relief: no governing need, ends by
    // interrupt or cap. Idle is not an activity at all.
    assert_eq!(
        Activity::Resting { with_friend: None }.governing_need(),
        None
    );
    assert_eq!(Activity::Idle.governing_need(), None);
}

#[test]
fn duet_partners_are_only_the_bound_kind() {
    assert_eq!(
        Activity::Playing {
            target: Some(TargetRef::Kitty { id: 2 })
        }
        .duet_partner(),
        Some(2)
    );
    // Resting references a friend without binding them;
    // co-sleeping and grooming were always there.
    assert_eq!(
        Activity::Resting {
            with_friend: Some(2)
        }
        .duet_partner(),
        None
    );
    assert_eq!(
        Activity::Sleeping {
            in_sunbeam: false,
            with_friend: Some(2)
        }
        .duet_partner(),
        None
    );
    assert_eq!(Activity::Grooming { target: Some(2) }.duet_partner(), None);
}

use cloudkitty_core::grid::Position;
use cloudkitty_core::kitty::{AbandonedChase, Kitty};
use cloudkitty_core::meow::MessageKind;

fn kitty() -> Kitty {
    Kitty::new(1, "Miso", Position::new(3, 3), "needs_driven")
}

#[test]
fn new_kitties_start_content() {
    // Happiness and distress are real-valued and kept by the host; what the
    // record itself holds starts idle and unbookkept.
    let k = kitty();
    assert_eq!(k.activity, Activity::Idle);
    assert_eq!(k.name, "Miso");
    assert!(k.activity_clock.is_none());
    assert!(k.pursuit.is_none());
}

#[test]
fn meow_cooldown_gates_repeats() {
    let mut k = kitty();
    assert!(k.can_meow(MessageKind::WantPlay, 0));

    k.set_meow_cooldown(MessageKind::WantPlay, 15);
    assert!(!k.can_meow(MessageKind::WantPlay, 14));
    assert!(k.can_meow(MessageKind::WantPlay, 15));
    // Other message kinds are unaffected.
    assert!(k.can_meow(MessageKind::WantEat, 0));
}

#[test]
fn elapsed_cooldowns_are_pruned() {
    let mut k = kitty();
    k.set_meow_cooldown(MessageKind::WantEat, 5);
    k.set_meow_cooldown(MessageKind::WantPlay, 20);
    k.prune_meow_cooldowns(10);
    assert!(!k.meow_cooldowns.contains_key(&MessageKind::WantEat));
    assert!(k.meow_cooldowns.contains_key(&MessageKind::WantPlay));
}

#[test]
fn chase_exclusion_expires() {
    let mut k = kitty();
    let target = TargetRef::Element { id: 7 };
    k.abandoned_chases.push(AbandonedChase { target, until: 100 });
    assert!(k.is_chase_excluded(target, 99));
    assert!(!k.is_chase_excluded(target, 100), "until is exclusive");
    assert!(!k.is_chase_excluded(TargetRef::Kitty { id: 2 }, 50));
}

#[test]
fn an_untouched_need_reads_relief_at_the_dawn_of_time() {
    let mut k = kitty();
    assert_eq!(k.last_relief_tick(NeedKind::Bath), 0, "never = dawn of time");
    k.last_relief[0] = Some(1396);
    assert_eq!(k.last_relief_tick(NeedKind::Eat), 1396);
    assert_eq!(k.last_relief_tick(NeedKind::Drink), 0);
}

#[test]
fn clearing_an_activity_drops_its_clock_too() {
    let mut k = kitty();
    k.activity = Activity::Eating;
    k.activity_clock = Some(ActivityClock::start(4));
    k.clear_activity();
    assert_eq!(k.activity, Activity::Idle);
    assert!(k.activity_clock.is_none());
    assert_eq!(k.pos, Position::new(3, 3));
}
