use cloudkitty_core::meow::MessageKind;

#[test]
fn here_kinds_pins_the_all_order() {
    // The selection index is only stable if this ordering is: pinned to
    // the Here family's positions in ALL.
    assert_eq!(
        MessageKind::HERE_KINDS,
        [
            MessageKind::HereFood,
            MessageKind::HereWater,
            MessageKind::HereCritter,
            MessageKind::HereSunbeam,
        ]
    );
    let in_all: Vec<MessageKind> = MessageKind::ALL
        .iter()
        .copied()
        .filter(|k| MessageKind::HERE_KINDS.contains(k))
        .collect();
    assert_eq!(
        in_all,
        MessageKind::HERE_KINDS.to_vec(),
        "HERE_KINDS must preserve MessageKind::ALL order"
    );
}

use cloudkitty_core::config::{LawEra, MeowLaw, VocabularyConfig};
use cloudkitty_core::element::{Element, ElementKind};
use cloudkitty_core::grid::{Direction, Position};
use cloudkitty_core::kitty::{Kitty, Mood};
use cloudkitty_core::meow::{
    freshest_audible, known_relief, message_legal, referent_visible, reply_condition, HeardMeow,
};
use cloudkitty_core::needs::NeedKind;
use cloudkitty_core::world::FogView;

/// A clean stage: no elements, kitty 1 parked mid-meadow, tick 50.
struct Meadow {
    kitty: Kitty,
    tick: u64,
    law: MeowLaw,
    view: FogView,
    mood: Mood,
}

fn bare_meadow() -> Meadow {
    Meadow {
        kitty: Kitty::new(1, "Miso", Position::new(8, 8), "needs_driven"),
        tick: 50,
        law: MeowLaw {
            vocabulary: VocabularyConfig::default_vocabulary(),
            law_era: LawEra::Fog,
        },
        view: FogView {
            observer: 1,
            elements: Vec::new(),
            heard: Vec::new(),
            idle_friend_in_view: false,
        },
        mood: Mood {
            top_need: NeedKind::Eat,
            purr_earned: false,
        },
    }
}

fn legal(m: &Meadow, kind: MessageKind) -> bool {
    message_legal(&m.kitty, kind, m.tick, &m.law, &m.view, m.mood)
}

#[test]
fn here_food_needs_a_stocked_bowl_in_view() {
    let mut m = bare_meadow();
    m.view.heard.push(HeardMeow {
        kitty_id: 2,
        kind: MessageKind::WantEat,
        tick: 45,
    });
    m.view.elements.push(Element {
        id: 900,
        kind: ElementKind::Chow { servings: 0 },
        pos: Position::new(11, 8),
        ttl: None,
    });
    assert!(
        !referent_visible(MessageKind::HereFood, &m.view),
        "an emptied bowl is not food in view"
    );
    assert!(
        !legal(&m, MessageKind::HereFood),
        "no here_food for an empty bowl, however loud the want"
    );
    m.view.elements[0].kind = ElementKind::Chow { servings: 1 };
    assert!(referent_visible(MessageKind::HereFood, &m.view));
    assert!(
        legal(&m, MessageKind::HereFood),
        "stocked and a want audible: the reply arm opens"
    );
}

#[test]
fn a_here_word_is_legal_exactly_at_its_referent() {
    let referents: [(MessageKind, ElementKind); 4] = [
        (MessageKind::HereFood, ElementKind::Chow { servings: 2 }),
        (MessageKind::HereWater, ElementKind::Water),
        (MessageKind::HereCritter, ElementKind::Bug),
        (MessageKind::HereSunbeam, ElementKind::Sunbeam),
    ];
    for (kind, element_kind) in referents {
        let mut m = bare_meadow();
        assert!(!legal(&m, kind), "{kind:?} on bare grass is not a here");
        m.view.elements.push(Element {
            id: 900,
            kind: element_kind,
            pos: Position::new(8, 9),
            ttl: Some(50),
        });
        assert!(legal(&m, kind), "{kind:?} beside its referent is legal");
    }
}

#[test]
fn the_speakers_own_tile_grounds_a_here_word_too() {
    let mut m = bare_meadow();
    m.view.elements.push(Element {
        id: 901,
        kind: ElementKind::Sunbeam,
        pos: Position::new(8, 8),
        ttl: Some(50),
    });
    assert!(legal(&m, MessageKind::HereSunbeam));
}

#[test]
fn an_empty_bowl_is_not_food_here() {
    let mut m = bare_meadow();
    m.view.elements.push(Element {
        id: 902,
        kind: ElementKind::Chow { servings: 0 },
        pos: Position::new(8, 9),
        ttl: None,
    });
    assert!(!legal(&m, MessageKind::HereFood));
}

#[test]
fn a_far_critter_is_chaseable_but_not_here() {
    // The word means "here, with me", never "exists somewhere".
    let mut m = bare_meadow();
    m.view.elements.push(Element {
        id: 903,
        kind: ElementKind::Bug,
        pos: Position::new(1, 1),
        ttl: Some(200),
    });
    assert!(!legal(&m, MessageKind::HereCritter), "...and still not a here");
}

#[test]
fn the_cooldown_binds_the_here_family_like_every_kind() {
    let mut m = bare_meadow();
    m.view.elements.push(Element {
        id: 904,
        kind: ElementKind::Chow { servings: 2 },
        pos: Position::new(8, 9),
        ttl: None,
    });
    assert!(legal(&m, MessageKind::HereFood));
    let tick = m.tick;
    m.kitty.set_meow_cooldown(MessageKind::HereFood, tick + 5);
    assert!(
        !legal(&m, MessageKind::HereFood),
        "one live digest entry per kind per emitter, Here included"
    );
}

#[test]
fn the_free_register_needs_no_grounding() {
    let m = bare_meadow();
    assert!(legal(&m, MessageKind::Mew));
    assert!(legal(&m, MessageKind::Chirp));
}

#[test]
fn the_reserves_are_never_legal_until_armed_and_then_chirp_equivalent() {
    let mut m = bare_meadow();
    assert!(!legal(&m, MessageKind::Trill));
    assert!(!legal(&m, MessageKind::Ekekek));
    m.law.vocabulary.trill = true;
    m.law.vocabulary.ekekek = true;
    assert!(legal(&m, MessageKind::Trill));
    assert!(legal(&m, MessageKind::Ekekek));
}

#[test]
fn a_disabled_kind_is_never_legal_whatever_the_world_says() {
    let mut m = bare_meadow();
    m.view.elements.push(Element {
        id: 905,
        kind: ElementKind::Chow { servings: 3 },
        pos: Position::new(8, 9),
        ttl: None,
    });
    assert!(legal(&m, MessageKind::HereFood));
    m.law.vocabulary.here_food = false;
    assert!(!legal(&m, MessageKind::HereFood));
    m.law.vocabulary.mew = false;
    assert!(!legal(&m, MessageKind::Mew));
}

#[test]
fn wait_for_me_stays_outside_the_flag_system() {
    let m = bare_meadow();
    assert!(legal(&m, MessageKind::WaitForMe));
}

#[test]
fn mews_law_is_byte_identical_to_follow_mes() {
    let mut m = bare_meadow();
    assert!(legal(&m, MessageKind::Mew), "clear cooldown: legal");
    let tick = m.tick;
    m.kitty.set_meow_cooldown(MessageKind::Mew, tick + 3);
    assert!(!legal(&m, MessageKind::Mew), "on cooldown: not");
}

#[test]
fn freshest_audible_takes_max_tick_ties_to_the_lower_id_and_never_self() {
    let m = |kitty_id: u32, tick: u64| HeardMeow {
        kitty_id,
        kind: MessageKind::WantBath,
        tick,
    };
    let meows = vec![m(5, 10), m(2, 12), m(7, 12), m(3, 8)];
    let picked = freshest_audible(&meows, MessageKind::WantBath, 9).unwrap();
    assert_eq!((picked.kitty_id, picked.tick), (2, 12), "tie to the lower id");

    let picked = freshest_audible(&meows, MessageKind::WantBath, 2).unwrap();
    assert_eq!(picked.kitty_id, 7, "self excluded, next claimant wins");

    assert!(freshest_audible(&meows, MessageKind::WantPlay, 9).is_none());
}

#[test]
fn purr_is_earned_not_timed() {
    let mut m = bare_meadow();
    assert!(!legal(&m, MessageKind::Purr));
    m.mood.purr_earned = true;
    assert!(legal(&m, MessageKind::Purr));
    // Purr carries no cooldown of its own in the word law.
    let tick = m.tick;
    m.kitty.set_meow_cooldown(MessageKind::Purr, tick + 10);
    assert!(legal(&m, MessageKind::Purr));
}

#[test]
fn a_want_needs_its_need_armed_and_pressing_under_fog() {
    let mut m = bare_meadow();
    assert!(!legal(&m, MessageKind::WantEat), "not armed");
    m.kitty.announce_armed[0] = true; // eat
    assert!(legal(&m, MessageKind::WantEat), "armed, top need, no relief known");
    m.mood.top_need = NeedKind::Drink;
    assert!(!legal(&m, MessageKind::WantEat), "not the top need under fog");
    m.law.law_era = LawEra::PreFog;
    assert!(legal(&m, MessageKind::WantEat), "the pre-fog law is armed-only");
}

#[test]
fn known_relief_silences_a_want_but_never_the_bath_ask() {
    let mut m = bare_meadow();
    m.kitty.announce_armed[0] = true; // eat
    m.kitty.announce_armed[5] = true; // bath
    m.view.elements.push(Element {
        id: 906,
        kind: ElementKind::Chow { servings: 1 },
        pos: Position::new(12, 12),
        ttl: None,
    });
    assert!(known_relief(MessageKind::WantEat, &m.kitty, &m.view));
    assert!(!legal(&m, MessageKind::WantEat), "a bowl in view silences want_eat");

    m.view.idle_friend_in_view = true;
    m.mood.top_need = NeedKind::Bath;
    assert!(!known_relief(MessageKind::WantBath, &m.kitty, &m.view));
    assert!(legal(&m, MessageKind::WantBath), "the bath ask is armed-only");

    // Remembered food is relief too.
    let mut m = bare_meadow();
    m.kitty.memory[1] = Some(cloudkitty_core::kitty::MemorySlot {
        pos: Position::new(0, 0),
        last_seen: 3,
    });
    assert!(known_relief(MessageKind::WantEat, &m.kitty, &m.view));
    assert!(!known_relief(MessageKind::WantDrink, &m.kitty, &m.view));

    // Play: a remembered critter or a friend in view.
    let mut m = bare_meadow();
    assert!(!known_relief(MessageKind::WantPlay, &m.kitty, &m.view));
    m.kitty.memory[3] = Some(cloudkitty_core::kitty::MemorySlot {
        pos: Position::new(2, 2),
        last_seen: 9,
    });
    assert!(known_relief(MessageKind::WantPlay, &m.kitty, &m.view));
    assert!(!known_relief(MessageKind::WantSleep, &m.kitty, &m.view));
}

#[test]
fn the_reply_condition_needs_another_cats_want_and_a_visible_referent() {
    let mut m = bare_meadow();
    m.view.elements.push(Element {
        id: 907,
        kind: ElementKind::Greeble {
            heading: Direction::North,
        },
        pos: Position::new(13, 13),
        ttl: Some(40),
    });
    assert!(!reply_condition(MessageKind::HereCritter, &m.view), "nobody asked");
    m.view.heard.push(HeardMeow {
        kitty_id: 1,
        kind: MessageKind::WantPlay,
        tick: 49,
    });
    assert!(
        !reply_condition(MessageKind::HereCritter, &m.view),
        "the speaker's own want does not count"
    );
    m.view.heard.push(HeardMeow {
        kitty_id: 2,
        kind: MessageKind::WantPlay,
        tick: 49,
    });
    assert!(reply_condition(MessageKind::HereCritter, &m.view));
    assert!(legal(&m, MessageKind::HereCritter), "a far critter, but asked for");
    assert!(
        !reply_condition(MessageKind::Mew, &m.view),
        "a sound word answers nothing"
    );
}

#[test]
fn wait_for_me_is_a_patience_word() {
    // In the vocabulary, no related need (urgency never touches a word
    // whose meaning is patience), wire name stable.
    assert!(MessageKind::ALL.contains(&MessageKind::WaitForMe));
    assert_eq!(MessageKind::WaitForMe.related_need(), None);
    assert_eq!(MessageKind::WaitForMe.wire_name(), "wait_for_me");
}

#[test]
fn need_to_message_mapping_round_trips() {
    // Total both ways: every need has its word, and every want-kind points
    // back at its need.
    for need in cloudkitty_core::needs::all_needs() {
        let msg = MessageKind::for_need(need);
        assert_eq!(msg.related_need(), Some(need));
    }
    assert_eq!(MessageKind::WantBath.wire_name(), "want_bath");
    assert_eq!(MessageKind::WantSleep.wire_name(), "want_sleep");
}
