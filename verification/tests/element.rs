use cloudkitty_core::element::{Element, ElementKind, ElementType};
use cloudkitty_core::grid::Position;
use cloudkitty_core::needs::NeedKind;

fn chow(servings: u32) -> Element {
    Element {
        id: 1,
        kind: ElementKind::Chow { servings },
        pos: Position::new(0, 0),
        ttl: None,
    }
}

#[test]
fn chow_expires_when_emptied() {
    assert!(!chow(1).is_expired());
    assert!(chow(0).is_expired());
}

#[test]
fn timed_elements_expire_at_zero() {
    let mut bug = Element {
        id: 2,
        kind: ElementKind::Bug,
        pos: Position::new(1, 1),
        ttl: Some(2),
    };
    assert!(!bug.is_expired());
    bug.tick_ttl();
    assert!(!bug.is_expired());
    bug.tick_ttl();
    assert!(bug.is_expired());
    // Saturating: ticking past zero stays at zero rather than wrapping.
    bug.tick_ttl();
    assert_eq!(bug.ttl, Some(0));
}

#[test]
fn permanent_elements_never_expire() {
    let water = Element {
        id: 3,
        kind: ElementKind::Water,
        pos: Position::new(2, 2),
        ttl: None,
    };
    assert!(!water.is_expired());
}

#[test]
fn only_food_and_water_are_safeguard_resources() {
    assert_eq!(
        ElementType::for_need(NeedKind::Eat),
        Some(ElementType::Chow)
    );
    assert_eq!(
        ElementType::for_need(NeedKind::Drink),
        Some(ElementType::Water)
    );
    for need in [
        NeedKind::Play,
        NeedKind::Cuddle,
        NeedKind::Sleep,
        NeedKind::Bath,
    ] {
        assert_eq!(ElementType::for_need(need), None);
    }
}

#[test]
fn bugs_move_every_other_tick() {
    let bug = Element {
        id: 0,
        kind: ElementKind::Bug,
        pos: Position::new(0, 0),
        ttl: Some(10),
    };
    assert!(bug.critter_moves_this_tick(0));
    assert!(!bug.critter_moves_this_tick(1));
    assert!(bug.critter_moves_this_tick(2));
}
