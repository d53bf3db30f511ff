use cloudkitty_core::config::EventsConfig;
use cloudkitty_core::element::{Element, ElementKind, ElementType};
use cloudkitty_core::grid::Position;
use cloudkitty_core::action::TargetRef;
use cloudkitty_core::invariants::{assert_orthogonal_scenes, check, Vitals};
use cloudkitty_core::kitty::{Activity, Kitty};
use cloudkitty_core::needs::NeedKind;
use cloudkitty_core::world::World;

fn calm() -> Vitals {
    Vitals {
        stray_need: None,
        below_floor: None,
        eat_past_safeguard: None,
        drink_past_safeguard: None,
    }
}

fn test_world() -> (World, Vec<Vitals>) {
    let kitties = vec![
        Kitty::new(1, "Miso", Position::new(3, 3), "needs_driven"),
        Kitty::new(2, "Biscuit", Position::new(12, 12), "playful"),
    ];
    let mut world = World::new(16, 16, 1234, kitties, &EventsConfig::default_events());
    let stock = [
        (ElementKind::Water, 1, 1),
        (ElementKind::Chow { servings: 5 }, 8, 2),
        (ElementKind::Bug, 5, 9),
        (ElementKind::Sunbeam, 10, 4),
    ];
    for (i, (kind, x, y)) in stock.iter().enumerate() {
        world.push_element(Element {
            id: 1 + i as u32,
            kind: *kind,
            pos: Position::new(*x, *y),
            ttl: None,
        });
    }
    (world, vec![calm(), calm()])
}

#[test]
fn a_healthy_world_passes() {
    let (world, vitals) = test_world();
    check(&world, &vitals, "85").expect("a fresh world is lawful");
}

#[test]
fn a_lonely_world_is_a_violation() {
    let (mut world, mut vitals) = test_world();
    world.kitties.truncate(1);
    vitals.truncate(1);
    let err = check(&world, &vitals, "85").unwrap_err();
    assert!(err.article.contains("Article III"), "{:?}", err);
    assert_eq!(err.detail, "world holds 1 kitties");
}

#[test]
fn happiness_below_the_floor_is_a_violation() {
    let (world, mut vitals) = test_world();
    vitals[0].below_floor = Some(("0".to_string(), "5".to_string()));
    let err = check(&world, &vitals, "85").unwrap_err();
    assert!(err.article.contains("Article I"), "{:?}", err);
    assert_eq!(err.detail, "Miso's happiness is 0, below the floor of 5");
}

#[test]
fn stacked_kitties_are_a_violation() {
    let (mut world, vitals) = test_world();
    let pos = world.kitties[0].pos;
    world.kitties[1].pos = pos;
    let err = check(&world, &vitals, "85").unwrap_err();
    assert_eq!(err.detail, "two kitties share tile (3, 3)");
}

#[test]
fn a_hungry_kitty_with_no_food_is_a_violation() {
    let (mut world, mut vitals) = test_world();
    world
        .elements
        .retain(|e| e.element_type() != ElementType::Chow);
    vitals[0].eat_past_safeguard = Some("99.0".to_string());
    let err = check(&world, &vitals, "85").unwrap_err();
    assert!(err.article.contains("Article I"), "{:?}", err);
    assert!(err.detail.contains("chow"), "{:?}", err);
    assert_eq!(
        err.detail,
        "Miso's eat need is 99.0 (past the safeguard threshold of 85) but no chow exists"
    );
}

#[test]
fn out_of_bounds_kitties_are_caught() {
    let (mut world, vitals) = test_world();
    world.kitties[0].pos = Position::new(world.width + 5, 0);
    let err = check(&world, &vitals, "85").unwrap_err();
    assert_eq!(err.detail, "Miso is at (21, 0), outside the 16x16 world");
}

#[test]
fn a_need_out_of_bounds_is_named() {
    let (world, mut vitals) = test_world();
    vitals[1].stray_need = Some((NeedKind::Play, "101".to_string()));
    let err = check(&world, &vitals, "85").unwrap_err();
    assert_eq!(err.detail, "Biscuit's play need is 101, outside [0, 100]");
}

#[test]
fn stacked_elements_are_a_violation() {
    let (mut world, vitals) = test_world();
    world.push_element(Element {
        id: 77,
        kind: ElementKind::Sunbeam,
        pos: Position::new(1, 1),
        ttl: Some(5),
    });
    let err = check(&world, &vitals, "85").unwrap_err();
    assert_eq!(err.article, "World integrity");
    assert_eq!(err.detail, "two elements share tile (1, 1)");
}

#[test]
fn a_full_world_defers_the_relief_guarantee() {
    let kitties = vec![
        Kitty::new(1, "Miso", Position::new(0, 0), "x"),
        Kitty::new(2, "Biscuit", Position::new(1, 0), "x"),
    ];
    let mut world = World::new(2, 1, 0, kitties, &EventsConfig::default_events());
    world.push_element(Element {
        id: 1,
        kind: ElementKind::Sunbeam,
        pos: Position::new(0, 0),
        ttl: Some(9),
    });
    world.push_element(Element {
        id: 2,
        kind: ElementKind::Bug,
        pos: Position::new(1, 0),
        ttl: Some(9),
    });
    let mut vitals = vec![calm(), calm()];
    vitals[1].drink_past_safeguard = Some("90.0".to_string());
    assert!(check(&world, &vitals, "85").is_ok(), "no room to provide: deferred");
}

#[test]
fn scenes_must_stay_in_orthogonal_range() {
    let kitties = vec![
        Kitty::new(1, "Miso", Position::new(3, 3), "needs_driven"),
        Kitty::new(2, "Biscuit", Position::new(4, 3), "playful"),
    ];
    let mut world = World::new(16, 16, 1, kitties, &EventsConfig::default_events());
    world.tick = 12;
    assert_eq!(assert_orthogonal_scenes(&world), Ok(()), "idle kitties carry no law");

    world.kitties[0].activity = Activity::Drinking;
    assert_eq!(
        assert_orthogonal_scenes(&world),
        Err("Miso is drinking with no water in orthogonal range at tick 12".to_string())
    );
    world.push_element(Element {
        id: 1,
        kind: ElementKind::Water,
        pos: Position::new(3, 4),
        ttl: None,
    });
    assert_eq!(assert_orthogonal_scenes(&world), Ok(()));

    world.kitties[1].activity = Activity::Playing {
        target: Some(TargetRef::Kitty { id: 1 }),
    };
    assert_eq!(assert_orthogonal_scenes(&world), Ok(()), "the partner is beside Biscuit");
    world.kitties[0].pos = Position::new(3, 2);
    world.kitties[0].activity = Activity::Idle;
    assert_eq!(
        assert_orthogonal_scenes(&world),
        Err("Biscuit's duet partner is out of orthogonal range at tick 12".to_string())
    );
}
