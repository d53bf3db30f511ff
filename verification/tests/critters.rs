use cloudkitty_core::config::{ElementsConfig, EventsConfig};
use cloudkitty_core::element::{Element, ElementKind};
use cloudkitty_core::grid::{all_directions, Direction, Position};
use cloudkitty_core::kitty::Kitty;
use cloudkitty_core::world::World;

fn field(seed: u64) -> World {
    let kitties = vec![Kitty::new(1, "Miso", Position::new(0, 0), "idle")];
    World::new(16, 16, seed, kitties, &EventsConfig::default_events())
}

fn critter(id: u32, kind: ElementKind, x: u32, y: u32) -> Element {
    Element { id, kind, pos: Position::new(x, y), ttl: Some(300) }
}

fn greeble(id: u32, x: u32, y: u32) -> Element {
    critter(id, ElementKind::Greeble { heading: Direction::North }, x, y)
}

fn ahead(p: Position, d: Direction) -> Position {
    match d {
        Direction::North => Position::new(p.x, p.y - 1),
        Direction::East => Position::new(p.x + 1, p.y),
        Direction::South => Position::new(p.x, p.y + 1),
        Direction::West => Position::new(p.x - 1, p.y),
    }
}

#[test]
fn a_bug_rests_on_its_off_tick_and_draws_nothing() {
    let (mut world, mut twin) = (field(3), field(3));
    world.tick = 4;
    world.push_element(critter(7, ElementKind::Bug, 8, 8));
    world.move_critters(&ElementsConfig::default_elements());
    assert_eq!(world.elements[0].pos, Position::new(8, 8));
    assert_eq!(world.rng.next_u64(), twin.rng.next_u64());
}

#[test]
fn a_moving_bug_steps_the_way_its_draw_points() {
    let (mut world, mut twin) = (field(21), field(21));
    world.tick = 4;
    world.push_element(critter(8, ElementKind::Bug, 8, 8));
    world.move_critters(&ElementsConfig::default_elements());
    let dirs = all_directions();
    let dir = *twin.rng.choose_one(&dirs).unwrap();
    assert_eq!(world.elements[0].pos, ahead(Position::new(8, 8), dir));
    assert_eq!(world.rng.next_u64(), twin.rng.next_u64());
}

#[test]
fn a_blocked_bug_stays_but_still_spends_its_draw() {
    let (mut world, mut twin) = (field(5), field(5));
    world.tick = 0;
    world.push_element(critter(2, ElementKind::Bug, 5, 5));
    for (id, (x, y)) in [(10u32, (5u32, 4u32)), (11, (6, 5)), (12, (5, 6)), (13, (4, 5))] {
        world.push_element(critter(id, ElementKind::Water, x, y));
    }
    world.move_critters(&ElementsConfig::default_elements());
    assert_eq!(world.elements[0].pos, Position::new(5, 5));
    let dirs = all_directions();
    twin.rng.choose_one(&dirs);
    assert_eq!(world.rng.next_u64(), twin.rng.next_u64());
}

#[test]
fn tethered_bugs_never_leave_their_roam_cell() {
    let mut world = field(99);
    let mut rules = ElementsConfig::default_elements();
    rules.bug.roam_cell = Some(4);
    let starts = [(1u32, 1u32), (5, 6), (10, 13), (15, 15), (8, 3)];
    for (i, (x, y)) in starts.iter().enumerate() {
        world.push_element(critter(i as u32 + 1, ElementKind::Bug, *x, *y));
    }
    for _ in 0..300 {
        world.tick += 1;
        world.move_critters(&rules);
        for (el, (x, y)) in world.elements.iter().zip(starts.iter()) {
            assert_eq!((el.pos.x / 4, el.pos.y / 4), (x / 4, y / 4));
        }
    }
}

#[test]
fn critters_keep_to_their_own_tiles_and_the_grid() {
    let mut world = field(17);
    let mut rules = ElementsConfig::default_elements();
    for i in 0..6u32 {
        world.push_element(critter(i + 1, ElementKind::Bug, i * 2, 3));
        world.push_element(greeble(i + 20, i * 2 + 1, 9));
    }
    world.push_element(critter(40, ElementKind::Water, 7, 7));
    for round in 0..200 {
        rules.greeble.dart = round % 2 == 0;
        world.tick += 1;
        world.move_critters(&rules);
        assert_eq!(world.elements.len(), 13);
        assert_eq!(world.elements[12].pos, Position::new(7, 7), "water never moves");
        for (i, a) in world.elements.iter().enumerate() {
            assert!(a.pos.x < 16 && a.pos.y < 16);
            for b in &world.elements[i + 1..] {
                assert_ne!(a.pos, b.pos);
            }
        }
    }
}

#[test]
fn a_darting_greeble_rests_on_its_off_tick() {
    let (mut world, mut twin) = (field(12), field(12));
    world.tick = 1;
    world.push_element(greeble(2, 8, 8));
    let mut rules = ElementsConfig::default_elements();
    rules.greeble.dart = true;
    world.move_critters(&rules);
    assert_eq!(world.elements[0].pos, Position::new(8, 8));
    assert_eq!(world.elements[0].kind, ElementKind::Greeble { heading: Direction::North });
    assert_eq!(world.rng.next_u64(), twin.rng.next_u64());
}

#[test]
fn a_greeble_turns_and_skitters_by_its_draws() {
    for seed in 0..40u64 {
        let (mut world, mut twin) = (field(seed), field(seed));
        world.tick = 1;
        world.push_element(greeble(2, 8, 8));
        world.move_critters(&ElementsConfig::default_elements());
        let heading = if twin.rng.gen_ratio(3, 5) {
            *twin.rng.choose_one(&all_directions()).unwrap()
        } else {
            Direction::North
        };
        let steps = if twin.rng.gen_ratio(1, 2) { 2 } else { 1 };
        let mut expected = Position::new(8, 8);
        for _ in 0..steps {
            expected = ahead(expected, heading);
        }
        assert_eq!(world.elements[0].kind, ElementKind::Greeble { heading });
        assert_eq!(world.elements[0].pos, expected);
        assert_eq!(world.rng.next_u64(), twin.rng.next_u64());
    }
}
