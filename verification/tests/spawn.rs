use cloudkitty_core::config::{EdgePenalty, ElementsConfig, EventsConfig};
use cloudkitty_core::element::{Element, ElementKind, ElementType};
use cloudkitty_core::grid::Position;
use cloudkitty_core::kitty::Kitty;
use cloudkitty_core::spawn::{ensure_lake, jittered_ttl};
use cloudkitty_core::world::World;

fn meadow() -> World {
    let kitties = vec![
        Kitty::new(1, "Miso", Position::new(3, 3), "needs_driven"),
        Kitty::new(2, "Biscuit", Position::new(12, 12), "playful"),
    ];
    World::new(16, 16, 1234, kitties, &EventsConfig::default_events())
}

fn rules(water_min: u32) -> ElementsConfig {
    let mut e = ElementsConfig::default_elements();
    e.water.min = water_min;
    e.water.max = 10;
    e
}

fn has_lake(world: &World) -> bool {
    let water: Vec<Position> = world
        .elements
        .iter()
        .filter(|e| e.element_type() == ElementType::Water)
        .map(|e| e.pos)
        .collect();
    water.iter().any(|p| {
        p.x + 1 < world.width
            && p.y + 1 < world.height
            && [
                Position::new(p.x, p.y),
                Position::new(p.x + 1, p.y),
                Position::new(p.x, p.y + 1),
                Position::new(p.x + 1, p.y + 1),
            ]
            .iter()
            .all(|q| water.contains(q))
    })
}

fn water(id: u32, x: u32, y: u32) -> Element {
    Element {
        id,
        kind: ElementKind::Water,
        pos: Position::new(x, y),
        ttl: None,
    }
}

#[test]
fn a_well_watered_empty_world_gains_a_lake() {
    for seed in 0..20u64 {
        let mut world = World::new(16, 16, seed, Vec::new(), &EventsConfig::default_events());
        ensure_lake(&mut world, &rules(5));
        assert!(has_lake(&world), "seed {seed} raised no lake");
        assert_eq!(world.count_of(ElementType::Water), 4, "a lake from nothing is four tiles");
    }
}

#[test]
fn sparse_water_means_no_lake_and_nothing_added() {
    let mut world = meadow();
    ensure_lake(&mut world, &rules(1));
    assert!(world.elements.is_empty());
}

#[test]
fn a_damaged_lake_is_completed_in_place_not_rebuilt_elsewhere() {
    let mut world = meadow();
    for (i, (x, y)) in [(6u32, 6u32), (7, 6), (6, 7)].iter().enumerate() {
        world.push_element(water(9800 + i as u32, *x, *y));
    }
    ensure_lake(&mut world, &rules(4));
    assert_eq!(world.elements.len(), 4, "exactly the missing tile is added");
    assert_eq!(world.elements[3].pos, Position::new(7, 7));
    assert!(has_lake(&world));
}

#[test]
fn a_standing_lake_is_left_alone() {
    let mut world = meadow();
    for (i, (x, y)) in [(2u32, 9u32), (3, 9), (2, 10), (3, 10)].iter().enumerate() {
        world.push_element(water(50 + i as u32, *x, *y));
    }
    let before = world.elements.clone();
    ensure_lake(&mut world, &rules(4));
    assert_eq!(world.elements, before);
}

#[test]
fn a_full_board_defers_the_lake_without_evicting() {
    let mut world = World::new(4, 4, 3, Vec::new(), &EventsConfig::default_events());
    let mut id = 1;
    for y in 0..4 {
        for x in 0..4 {
            world.push_element(Element {
                id,
                kind: ElementKind::Chow { servings: 1 },
                pos: Position::new(x, y),
                ttl: None,
            });
            id += 1;
        }
    }
    let before = world.elements.clone();
    ensure_lake(&mut world, &rules(4));
    assert_eq!(world.elements, before, "nothing evicted, nothing stacked");
}

#[test]
fn new_lake_tiles_never_stack_on_occupied_ones() {
    let mut world = World::new(6, 6, 11, Vec::new(), &EventsConfig::default_events());
    world.push_element(water(1, 0, 0));
    world.push_element(Element {
        id: 2,
        kind: ElementKind::Sunbeam,
        pos: Position::new(1, 1),
        ttl: Some(40),
    });
    ensure_lake(&mut world, &rules(4));
    let mut tiles: Vec<Position> = world.elements.iter().map(|e| e.pos).collect();
    let n = tiles.len();
    tiles.sort();
    tiles.dedup();
    assert_eq!(tiles.len(), n, "one element per tile");
    assert!(has_lake(&world));
    assert_eq!(world.elements[1].kind, ElementKind::Sunbeam, "the sunbeam stays");
}

#[test]
fn timed_lake_tiles_get_jittered_lifetimes() {
    let mut world = World::new(8, 8, 5, Vec::new(), &EventsConfig::default_events());
    let mut e = rules(4);
    e.water.ttl = Some(200);
    e.ttl_jitter = 50;
    e.edge_penalty = EdgePenalty::Off;
    ensure_lake(&mut world, &e);
    assert_eq!(world.elements.len(), 4);
    for el in &world.elements {
        let t = el.ttl.expect("timed water");
        assert!((150..=250).contains(&t), "ttl {t} outside base ± jitter");
    }
}

#[test]
fn a_ttl_base_smaller_than_the_jitter_still_spawns_alive() {
    let mut world = meadow();
    for _ in 0..200 {
        let t = jittered_ttl(&mut world, 1, 100);
        assert!(t >= 1);
        assert!(t <= 101);
    }
}

#[test]
fn standing_water_is_completed_even_with_no_fresh_candidates() {
    let mut world = meadow();
    world.push_element(water(1, 6, 6));
    world.push_element(water(2, 7, 6));
    world.push_element(water(3, 6, 7));
    let mut r = rules(4);
    r.spread_candidates = 0;
    ensure_lake(&mut world, &r);
    assert!(has_lake(&world));
    assert_eq!(world.elements.len(), 4, "only the missing corner is added");
    assert_eq!(world.elements[3].pos, Position::new(7, 7));
}

#[test]
fn a_jittered_ttl_is_base_minus_jitter_plus_one_draw() {
    let (mut world, mut twin) = (meadow(), meadow());
    for _ in 0..100 {
        let t = jittered_ttl(&mut world, 200, 50);
        let offset = twin.rng.gen_range_u32(0, 101) as u64;
        assert_eq!(t, (200 + offset - 50).max(1));
    }
    let mut floored = meadow();
    let mut floor_twin = meadow();
    for _ in 0..100 {
        let t = jittered_ttl(&mut floored, 3, 10);
        let offset = floor_twin.rng.gen_range_u32(0, 21) as i64;
        assert_eq!(t as i64, (3 + offset - 10).max(1));
    }
    assert_eq!(floored.rng.next_u64(), floor_twin.rng.next_u64());
}

fn sampled_lake(twin: &mut World, r: &ElementsConfig) -> Position {
    // The fresh candidates of an empty 16x16 meadow: every square anchored
    // off the last row and column, row by row.
    let fresh: Vec<Position> = (0..15u32)
        .flat_map(|y| (0..15u32).map(move |x| Position::new(x, y)))
        .collect();
    let mut sampled: Vec<Position> = Vec::new();
    for _ in 0..r.spread_candidates {
        let p = fresh[twin.rng.gen_range_u32(0, fresh.len() as u32) as usize];
        if !sampled.contains(&p) {
            sampled.push(p);
        }
    }
    let on_rim = |x: u32, y: u32| x == 0 || y == 0 || x + 1 >= 16 || y + 1 >= 16;
    let rim_tiles = |p: &Position| {
        [(p.x, p.y), (p.x + 1, p.y), (p.x, p.y + 1), (p.x + 1, p.y + 1)]
            .iter()
            .filter(|(x, y)| on_rim(*x, *y))
            .count()
    };
    let mut best = sampled[0];
    for p in &sampled {
        if rim_tiles(p) < rim_tiles(&best) {
            best = *p;
        }
    }
    best
}

#[test]
fn a_new_lake_stands_on_a_sampled_square_and_spends_only_the_sampling_draws() {
    let (mut world, mut twin) = (meadow(), meadow());
    let r = rules(4);
    assert!(r.spread_candidates > 0);
    ensure_lake(&mut world, &r);
    let best = sampled_lake(&mut twin, &r);
    let placed: Vec<Position> = world.elements.iter().map(|e| e.pos).collect();
    assert_eq!(
        placed,
        vec![
            Position::new(best.x, best.y),
            Position::new(best.x + 1, best.y),
            Position::new(best.x, best.y + 1),
            Position::new(best.x + 1, best.y + 1),
        ]
    );
    assert_eq!(world.rng.next_u64(), twin.rng.next_u64());
}

#[test]
fn each_timed_lake_tile_draws_its_own_lifetime_after_the_sampling() {
    let (mut world, mut twin) = (meadow(), meadow());
    let mut r = rules(4);
    r.water.ttl = Some(200);
    r.ttl_jitter = 30;
    ensure_lake(&mut world, &r);
    sampled_lake(&mut twin, &r);
    for el in &world.elements {
        let offset = twin.rng.gen_range_u32(0, 61) as u64;
        assert_eq!(el.ttl, Some(200 + offset - 30));
    }
    assert_eq!(world.rng.next_u64(), twin.rng.next_u64());
}

#[test]
fn a_standing_lake_costs_no_draw() {
    let (mut world, mut twin) = (meadow(), meadow());
    for (i, (x, y)) in [(4u32, 4u32), (5, 4), (4, 5), (5, 5)].iter().enumerate() {
        world.push_element(water(i as u32 + 1, *x, *y));
    }
    ensure_lake(&mut world, &rules(4));
    assert_eq!(world.elements.len(), 4);
    assert_eq!(world.rng.next_u64(), twin.rng.next_u64());
}
