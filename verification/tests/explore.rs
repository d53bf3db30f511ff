use cloudkitty_core::explore::Lattice;
use cloudkitty_core::grid::Position;

#[test]
fn the_served_and_compiled_worlds_lattices_are_the_ruled_ones() {
    assert_eq!(Lattice::for_world(20, 20, 5).xs(), &[3, 10, 16]);
    assert_eq!(Lattice::for_world(32, 32, 5).xs(), &[3, 9, 16, 22, 28]);
    assert_eq!(Lattice::for_world(20, 20, 4).xs(), &[2, 7, 12, 17]);
    assert_eq!(Lattice::for_world(20, 20, 3).xs(), &[2, 6, 10, 13, 17]);
    assert_eq!(
        Lattice::for_world(20, 20, 2).xs(),
        &[1, 3, 5, 7, 9, 10, 12, 14, 16, 18]
    );
}

/// The two constraints are the whole argument; this checks the
/// conclusion tile by tile for a spread of sizes and radii, on
/// rectangles too.
#[test]
fn coverage_is_complete_by_construction() {
    for (w, h) in [
        (20, 20),
        (32, 32),
        (24, 24),
        (8, 8),
        (5, 5),
        (3, 9),
        (40, 12),
        (13, 31),
    ] {
        for r in 2..=8u32 {
            let lattice = Lattice::for_world(w, h, r);
            let points: Vec<Position> = (0..lattice.cycle_len())
                .map(|i| lattice.waypoint(i))
                .collect();
            for x in 0..w {
                for y in 0..h {
                    let t = Position::new(x, y);
                    assert!(
                        points.iter().any(|p| p.visible_from(&t, r)),
                        "{w}x{h} r={r}: tile {t:?} is outside every waypoint's disc ({:?} x {:?})",
                        lattice.xs(),
                        lattice.ys()
                    );
                }
            }
        }
    }
}

#[test]
fn the_cycle_is_the_snake_forward_then_back_with_no_repeats_at_the_turns() {
    let l = Lattice::for_world(20, 20, 5);
    assert_eq!(l.cycle_len(), 16);
    let snake: Vec<(u32, u32)> = (0..9).map(|i| (l.waypoint(i).x, l.waypoint(i).y)).collect();
    assert_eq!(
        snake,
        [
            (3, 3),
            (10, 3),
            (16, 3),
            (16, 10),
            (10, 10),
            (3, 10),
            (3, 16),
            (10, 16),
            (16, 16)
        ]
    );
    let back: Vec<(u32, u32)> = (9..16)
        .map(|i| (l.waypoint(i).x, l.waypoint(i).y))
        .collect();
    assert_eq!(
        back,
        [
            (10, 16),
            (3, 16),
            (3, 10),
            (10, 10),
            (16, 10),
            (16, 3),
            (10, 3)
        ]
    );
    assert_eq!(l.waypoint(16), l.waypoint(0), "the cycle wraps");
    // Every step of the cycle is a lattice neighbour: no crossing.
    for i in 0..l.cycle_len() {
        let a = l.waypoint(i);
        let b = l.waypoint(i + 1);
        assert!(
            (a.x == b.x) ^ (a.y == b.y),
            "consecutive waypoints share exactly one axis: {a:?} -> {b:?}"
        );
    }
    assert_eq!(l.start_index(1), 1);
    assert_eq!(l.start_index(17), 1, "spread by id modulo the cycle");
    let single = Lattice::for_world(3, 3, 5);
    assert_eq!(single.cycle_len(), 1);
    assert_eq!(single.waypoint(7), Position::new(1, 1));
}
