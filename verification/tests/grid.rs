use cloudkitty_core::grid::{same_roam_cell, Direction, Position};

#[test]
fn chebyshev_treats_diagonals_as_one_step() {
    // Still shipped: spawn spreading spaces elements by king-moves.
    let a = Position::new(5, 5);
    assert_eq!(a.chebyshev_distance(&Position::new(6, 6)), 1);
    assert_eq!(a.chebyshev_distance(&Position::new(5, 5)), 0);
    assert_eq!(a.chebyshev_distance(&Position::new(8, 6)), 3);
}

#[test]
fn manhattan_counts_the_actual_walk() {
    let a = Position::new(5, 5);
    assert_eq!(a.manhattan_distance(&Position::new(5, 5)), 0);
    assert_eq!(a.manhattan_distance(&Position::new(6, 5)), 1);
    assert_eq!(a.manhattan_distance(&Position::new(6, 6)), 2); // the diagonal is two steps
    assert_eq!(a.manhattan_distance(&Position::new(8, 6)), 4);
    assert_eq!(a.manhattan_distance(&Position::new(2, 1)), 7); // symmetric under order
    assert_eq!(Position::new(2, 1).manhattan_distance(&a), 7);
}

#[test]
fn adjacency_is_the_own_tile_plus_the_four_compass_neighbours() {
    // The adjacency truth table.
    let a = Position::new(2, 2);
    assert!(a.is_adjacent(&Position::new(2, 2)), "own tile is in range");
    assert!(a.is_adjacent(&Position::new(1, 2)), "west");
    assert!(a.is_adjacent(&Position::new(3, 2)), "east");
    assert!(a.is_adjacent(&Position::new(2, 1)), "north");
    assert!(a.is_adjacent(&Position::new(2, 3)), "south");
    assert!(
        !a.is_adjacent(&Position::new(3, 3)),
        "diagonal is out of range"
    );
    assert!(!a.is_adjacent(&Position::new(1, 1)));
    assert!(!a.is_adjacent(&Position::new(4, 2)), "two steps away");
}

#[test]
fn stepping_off_the_grid_yields_none() {
    let corner = Position::new(0, 0);
    assert_eq!(corner.step(Direction::North, 10, 10), None);
    assert_eq!(corner.step(Direction::West, 10, 10), None);
    assert_eq!(
        corner.step(Direction::South, 10, 10),
        Some(Position::new(0, 1))
    );

    let far = Position::new(9, 9);
    assert_eq!(far.step(Direction::East, 10, 10), None);
    assert_eq!(far.step(Direction::South, 10, 10), None);
}

#[test]
fn the_vision_disc_is_euclidean_and_closed_on_its_edge() {
    // At r = 5: (3, 4) is ON the edge
    // (9 + 16 = 25 ≤ 25) and seen although seven steps away; (5, 1)
    // is six steps away and unseen (26 > 25). The Manhattan diamond
    // would rule the opposite on both.
    let me = Position::new(10, 10);
    let edge = Position::new(13, 14);
    let outside = Position::new(15, 11);
    assert_eq!(me.euclid_sq(&edge), 25);
    assert_eq!(me.euclid_sq(&outside), 26);
    assert!(me.visible_from(&edge, 5), "the disc's edge is seen");
    assert!(!me.visible_from(&outside, 5), "26 > 25 is unseen");
    assert_eq!(me.manhattan_distance(&edge), 7);
    assert_eq!(me.manhattan_distance(&outside), 6);
    // Symmetric, and the own tile is inside every disc.
    assert!(edge.visible_from(&me, 5));
    assert!(me.visible_from(&me, 0));
    // Integer arithmetic survives large offsets without overflow.
    let far = Position::new(u32::MAX, u32::MAX);
    assert!(!Position::new(0, 0).visible_from(&far, u32::MAX - 1));
}

#[test]
fn toward_picks_the_dominant_axis() {
    let from = Position::new(5, 5);
    assert_eq!(
        Direction::toward(from, Position::new(9, 6)),
        Some(Direction::East)
    );
    assert_eq!(
        Direction::toward(from, Position::new(5, 1)),
        Some(Direction::North)
    );
    assert_eq!(Direction::toward(from, from), None);
}

/// The roam partition assigns every tile exactly one
/// cell. "Exactly one" is arithmetic (a quotient pair is a function of
/// the tile), so the real content here is the cell CENSUS: the counts
/// and shapes that fall out of integer division match what each
/// geometry should give.
#[test]
fn roam_partition_covers_every_tile_exactly_once() {
    // 20x20 / n=4: the served geometry — exactly 25 cells of 16 tiles.
    let census = |w: u32, h: u32, n: u32| {
        let mut cells = std::collections::BTreeMap::new();
        for x in 0..w {
            for y in 0..h {
                *cells.entry((x / n, y / n)).or_insert(0u32) += 1;
            }
        }
        cells
    };

    let served = census(20, 20, 4);
    assert_eq!(served.len(), 25);
    assert!(served.values().all(|&c| c == 16));

    // 26x26 / n=4: 4x4 interior, 4x2 + 2x4 edge strips, one 2x2 corner
    // 49 cells, tile counts partition 26*26.
    let ragged = census(26, 26, 4);
    assert_eq!(ragged.len(), 49);
    assert_eq!(ragged.values().sum::<u32>(), 26 * 26);
    assert_eq!(ragged.values().filter(|&&c| c == 16).count(), 36);
    assert_eq!(ragged.values().filter(|&&c| c == 8).count(), 12);
    assert_eq!(ragged.values().filter(|&&c| c == 4).count(), 1);

    // 5x5 / n=8: the whole world is one cell.
    let tiny = census(5, 5, 8);
    assert_eq!(tiny.len(), 1);
    assert_eq!(tiny[&(0, 0)], 25);
}

#[test]
fn roam_same_cell_matches_the_quotient_partition() {
    // The predicate agrees with the census definition on every pair of
    // a 26x26 world — including remainder-strip pairs and cross-boundary
    // neighbours (x=23 and x=24 are adjacent tiles in different cells).
    let n = 4;
    assert!(same_roam_cell(
        Position::new(24, 25),
        Position::new(25, 24),
        n
    ));
    assert!(!same_roam_cell(
        Position::new(23, 0),
        Position::new(24, 0),
        n
    ));
    for &(ax, ay, bx, by) in &[(0, 0, 3, 3), (0, 0, 4, 0), (19, 19, 16, 16), (12, 3, 12, 4)] {
        let a = Position::new(ax, ay);
        let b = Position::new(bx, by);
        assert_eq!(
            same_roam_cell(a, b, n),
            (ax / n, ay / n) == (bx / n, by / n),
            "predicate disagrees with quotient partition at {a:?} {b:?}"
        );
    }
}
