//! Tiles, positions and directions.
//!
//! Screen coordinates: `x` grows east, `y` grows south, so North is `y - 1`.
//! Adjacency is Manhattan distance <= 1 (the tile itself plus the four
//! compass neighbours), matching the strictly 4-way movement. Chebyshev
//! distance only spaces spawned elements apart.

use vstd::prelude::*;

verus! {

/// `|a - b|` over the integers.
pub open spec fn gap(a: int, b: int) -> int {
    if a >= b {
        a - b
    } else {
        b - a
    }
}

#[derive(Debug, Clone, Copy, PartialEq, Eq, Hash, PartialOrd, Ord, Structural)]
pub struct Position {
    pub x: u32,
    pub y: u32,
}

/// The unsigned gap between two coordinates, without overflow.
fn axis_gap(a: u32, b: u32) -> (r: u32)
    ensures
        r == gap(a as int, b as int),
{
    if a >= b {
        a - b
    } else {
        b - a
    }
}

impl Position {
    /// Number of king-moves between two tiles.
    pub open spec fn chebyshev(self, other: Position) -> int {
        let dx = gap(self.x as int, other.x as int);
        let dy = gap(self.y as int, other.y as int);
        if dx >= dy {
            dx
        } else {
            dy
        }
    }

    /// Number of 4-way steps between two tiles.
    pub open spec fn manhattan(self, other: Position) -> int {
        gap(self.x as int, other.x as int) + gap(self.y as int, other.y as int)
    }

    /// `dx² + dy²` over the integers.
    pub open spec fn dist_sq(self, other: Position) -> int {
        let dx = gap(self.x as int, other.x as int);
        let dy = gap(self.y as int, other.y as int);
        dx * dx + dy * dy
    }

    pub open spec fn inside(self, width: int, height: int) -> bool {
        self.x < width && self.y < height
    }

    pub fn new(x: u32, y: u32) -> (p: Position)
        ensures
            p.x == x,
            p.y == y,
    {
        Position { x, y }
    }

    /// Chebyshev distance: king-moves, used only to space spawns apart.
    pub fn chebyshev_distance(&self, other: &Position) -> (d: u32)
        ensures
            d == self.chebyshev(*other),
    {
        let dx = axis_gap(self.x, other.x);
        let dy = axis_gap(self.y, other.y);
        if dx >= dy {
            dx
        } else {
            dy
        }
    }

    /// Manhattan distance: the true walking distance.
    pub fn manhattan_distance(&self, other: &Position) -> (d: u32)
        requires
            self.manhattan(*other) <= u32::MAX,
        ensures
            d == self.manhattan(*other),
    {
        axis_gap(self.x, other.x) + axis_gap(self.y, other.y)
    }

    /// The own tile or one of the four compass neighbours: Manhattan
    /// distance at most 1.
    pub fn is_adjacent(&self, other: &Position) -> (b: bool)
        ensures
            b == (self.manhattan(*other) <= 1),
    {
        let dx = axis_gap(self.x, other.x);
        let dy = axis_gap(self.y, other.y);
        dx <= 1 && dy <= 1 && dx + dy <= 1
    }

    /// The neighbouring tile in `dir`, or `None` when that would leave the
    /// `width` x `height` grid.
    pub fn step(&self, dir: Direction, width: u32, height: u32) -> (r: Option<Position>)
        ensures
            r == self.stepped(dir, width as int, height as int),
    {
        let (x, y) = match dir {
            Direction::North => {
                if self.y == 0 {
                    return None;
                }
                (self.x, self.y - 1)
            },
            Direction::South => {
                if self.y == u32::MAX {
                    return None;
                }
                (self.x, self.y + 1)
            },
            Direction::West => {
                if self.x == 0 {
                    return None;
                }
                (self.x - 1, self.y)
            },
            Direction::East => {
                if self.x == u32::MAX {
                    return None;
                }
                (self.x + 1, self.y)
            },
        };
        if x < width && y < height {
            Some(Position { x, y })
        } else {
            None
        }
    }

    /// The tile one step in `dir` as plain integers (may leave the grid).
    pub open spec fn moved(self, dir: Direction) -> (int, int) {
        match dir {
            Direction::North => (self.x as int, self.y - 1),
            Direction::South => (self.x as int, self.y + 1),
            Direction::West => (self.x - 1, self.y as int),
            Direction::East => (self.x + 1, self.y as int),
        }
    }

    /// The step rule: the moved tile when it lies on the grid.
    pub open spec fn stepped(self, dir: Direction, width: int, height: int) -> Option<Position> {
        let (x, y) = self.moved(dir);
        if 0 <= x < width && 0 <= y < height && x <= u32::MAX && y <= u32::MAX {
            Some(Position { x: x as u32, y: y as u32 })
        } else {
            None
        }
    }

    pub fn in_bounds(&self, width: u32, height: u32) -> (b: bool)
        ensures
            b == self.inside(width as int, height as int),
    {
        self.x < width && self.y < height
    }

    /// Squared Euclidean distance, saturating at `u64::MAX`.
    pub fn euclid_sq(&self, other: &Position) -> (d: u64)
        ensures
            d == (if self.dist_sq(*other) <= u64::MAX {
                self.dist_sq(*other)
            } else {
                u64::MAX as int
            }),
    {
        let dx = axis_gap(self.x, other.x) as u64;
        let dy = axis_gap(self.y, other.y) as u64;
        assert(dx * dx <= u32::MAX * u32::MAX) by (nonlinear_arith)
            requires
                dx <= u32::MAX,
        ;
        assert(dy * dy <= u32::MAX * u32::MAX) by (nonlinear_arith)
            requires
                dy <= u32::MAX,
        ;
        let sx = dx * dx;
        let sy = dy * dy;
        if sx > u64::MAX - sy {
            u64::MAX
        } else {
            sx + sy
        }
    }

    /// The vision rule: `other` is seen exactly when `dx² + dy² <= r²`
    /// (the disc's edge counts as seen).
    pub fn visible_from(&self, other: &Position, radius: u32) -> (b: bool)
        ensures
            b == (self.dist_sq(*other) <= radius * radius),
    {
        let r = radius as u64;
        assert(r * r <= u32::MAX * u32::MAX) by (nonlinear_arith)
            requires
                r <= u32::MAX,
        ;
        self.euclid_sq(other) <= r * r
    }
}

/// The roam cell of a tile: its quotient pair by the cell size `n`.
pub open spec fn roam_cell(p: Position, n: int) -> (int, int) {
    (p.x as int / n, p.y as int / n)
}

/// Whether two tiles lie in the same `n`-sized roam cell anchored at the
/// origin.
pub fn same_roam_cell(a: Position, b: Position, n: u32) -> (r: bool)
    requires
        n > 0,
    ensures
        r == (roam_cell(a, n as int) == roam_cell(b, n as int)),
{
    a.x / n == b.x / n && a.y / n == b.y / n
}

#[derive(Debug, Clone, Copy, PartialEq, Eq, Hash, Structural)]
pub enum Direction {
    North,
    East,
    South,
    West,
}

/// Every direction, in the order North, East, South, West.
pub fn all_directions() -> (r: [Direction; 4])
    ensures
        r@ == seq![Direction::North, Direction::East, Direction::South, Direction::West],
{
    [Direction::North, Direction::East, Direction::South, Direction::West]
}

impl Direction {
    pub open spec fn reversed(self) -> Direction {
        match self {
            Direction::North => Direction::South,
            Direction::South => Direction::North,
            Direction::East => Direction::West,
            Direction::West => Direction::East,
        }
    }

    /// The reverse of this direction.
    pub fn opposite(self) -> (d: Direction)
        ensures
            d == self.reversed(),
    {
        match self {
            Direction::North => Direction::South,
            Direction::South => Direction::North,
            Direction::East => Direction::West,
            Direction::West => Direction::East,
        }
    }

    /// The toward rule: the dominant axis gap wins, ties go horizontal.
    pub open spec fn heading(from: Position, to: Position) -> Option<Direction> {
        let dx = to.x - from.x;
        let dy = to.y - from.y;
        if dx == 0 && dy == 0 {
            None
        } else if gap(to.x as int, from.x as int) >= gap(to.y as int, from.y as int) {
            Some(if dx > 0 { Direction::East } else { Direction::West })
        } else {
            Some(if dy > 0 { Direction::South } else { Direction::North })
        }
    }

    /// The direction that moves `from` closest to `to`, or `None` when
    /// already there.
    pub fn toward(from: Position, to: Position) -> (r: Option<Direction>)
        ensures
            r == Direction::heading(from, to),
    {
        let dx: i64 = to.x as i64 - from.x as i64;
        let dy: i64 = to.y as i64 - from.y as i64;
        if dx == 0 && dy == 0 {
            return None;
        }
        let ax: i64 = if dx < 0 { -dx } else { dx };
        let ay: i64 = if dy < 0 { -dy } else { dy };
        if ax >= ay {
            Some(if dx > 0 { Direction::East } else { Direction::West })
        } else {
            Some(if dy > 0 { Direction::South } else { Direction::North })
        }
    }
}

/// Distances are symmetric, and Manhattan lies between the Chebyshev
/// distance and twice it.
pub proof fn lemma_distances_agree(a: Position, b: Position)
    ensures
        a.manhattan(b) == b.manhattan(a),
        a.chebyshev(b) == b.chebyshev(a),
        a.dist_sq(b) == b.dist_sq(a),
        a.chebyshev(b) <= a.manhattan(b) <= 2 * a.chebyshev(b),
        a.manhattan(b) == 0 <==> a == b,
{
}

/// Every tile adjacent to a kitty lies inside its vision disc of any
/// radius of at least one.
pub proof fn lemma_adjacent_is_visible(a: Position, b: Position, radius: u32)
    requires
        a.manhattan(b) <= 1,
        radius >= 1,
    ensures
        a.dist_sq(b) <= radius * radius,
{
    let dx = gap(a.x as int, b.x as int);
    let dy = gap(a.y as int, b.y as int);
    assert(dx * dx + dy * dy <= 1) by (nonlinear_arith)
        requires
            0 <= dx,
            0 <= dy,
            dx + dy <= 1,
    ;
    assert(radius * radius >= 1) by (nonlinear_arith)
        requires
            radius >= 1,
    ;
}

/// Reversing a direction twice gives it back.
pub proof fn lemma_opposite_involution(d: Direction)
    ensures
        d.reversed().reversed() == d,
        d.reversed() != d,
{
}

/// A step that stays on the grid is undone by a step the opposite way.
pub proof fn lemma_step_undone_by_opposite(p: Position, d: Direction, width: int, height: int)
    requires
        p.inside(width, height),
        p.stepped(d, width, height) is Some,
    ensures
        p.stepped(d, width, height).unwrap().stepped(d.reversed(), width, height) == Some(p),
{
}

/// Heading toward a target on the grid always takes a step that stays on
/// the grid and shortens the walk to the target by exactly one tile.
pub proof fn lemma_toward_closes_the_gap(from: Position, to: Position, width: int, height: int)
    requires
        from.inside(width, height),
        to.inside(width, height),
        from != to,
    ensures
        Direction::heading(from, to) is Some,
        from.stepped(Direction::heading(from, to).unwrap(), width, height) is Some,
        from.stepped(Direction::heading(from, to).unwrap(), width, height).unwrap().manhattan(to)
            == from.manhattan(to) - 1,
{
}

/// Lying in the same roam cell is an equivalence relation.
pub proof fn lemma_roam_cells_partition(a: Position, b: Position, c: Position, n: int)
    requires
        n > 0,
    ensures
        roam_cell(a, n) == roam_cell(a, n),
        roam_cell(a, n) == roam_cell(b, n) ==> roam_cell(b, n) == roam_cell(a, n),
        roam_cell(a, n) == roam_cell(b, n) && roam_cell(b, n) == roam_cell(c, n) ==> roam_cell(
            a,
            n,
        ) == roam_cell(c, n),
{
}

} // verus!
