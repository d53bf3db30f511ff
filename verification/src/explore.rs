//! The blind cat's search: a lattice serpentine tour.
//!
//! Waypoints sit on a square lattice inset `floor(r / √2)` from each wall,
//! neighbouring waypoints at most `floor(r · √2)` apart. Those are the two
//! constraints for covering a rectangle with Euclidean discs of radius `r`,
//! so every tile of every rectangle is inside the disc of some waypoint
//! (`lemma_tour_covers_every_tile`). The tour visits the lattice row by row
//! in boustrophedon order and then walks back, so it has no long return
//! crossing. All of it is integer arithmetic: `floor(r / √2)` is the largest
//! `a` with `2a² <= r²`, and `floor(r · √2)` the largest `s` with
//! `s² <= 2r²`.

use vstd::prelude::*;
use vstd::arithmetic::div_mod::{lemma_fundamental_div_mod, lemma_mod_bound};

use crate::grid::{gap, Position};

verus! {

/// `a` is the largest natural number with `k · a² <= n`.
pub open spec fn is_scaled_root(n: int, k: int, a: int) -> bool {
    &&& 0 <= a
    &&& k * (a * a) <= n
    &&& n < k * ((a + 1) * (a + 1))
}

/// The largest natural `a` with `k · a² <= n`.
pub open spec fn scaled_root(n: int, k: int) -> int {
    choose|a: int| is_scaled_root(n, k, a)
}

proof fn lemma_square_monotone(a: int, b: int)
    requires
        0 <= a <= b,
    ensures
        a * a <= b * b,
{
    assert(a * a <= b * b) by (nonlinear_arith)
        requires
            0 <= a <= b,
    ;
}

proof fn lemma_scaled_root_is(n: int, k: int, a: int)
    requires
        k >= 1,
        is_scaled_root(n, k, a),
    ensures
        scaled_root(n, k) == a,
{
    let b = scaled_root(n, k);
    assert(is_scaled_root(n, k, b));
    if b < a {
        lemma_square_monotone(b + 1, a);
        assert(k * ((b + 1) * (b + 1)) <= k * (a * a)) by (nonlinear_arith)
            requires
                (b + 1) * (b + 1) <= a * a,
                k >= 1,
        ;
    } else if a < b {
        lemma_square_monotone(a + 1, b);
        assert(k * ((a + 1) * (a + 1)) <= k * (b * b)) by (nonlinear_arith)
            requires
                (a + 1) * (a + 1) <= b * b,
                k >= 1,
        ;
    }
}

/// The wall inset of a lattice at radius `r`: `floor(r / √2)`.
pub open spec fn inset(r: int) -> int {
    scaled_root(r * r, 2)
}

/// The largest lattice spacing at radius `r`: `floor(r · √2)`, at least 1.
pub open spec fn spacing(r: int) -> int {
    let s = scaled_root(2 * (r * r), 1);
    if s >= 1 {
        s
    } else {
        1
    }
}

/// The last tile index along an axis of `len` tiles (0 for an empty axis).
pub open spec fn axis_last(len: int) -> int {
    if len >= 1 {
        len - 1
    } else {
        0
    }
}

/// An axis too narrow for two inset waypoints collapses to its middle tile.
pub open spec fn axis_narrow(len: int, r: int) -> bool {
    axis_last(len) < 2 * inset(r) + 1
}

pub open spec fn axis_span(len: int, r: int) -> int {
    axis_last(len) - 2 * inset(r)
}

/// How many waypoints lie along an axis: `ceil(span / spacing) + 1`.
pub open spec fn axis_count(len: int, r: int) -> int {
    if axis_narrow(len, r) {
        1
    } else {
        (axis_span(len, r) + spacing(r) - 1) / spacing(r) + 1
    }
}

/// Waypoint `k` along an axis: `inset + round_half_up(k · span / (n − 1))`.
pub open spec fn axis_point(len: int, r: int, k: int) -> int {
    if axis_narrow(len, r) {
        axis_last(len) / 2
    } else {
        let n = axis_count(len, r);
        inset(r) + (2 * k * axis_span(len, r) + (n - 1)) / (2 * (n - 1))
    }
}

/// The largest `a <= 2^33` with `k · a² <= n`, by bisection.
fn scaled_root_exec(n: u128, k: u128) -> (a: u128)
    requires
        1 <= k <= 2,
        n < 0x4_0000_0000_0000_0000,
    ensures
        is_scaled_root(n as int, k as int, a as int),
        a <= 0x2_0000_0000,
{
    let mut lo: u128 = 0;
    let mut hi: u128 = 0x2_0000_0000;
    assert(k * (hi * hi) > n) by (nonlinear_arith)
        requires
            hi == 0x2_0000_0000,
            k >= 1,
            n < 0x4_0000_0000_0000_0000,
    ;
    while hi - lo > 1
        invariant
            1 <= k <= 2,
            lo < hi <= 0x2_0000_0000,
            k * (lo * lo) <= n,
            n < k * (hi * hi),
        decreases hi - lo,
    {
        let mid = lo + (hi - lo) / 2;
        assert(k * (mid * mid) <= 2 * (0x2_0000_0000 * 0x2_0000_0000)) by (nonlinear_arith)
            requires
                mid <= 0x2_0000_0000,
                1 <= k <= 2,
        ;
        if k * (mid * mid) <= n {
            lo = mid;
        } else {
            hi = mid;
        }
    }
    assert(hi == lo + 1);
    lo
}

/// The lattice coordinates along one axis of `len` tiles at radius `radius`.
fn axis(len: u32, radius: u32) -> (v: Vec<u32>)
    ensures
        v.len() == axis_count(len as int, radius as int),
        forall|k: int| 0 <= k < v.len() ==> v[k] == axis_point(len as int, radius as int, k),
{
    let r: u128 = radius as u128;
    assert(r * r <= 0xffff_ffff * 0xffff_ffff) by (nonlinear_arith)
        requires
            r <= 0xffff_ffff,
    ;
    let r2: u128 = r * r;
    let a = scaled_root_exec(r2, 2);
    let s0 = scaled_root_exec(2 * r2, 1);
    proof {
        lemma_scaled_root_is(r2 as int, 2, a as int);
        lemma_scaled_root_is(2 * r2 as int, 1, s0 as int);
        assert(a <= r) by (nonlinear_arith)
            requires
                2 * (a * a) <= r2,
                r2 == r * r,
        ;
        assert(s0 <= 2 * r) by (nonlinear_arith)
            requires
                s0 * s0 <= 2 * r2,
                r2 == r * r,
        ;
    }
    assert(a <= r);
    assert(s0 <= 2 * r);
    let s: u128 = if s0 >= 1 {
        s0
    } else {
        1
    };
    let last: u128 = if len >= 1 {
        (len - 1) as u128
    } else {
        0
    };
    if last < 2 * a + 1 {
        let mut v: Vec<u32> = Vec::new();
        v.push((last / 2) as u32);
        return v;
    }
    let span: u128 = last - 2 * a;
    let n: u128 = (span + s - 1) / s + 1;
    proof {
        assert((span + s - 1) as int / (s as int) <= span) by (nonlinear_arith)
            requires
                s >= 1,
                span >= 1,
        ;
        assert((span + s - 1) as int / (s as int) >= 1) by (nonlinear_arith)
            requires
                s >= 1,
                span >= 1,
        ;
    }
    let d: u128 = 2 * (n - 1);
    let mut v: Vec<u32> = Vec::new();
    let mut k: u128 = 0;
    while k < n
        invariant
            0 <= k <= n,
            2 <= n <= span + 1,
            span == axis_span(len as int, radius as int),
            span >= 1,
            n == axis_count(len as int, radius as int),
            d == 2 * (n - 1),
            a == inset(radius as int),
            a + span == last - a,
            last < 0x1_0000_0000,
            !axis_narrow(len as int, radius as int),
            v.len() == k,
            forall|j: int| 0 <= j < k ==> v[j] == axis_point(len as int, radius as int, j),
        decreases n - k,
    {
        assert(2 * k * span + (n - 1) < d * (span + 1)) by (nonlinear_arith)
            requires
                k < n,
                d == 2 * (n - 1),
                n >= 2,
                span >= 1,
        ;
        assert(2 * k * span + (n - 1) < 0x10_0000_0000_0000_0000) by (nonlinear_arith)
            requires
                k < n,
                n <= span + 1,
                span < 0x1_0000_0000,
        ;
        let q = (2 * k * span + (n - 1)) / d;
        assert(q <= span) by (nonlinear_arith)
            requires
                q == (2 * k * span + (n - 1)) as int / (d as int),
                2 * k * span + (n - 1) < d * (span + 1),
                d >= 2,
        ;
        v.push((a + q) as u32);
        k = k + 1;
    }
    v
}

/// Floor division brackets its dividend: `d·(x/d) <= x < d·(x/d) + d`.
proof fn lemma_div_bounds(x: int, d: int)
    requires
        d > 0,
    ensures
        d * (x / d) <= x < d * (x / d) + d,
{
    lemma_fundamental_div_mod(x, d);
    lemma_mod_bound(x, d);
}

/// Every natural `n` has a scaled root.
proof fn lemma_scaled_root_exists(n: int, k: int, a: int)
    requires
        k >= 1,
        0 <= a,
        k * (a * a) <= n,
    ensures
        is_scaled_root(n, k, scaled_root(n, k)),
    decreases n - k * (a * a),
{
    if n < k * ((a + 1) * (a + 1)) {
        assert(is_scaled_root(n, k, a));
    } else {
        assert(k * (a * a) < k * ((a + 1) * (a + 1))) by (nonlinear_arith)
            requires
                k >= 1,
                a >= 0,
        ;
        lemma_scaled_root_exists(n, k, a + 1);
    }
}

/// The inset and spacing of a radius satisfy their defining inequalities.
proof fn lemma_inset_spacing(r: int)
    requires
        r >= 0,
    ensures
        inset(r) >= 0,
        2 * (inset(r) * inset(r)) <= r * r,
        spacing(r) >= 1,
        spacing(r) == 1 || spacing(r) * spacing(r) <= 2 * (r * r),
{
    assert(r * r >= 0) by (nonlinear_arith)
        requires
            r >= 0,
    ;
    lemma_scaled_root_exists(r * r, 2, 0);
    lemma_scaled_root_exists(2 * (r * r), 1, 0);
}

/// The wide-axis facts: two or more waypoints, the first at the inset and
/// the last at the mirrored inset.
proof fn lemma_axis_ends(len: int, r: int)
    requires
        r >= 0,
        !axis_narrow(len, r),
    ensures
        axis_count(len, r) >= 2,
        axis_count(len, r) <= axis_span(len, r) + 1,
        axis_span(len, r) <= spacing(r) * (axis_count(len, r) - 1),
        axis_point(len, r, 0) == inset(r),
        axis_point(len, r, axis_count(len, r) - 1) == axis_last(len) - inset(r),
{
    lemma_inset_spacing(r);
    let s = spacing(r);
    let span = axis_span(len, r);
    let n = axis_count(len, r);
    let q = (span + s - 1) / s;
    lemma_div_bounds(span + s - 1, s);
    assert(q >= 1) by (nonlinear_arith)
        requires
            s * q <= span + s - 1 < s * q + s,
            span >= 1,
            s >= 1,
    ;
    assert(q <= span) by (nonlinear_arith)
        requires
            s * q <= span + s - 1,
            span >= 1,
            s >= 1,
    ;
    let d = 2 * (n - 1);
    lemma_div_bounds(n - 1, d);
    assert((n - 1) / d == 0) by (nonlinear_arith)
        requires
            d * ((n - 1) / d) <= n - 1 < d * ((n - 1) / d) + d,
            d == 2 * (n - 1),
            n >= 2,
    ;
    assert(2 * 0 * span + (n - 1) == n - 1) by (nonlinear_arith);
    let x = 2 * (n - 1) * span + (n - 1);
    lemma_div_bounds(x, d);
    assert(x / d == span) by (nonlinear_arith)
        requires
            d * (x / d) <= x < d * (x / d) + d,
            d == 2 * (n - 1),
            x == 2 * (n - 1) * span + (n - 1),
            n >= 2,
    ;
}

/// Neighbouring waypoints are at least one and at most `spacing` apart.
proof fn lemma_axis_step(len: int, r: int, k: int)
    requires
        r >= 0,
        !axis_narrow(len, r),
        0 <= k < axis_count(len, r) - 1,
    ensures
        axis_point(len, r, k) + 1 <= axis_point(len, r, k + 1) <= axis_point(len, r, k) + spacing(
            r,
        ),
{
    lemma_axis_ends(len, r);
    let s = spacing(r);
    let span = axis_span(len, r);
    let n = axis_count(len, r);
    let d = 2 * (n - 1);
    let x = 2 * k * span + (n - 1);
    let y = 2 * (k + 1) * span + (n - 1);
    assert(y == x + 2 * span) by (nonlinear_arith)
        requires
            x == 2 * k * span + (n - 1),
            y == 2 * (k + 1) * span + (n - 1),
    ;
    lemma_div_bounds(x, d);
    lemma_div_bounds(y, d);
    let q1 = x / d;
    let q2 = y / d;
    assert(q2 <= q1 + s) by (nonlinear_arith)
        requires
            d * q1 <= x < d * q1 + d,
            d * q2 <= y < d * q2 + d,
            y == x + 2 * span,
            span <= s * (n - 1),
            d == 2 * (n - 1),
            n >= 2,
    ;
    assert(q2 >= q1 + 1) by (nonlinear_arith)
        requires
            d * q1 <= x < d * q1 + d,
            d * q2 <= y < d * q2 + d,
            y == x + 2 * span,
            n - 1 <= span,
            d == 2 * (n - 1),
            n >= 2,
    ;
}

/// Some waypoint at or beyond index `k` brackets the coordinate `c`.
proof fn lemma_axis_bracket(len: int, r: int, c: int, k: int) -> (j: int)
    requires
        r >= 0,
        !axis_narrow(len, r),
        0 <= k < axis_count(len, r),
        axis_point(len, r, k) <= c <= axis_last(len) - inset(r),
    ensures
        0 <= j < axis_count(len, r),
        axis_point(len, r, j) <= c,
        j == axis_count(len, r) - 1 || c <= axis_point(len, r, j + 1),
        j == axis_count(len, r) - 1 ==> axis_point(len, r, j) == c,
    decreases axis_count(len, r) - k,
{
    lemma_axis_ends(len, r);
    if k == axis_count(len, r) - 1 {
        k
    } else if c <= axis_point(len, r, k + 1) {
        k
    } else {
        lemma_axis_bracket(len, r, c, k + 1)
    }
}

/// Every coordinate of an axis lies within `r / √2` of one of its
/// waypoints.
pub proof fn lemma_axis_covers(len: int, r: int, c: int) -> (k: int)
    requires
        r >= 0,
        0 <= c < len,
    ensures
        0 <= k < axis_count(len, r),
        2 * (gap(axis_point(len, r, k), c) * gap(axis_point(len, r, k), c)) <= r * r,
{
    lemma_inset_spacing(r);
    let a = inset(r);
    let s = spacing(r);
    let last = axis_last(len);
    if axis_narrow(len, r) {
        let m = last / 2;
        assert(gap(m, c) <= a);
        lemma_square_monotone(gap(m, c), a);
        assert(axis_point(len, r, 0) == m);
        assert(2 * (gap(axis_point(len, r, 0), c) * gap(axis_point(len, r, 0), c)) <= r * r);
        0
    } else {
        lemma_axis_ends(len, r);
        let n = axis_count(len, r);
        if c < a {
            lemma_square_monotone(gap(a, c), a);
            assert(axis_point(len, r, 0) == a);
            assert(2 * (gap(axis_point(len, r, 0), c) * gap(axis_point(len, r, 0), c)) <= r * r);
            0
        } else if c > last - a {
            lemma_square_monotone(gap(last - a, c), a);
            assert(axis_point(len, r, n - 1) == last - a);
            assert(2 * (gap(axis_point(len, r, n - 1), c) * gap(axis_point(len, r, n - 1), c))
                <= r * r);
            n - 1
        } else {
            let j = lemma_axis_bracket(len, r, c, 0);
            if j == n - 1 {
                assert(gap(axis_point(len, r, j), c) == 0);
                assert(2 * (gap(axis_point(len, r, j), c) * gap(axis_point(len, r, j), c)) <= r
                    * r) by (nonlinear_arith)
                    requires
                        gap(axis_point(len, r, j), c) == 0,
                ;
                j
            } else {
                lemma_axis_step(len, r, j);
                let lo = axis_point(len, r, j);
                let hi = axis_point(len, r, j + 1);
                if c - lo <= hi - c {
                    let g = c - lo;
                    assert(2 * (g * g) <= r * r) by (nonlinear_arith)
                        requires
                            0 <= g,
                            2 * g <= hi - lo,
                            hi - lo <= s,
                            s == 1 || s * s <= 2 * (r * r),
                    ;
                    assert(gap(axis_point(len, r, j), c) == g);
                    j
                } else {
                    let g = hi - c;
                    assert(2 * (g * g) <= r * r) by (nonlinear_arith)
                        requires
                            0 <= g,
                            2 * g <= hi - lo,
                            hi - lo <= s,
                            s == 1 || s * s <= 2 * (r * r),
                    ;
                    assert(gap(axis_point(len, r, j + 1), c) == g);
                    j + 1
                }
            }
        }
    }
}

/// `s` holds exactly the waypoints of an axis of `len` tiles at radius `r`.
pub open spec fn is_axis(s: Seq<u32>, len: int, r: int) -> bool {
    &&& s.len() == axis_count(len, r)
    &&& forall|k: int| 0 <= k < s.len() ==> s[k] == axis_point(len, r, k)
}

/// A world's tour lattice: the waypoint coordinates per axis.
#[derive(Debug, Clone, PartialEq, Eq)]
pub struct Lattice {
    xs: Vec<u32>,
    ys: Vec<u32>,
}

impl Lattice {
    pub closed spec fn xs_seq(&self) -> Seq<u32> {
        self.xs@
    }

    pub closed spec fn ys_seq(&self) -> Seq<u32> {
        self.ys@
    }

    /// The lattice was laid out for a `width` x `height` world at `radius`.
    pub open spec fn built_for(&self, width: int, height: int, radius: int) -> bool {
        is_axis(self.xs_seq(), width, radius) && is_axis(self.ys_seq(), height, radius)
    }

    /// Number of waypoints on the lattice.
    pub open spec fn points(&self) -> int {
        (self.xs_seq().len() * self.ys_seq().len()) as int
    }

    /// Both axes hold a waypoint and the tour's length fits a `u32`.
    pub open spec fn wf(&self) -> bool {
        &&& self.xs_seq().len() >= 1
        &&& self.ys_seq().len() >= 1
        &&& self.points() <= 0x7fff_ffff
    }

    /// Position `i` of the boustrophedon: rows by ascending y, even rows
    /// left to right, odd rows right to left.
    pub open spec fn snake_at(&self, i: int) -> Position {
        let nx = self.xs_seq().len() as int;
        let row = i / nx;
        let col = i % nx;
        let x = if row % 2 == 0 {
            self.xs_seq()[col]
        } else {
            self.xs_seq()[nx - 1 - col]
        };
        Position { x, y: self.ys_seq()[row] }
    }

    /// Length of the tour cycle: `2N − 2` for `N >= 2` waypoints, else 1.
    pub open spec fn cycle(&self) -> int {
        if self.points() >= 2 {
            2 * self.points() - 2
        } else {
            1
        }
    }

    /// Cycle position `i` (for `0 <= i < cycle`): the snake forward, then
    /// back through its interior.
    pub open spec fn tour_at(&self, i: int) -> Position {
        if i < self.points() {
            self.snake_at(i)
        } else {
            self.snake_at(2 * self.points() - 2 - i)
        }
    }

    pub fn for_world(width: u32, height: u32, radius: u32) -> (l: Lattice)
        ensures
            l.built_for(width as int, height as int, radius as int),
            1 <= l.xs_seq().len() <= at_least_one(width as int),
            1 <= l.ys_seq().len() <= at_least_one(height as int),
            at_least_one(width as int) * at_least_one(height as int) <= 0x7fff_ffff ==> l.wf(),
    {
        let xs = axis(width, radius);
        let ys = axis(height, radius);
        let l = Lattice { xs, ys };
        assert(is_axis(l.xs_seq(), width as int, radius as int));
        assert(is_axis(l.ys_seq(), height as int, radius as int));
        proof {
            lemma_axis_count_positive(width as int, radius as int);
            lemma_axis_count_positive(height as int, radius as int);
            let nx = l.xs_seq().len() as int;
            let ny = l.ys_seq().len() as int;
            let mw = at_least_one(width as int);
            let mh = at_least_one(height as int);
            assert(nx * ny <= mw * mh) by (nonlinear_arith)
                requires
                    1 <= nx <= mw,
                    1 <= ny <= mh,
            ;
        }
        l
    }

    pub fn xs(&self) -> (r: &[u32])
        ensures
            r@ == self.xs_seq(),
    {
        self.xs.as_slice()
    }

    pub fn ys(&self) -> (r: &[u32])
        ensures
            r@ == self.ys_seq(),
    {
        self.ys.as_slice()
    }

    fn snake_len(&self) -> (n: u32)
        requires
            self.wf(),
        ensures
            n == self.points(),
    {
        (self.xs.len() * self.ys.len()) as u32
    }

    fn snake(&self, i: u32) -> (p: Position)
        requires
            self.wf(),
            i < self.points(),
        ensures
            p == self.snake_at(i as int),
    {
        proof {
            lemma_wf_sizes(self);
        }
        let nx = self.xs.len() as u32;
        let ny = self.ys.len() as u32;
        let row = i / nx;
        let col = i % nx;
        assert(row < ny) by (nonlinear_arith)
            requires
                row == i / nx,
                i < nx * ny,
                nx >= 1,
        ;
        let x = if row % 2 == 0 {
            self.xs[col as usize]
        } else {
            self.xs[(nx - 1 - col) as usize]
        };
        Position::new(x, self.ys[row as usize])
    }

    /// The tour cycle length.
    pub fn cycle_len(&self) -> (c: u32)
        requires
            self.wf(),
        ensures
            c == self.cycle(),
            c >= 1,
    {
        let n = self.snake_len();
        if n >= 2 {
            2 * n - 2
        } else {
            1
        }
    }

    /// The waypoint at cycle position `index`, taken modulo the cycle.
    pub fn waypoint(&self, index: u32) -> (p: Position)
        requires
            self.wf(),
        ensures
            p == self.tour_at(index as int % self.cycle()),
    {
        proof {
            lemma_wf_sizes(self);
        }
        let n = self.snake_len();
        let i = index % self.cycle_len();
        if i < n {
            self.snake(i)
        } else {
            self.snake(2 * n - 2 - i)
        }
    }

    /// Where a cat starts the tour: spread by id, no draw.
    pub fn start_index(&self, kitty_id: u32) -> (i: u32)
        requires
            self.wf(),
        ensures
            i == kitty_id as int % self.cycle(),
            i < self.cycle(),
    {
        kitty_id % self.cycle_len()
    }
}

proof fn lemma_wf_sizes(l: &Lattice)
    requires
        l.wf(),
    ensures
        1 <= l.xs_seq().len() <= l.points(),
        1 <= l.ys_seq().len() <= l.points(),
{
    let nx = l.xs_seq().len() as int;
    let ny = l.ys_seq().len() as int;
    assert(nx <= nx * ny && ny <= nx * ny) by (nonlinear_arith)
        requires
            nx >= 1,
            ny >= 1,
    ;
}

/// `len`, or 1 for an empty axis.
pub open spec fn at_least_one(len: int) -> int {
    if len >= 1 {
        len
    } else {
        1
    }
}

proof fn lemma_axis_count_positive(len: int, r: int)
    requires
        r >= 0,
    ensures
        1 <= axis_count(len, r) <= at_least_one(len),
{
    lemma_inset_spacing(r);
    if !axis_narrow(len, r) {
        lemma_axis_ends(len, r);
    }
}

/// Coverage by construction: every tile of the world lies inside the
/// vision disc of some waypoint of the tour.
pub proof fn lemma_tour_covers_every_tile(
    l: Lattice,
    width: int,
    height: int,
    radius: int,
    t: Position,
) -> (i: int)
    requires
        l.wf(),
        l.built_for(width, height, radius),
        radius >= 0,
        t.inside(width, height),
    ensures
        0 <= i < l.cycle(),
        l.tour_at(i).dist_sq(t) <= radius * radius,
{
    let kx = lemma_axis_covers(width, radius, t.x as int);
    let ky = lemma_axis_covers(height, radius, t.y as int);
    let nx = l.xs_seq().len() as int;
    let ny = l.ys_seq().len() as int;
    let col = if ky % 2 == 0 {
        kx
    } else {
        nx - 1 - kx
    };
    let i = ky * nx + col;
    assert(0 <= i < nx * ny) by (nonlinear_arith)
        requires
            0 <= ky < ny,
            0 <= col < nx,
            i == ky * nx + col,
    ;
    assert(i / nx == ky && i % nx == col) by (nonlinear_arith)
        requires
            0 <= col < nx,
            i == ky * nx + col,
            0 <= ky,
    ;
    let p = l.snake_at(i);
    assert(p.x == l.xs_seq()[kx]);
    assert(p.y == l.ys_seq()[ky]);
    let dx = gap(p.x as int, t.x as int);
    let dy = gap(p.y as int, t.y as int);
    assert(dx * dx + dy * dy <= radius * radius) by (nonlinear_arith)
        requires
            2 * (dx * dx) <= radius * radius,
            2 * (dy * dy) <= radius * radius,
    ;
    i
}

/// The waypoints of an axis strictly increase.
proof fn lemma_axis_increasing(len: int, r: int, k: int)
    requires
        r >= 0,
        0 <= k < axis_count(len, r) - 1,
    ensures
        axis_point(len, r, k) < axis_point(len, r, k + 1),
{
    lemma_inset_spacing(r);
    if axis_narrow(len, r) {
    } else {
        lemma_axis_step(len, r, k);
    }
}

/// Consecutive positions of the boustrophedon differ in exactly one
/// coordinate.
proof fn lemma_snake_pair(l: Lattice, width: int, height: int, radius: int, j: int)
    requires
        l.wf(),
        l.built_for(width, height, radius),
        radius >= 0,
        0 <= j,
        j + 1 < l.points(),
    ensures
        (l.snake_at(j).x == l.snake_at(j + 1).x) != (l.snake_at(j).y == l.snake_at(j + 1).y),
{
    lemma_wf_sizes(&l);
    let nx = l.xs_seq().len() as int;
    let ny = l.ys_seq().len() as int;
    let row = j / nx;
    let col = j % nx;
    lemma_div_bounds(j, nx);
    lemma_fundamental_div_mod(j, nx);
    lemma_mod_bound(j, nx);
    assert(row < ny) by (nonlinear_arith)
        requires
            nx * row <= j,
            j < nx * ny,
            nx >= 1,
    ;
    if col < nx - 1 {
        assert((j + 1) / nx == row && (j + 1) % nx == col + 1) by (nonlinear_arith)
            requires
                j == nx * row + col,
                0 <= col < nx - 1,
                nx >= 1,
        ;
        if row % 2 == 0 {
            lemma_axis_increasing(width, radius, col);
        } else {
            lemma_axis_increasing(width, radius, nx - 2 - col);
        }
    } else {
        assert((j + 1) / nx == row + 1 && (j + 1) % nx == 0) by (nonlinear_arith)
            requires
                j == nx * row + col,
                col == nx - 1,
                nx >= 1,
        ;
        assert(row + 1 < ny) by (nonlinear_arith)
            requires
                j == nx * row + col,
                col == nx - 1,
                j + 1 < nx * ny,
                nx >= 1,
        ;
        lemma_axis_increasing(height, radius, row);
    }
}

/// Every move of the tour, the wrap-around included, runs along exactly
/// one axis: consecutive waypoints share exactly one coordinate.
pub proof fn lemma_tour_steps_along_one_axis(
    l: Lattice,
    width: int,
    height: int,
    radius: int,
    i: int,
)
    requires
        l.wf(),
        l.built_for(width, height, radius),
        radius >= 0,
        l.points() >= 2,
        0 <= i < l.cycle(),
    ensures
        (l.tour_at(i).x == l.tour_at((i + 1) % l.cycle()).x) != (l.tour_at(i).y == l.tour_at(
            (i + 1) % l.cycle(),
        ).y),
{
    let n = l.points();
    let c = l.cycle();
    if i + 1 < c {
        vstd::arithmetic::div_mod::lemma_small_mod((i + 1) as nat, c as nat);
        if i + 1 < n {
            lemma_snake_pair(l, width, height, radius, i);
        } else {
            lemma_snake_pair(l, width, height, radius, 2 * n - 3 - i);
        }
    } else {
        vstd::arithmetic::div_mod::lemma_mod_self_0(c);
        lemma_snake_pair(l, width, height, radius, 0);
    }
}

/// The tour is periodic: cycle position `i` and `i + cycle` name the same
/// waypoint.
pub proof fn lemma_tour_wraps(l: Lattice, i: int)
    requires
        l.wf(),
        0 <= i,
    ensures
        l.tour_at((i + l.cycle()) % l.cycle()) == l.tour_at(i % l.cycle()),
{
    vstd::arithmetic::div_mod::lemma_mod_add_multiples_vanish(i, l.cycle());
}

/// The tour built for a world covers it, and repeats: every tile of the
/// world lies in the vision disc of some waypoint of one cycle (what
/// `waypoint(i)` returns is `tour_at(i % cycle)`), and waypoint `i + cycle`
/// is waypoint `i`.
pub proof fn lemma_the_tour_covers_the_world(l: Lattice, width: u32, height: u32, radius: u32)
    requires
        l.wf(),
        l.built_for(width as int, height as int, radius as int),
    ensures
        forall|t: Position|
            #[trigger] t.inside(width as int, height as int) ==> exists|i: int|
                0 <= i < l.cycle() && (#[trigger] l.tour_at(i)).dist_sq(t) <= radius * radius,
        forall|i: int| 0 <= i ==> #[trigger] l.tour_at((i + l.cycle()) % l.cycle()) == l.tour_at(i % l.cycle()),
{
    assert forall|t: Position| #[trigger] t.inside(width as int, height as int) implies exists|i: int|
        0 <= i < l.cycle() && (#[trigger] l.tour_at(i)).dist_sq(t) <= radius * radius by {
        let i = lemma_tour_covers_every_tile(l, width as int, height as int, radius as int, t);
        assert(l.tour_at(i).dist_sq(t) <= radius * radius);
    }
    assert forall|i: int| 0 <= i implies #[trigger] l.tour_at((i + l.cycle()) % l.cycle()) == l.tour_at(
        i % l.cycle(),
    ) by {
        lemma_tour_wraps(l, i);
    }
}

} // verus!
