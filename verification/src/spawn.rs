//! Restocking the world: the guaranteed lake and the staggered lifetimes
//! of timed spawns.
//!
//! A world whose water minimum can afford it (four or more) always holds
//! at least one 2x2 all-water square, when room allows. Like every
//! placement rule, the lake is an obligation met when there is room and
//! carried over when there is not: nothing is ever evicted or stacked.

use vstd::prelude::*;

use crate::config::{EdgePenalty, ElementsConfig};
use crate::element::{Element, ElementKind, ElementType};
use crate::grid::Position;
use crate::rng::{after, after_all, chacha_in_range, repeated, Draw, StreamState};
use crate::world::{occupied, one_per_tile_of, row_major_before, World};

verus! {

/// The four tiles of the 2x2 square anchored at `(x, y)`, its top-left.
pub open spec fn square_tiles(x: u32, y: u32) -> Seq<Position> {
    seq![
        Position { x, y },
        Position { x: (x + 1) as u32, y },
        Position { x, y: (y + 1) as u32 },
        Position { x: (x + 1) as u32, y: (y + 1) as u32 },
    ]
}

/// A 2x2 square anchored at `a` fits inside a `width` x `height` world.
pub open spec fn fits(a: Position, width: u32, height: u32) -> bool {
    a.x + 1 < width && a.y + 1 < height
}

/// Some water element lies on `p`.
pub open spec fn water_at(elements: Seq<Element>, p: Position) -> bool {
    exists|i: int|
        0 <= i < elements.len() && (#[trigger] elements[i]).kind_type() == ElementType::Water
            && elements[i].pos == p
}

/// A tile a lake may use: water already, or free.
pub open spec fn tile_usable(elements: Seq<Element>, p: Position) -> bool {
    water_at(elements, p) || !occupied(elements, p)
}

/// The square anchored at `a` is all water.
pub open spec fn lake_at(elements: Seq<Element>, a: Position) -> bool {
    forall|t: int| 0 <= t < 4 ==> water_at(elements, #[trigger] square_tiles(a.x, a.y)[t])
}

/// The square anchored at `a` could become a lake without moving anything.
pub open spec fn usable_square(elements: Seq<Element>, a: Position) -> bool {
    forall|t: int| 0 <= t < 4 ==> tile_usable(elements, #[trigger] square_tiles(a.x, a.y)[t])
}

/// The world holds a lake.
pub open spec fn holds_lake(elements: Seq<Element>, width: u32, height: u32) -> bool {
    exists|a: Position| fits(a, width, height) && lake_at(elements, a)
}

/// The world has room for a lake.
pub open spec fn room_for_lake(elements: Seq<Element>, width: u32, height: u32) -> bool {
    exists|a: Position| fits(a, width, height) && usable_square(elements, a)
}

/// The world has room for a lake that some standing water already
/// starts: a usable square with at least one water tile.
pub open spec fn wet_room_for_lake(elements: Seq<Element>, width: u32, height: u32) -> bool {
    exists|a: Position|
        fits(a, width, height) && usable_square(elements, a) && exists|t: int|
            0 <= t < 4 && water_at(elements, #[trigger] square_tiles(a.x, a.y)[t])
}

/// Some tile of the square anchored at `a` is water.
pub open spec fn wet_square(elements: Seq<Element>, a: Position) -> bool {
    exists|t: int| 0 <= t < 4 && water_at(elements, #[trigger] square_tiles(a.x, a.y)[t])
}

/// A fresh lake candidate: a fitting, usable square anchored on a free
/// tile.
pub open spec fn fresh_anchor(elements: Seq<Element>, width: u32, height: u32, a: Position) -> bool {
    fits(a, width, height) && !occupied(elements, a) && usable_square(elements, a)
}

/// `f` lists every fresh lake candidate once, in row-major order.
pub open spec fn lists_fresh_anchors(f: Seq<Position>, elements: Seq<Element>, width: u32, height: u32) -> bool {
    &&& forall|a: int, b: int| 0 <= a < b < f.len() ==> row_major_before(f[a], f[b])
    &&& forall|p: Position| f.contains(p) <==> fresh_anchor(elements, width, height, p)
}

/// The bound of a draw over `n` candidates, as a `u32` (taken modulo
/// 2^32).
pub open spec fn candidate_bound(n: nat) -> u32 {
    (n % 0x1_0000_0000) as u32
}

/// The draw that samples one of `n` fresh candidates.
pub open spec fn candidate_call(n: nat) -> Draw {
    Draw::RangeU32 { low: 0, high: candidate_bound(n) }
}

/// The draws made to sample `k` of `n` fresh candidates: none when there
/// is nothing to sample or the bound comes to zero.
pub open spec fn candidate_draws(n: nat, k: nat) -> Seq<Draw> {
    if n > 0 && candidate_bound(n) > 0 {
        repeated(candidate_call(n), k)
    } else {
        Seq::empty()
    }
}

/// The index of the `c`-th sampled candidate among `n`, drawn from a
/// generator that started in `state`.
pub open spec fn candidate_pick(state: StreamState, n: nat, c: nat) -> int {
    if candidate_bound(n) > 0 {
        chacha_in_range(after_all(state, repeated(candidate_call(n), c)), candidate_call(n))
    } else {
        0
    }
}

/// The lifetime draws made for `m` new water tiles.
pub open spec fn lifetime_draws(rules: ElementsConfig, m: nat) -> Seq<Draw> {
    if rules.water.ttl is Some {
        repeated(Draw::RangeU32 { low: 0, high: (2 * rules.ttl_jitter + 1) as u32 }, m)
    } else {
        Seq::empty()
    }
}

/// How the lake obligation ran on `before` with the generator in `rng`,
/// ending in `after_els` with the generator in `after_rng`, where `f`
/// lists the fresh candidates: `rules.spread_candidates` of them were
/// sampled, one lifetime drawn per water tile added, no candidate needed
/// fewer tiles than were added, and a lake that now stands is one whose
/// missing tiles were exactly those added, on a square that touched water
/// or was sampled.
pub open spec fn lake_by_draws(
    f: Seq<Position>,
    before: Seq<Element>,
    rng: StreamState,
    width: u32,
    height: u32,
    rules: ElementsConfig,
    after_els: Seq<Element>,
    after_rng: StreamState,
) -> bool {
    let added = after_els.len() - before.len();
    let k = rules.spread_candidates as nat;
    &&& lists_fresh_anchors(f, before, width, height)
    &&& after_rng == after_all(rng, candidate_draws(f.len(), k) + lifetime_draws(rules, added as nat))
    &&& f.len() > 0 ==> forall|c: int|
        0 <= c < k ==> added <= missing_count(before, f[#[trigger] candidate_pick(rng, f.len(), c as nat)])
    &&& holds_lake(after_els, width, height) ==> exists|a: Position|
        {
            &&& fits(a, width, height)
            &&& usable_square(before, a)
            &&& lake_at(after_els, a)
            &&& added == missing_count(before, a)
            &&& wet_square(before, a) || (f.len() > 0 && exists|c: int|
                0 <= c < k && a == f[#[trigger] candidate_pick(rng, f.len(), c as nat)])
        }
}

/// The tile positions of every water element.
pub(crate) fn water_tiles(elements: &Vec<Element>) -> (v: Vec<Position>)
    ensures
        forall|p: Position| v@.contains(p) <==> water_at(elements@, p),
{
    let mut v: Vec<Position> = Vec::new();
    let mut i: usize = 0;
    while i < elements.len()
        invariant
            i <= elements@.len(),
            forall|p: Position|
                v@.contains(p) <==> exists|j: int|
                    0 <= j < i && (#[trigger] elements@[j]).kind_type() == ElementType::Water
                        && elements@[j].pos == p,
        decreases elements@.len() - i,
    {
        let e = elements[i];
        if e.element_type() == ElementType::Water {
            let ghost before = v@;
            v.push(e.pos);
            proof {
                assert forall|p: Position| v@.contains(p) <==> exists|j: int|
                    0 <= j < i + 1 && (#[trigger] elements@[j]).kind_type() == ElementType::Water
                        && elements@[j].pos == p by {
                    if v@.contains(p) {
                        let k = choose|k: int| 0 <= k < v@.len() && v@[k] == p;
                        if k < before.len() {
                            assert(before[k] == p);
                            assert(before.contains(p));
                        } else {
                            assert(elements@[i as int].pos == p);
                        }
                    }
                    if exists|j: int|
                        0 <= j < i + 1 && (#[trigger] elements@[j]).kind_type() == ElementType::Water
                            && elements@[j].pos == p {
                        let j = choose|j: int|
                            0 <= j < i + 1 && (#[trigger] elements@[j]).kind_type()
                                == ElementType::Water && elements@[j].pos == p;
                        if j < i {
                            assert(before.contains(p));
                            let k = choose|k: int| 0 <= k < before.len() && before[k] == p;
                            assert(v@[k] == p);
                        } else {
                            assert(v@[v@.len() - 1] == p);
                        }
                    }
                }
            }
        }
        i = i + 1;
    }
    v
}

/// Whether `p` is among `v`.
pub(crate) fn contains_pos(v: &Vec<Position>, p: Position) -> (b: bool)
    ensures
        b == v@.contains(p),
{
    let mut i: usize = 0;
    while i < v.len()
        invariant
            i <= v@.len(),
            forall|j: int| 0 <= j < i ==> v@[j] != p,
        decreases v@.len() - i,
    {
        if v[i] == p {
            return true;
        }
        i = i + 1;
    }
    false
}

/// The square anchored at `(x, y)`.
fn square(x: u32, y: u32) -> (s: [Position; 4])
    requires
        x < u32::MAX,
        y < u32::MAX,
    ensures
        s@ == square_tiles(x, y),
{
    [
        Position { x, y },
        Position { x: x + 1, y },
        Position { x, y: y + 1 },
        Position { x: x + 1, y: y + 1 },
    ]
}

/// Whether every tile of `sq` is among `water`.
fn all_water(sq: &[Position; 4], water: &Vec<Position>) -> (b: bool)
    ensures
        b == forall|t: int| 0 <= t < 4 ==> water@.contains(#[trigger] sq@[t]),
{
    let mut t: usize = 0;
    while t < 4
        invariant
            t <= 4,
            forall|u: int| 0 <= u < t ==> water@.contains(#[trigger] sq@[u]),
        decreases 4 - t,
    {
        if !contains_pos(water, sq[t]) {
            return false;
        }
        t = t + 1;
    }
    true
}

/// Whether every tile of `sq` is water or free.
fn all_usable(sq: &[Position; 4], water: &Vec<Position>, free: &Vec<Position>) -> (b: bool)
    ensures
        b == forall|t: int| 0 <= t < 4 ==> (water@.contains(#[trigger] sq@[t]) || free@.contains(sq@[t])),
{
    let mut t: usize = 0;
    while t < 4
        invariant
            t <= 4,
            forall|u: int| 0 <= u < t ==> (water@.contains(#[trigger] sq@[u]) || free@.contains(sq@[u])),
        decreases 4 - t,
    {
        if !contains_pos(water, sq[t]) && !contains_pos(free, sq[t]) {
            return false;
        }
        t = t + 1;
    }
    true
}

/// The lifetime `base - jitter + offset`, floored at one tick.
pub open spec fn jittered(base: u64, jitter: u64, offset: int) -> int {
    if base + offset - jitter >= 1 {
        base + offset - jitter
    } else {
        1
    }
}

/// A timed spawn's lifetime: `base` plus or minus `jitter`, drawn uniformly
/// through the master generator, floored at one tick so a base smaller
/// than the jitter never spawns an already-expired element.
pub fn jittered_ttl(world: &mut World, base: u64, jitter: u64) -> (t: u64)
    requires
        jitter <= 2147483646,
        base + 2 * jitter <= u64::MAX,
    ensures
        t >= 1,
        t >= base - jitter,
        t <= base + jitter || t == 1,
        t == jittered(base, jitter, chacha_in_range(
            old(world).rng@,
            Draw::RangeU32 { low: 0, high: (2 * jitter + 1) as u32 },
        )),
        final(world).rng@ == after(old(world).rng@, Draw::RangeU32 { low: 0, high: (2 * jitter + 1) as u32 }),
        final(world).elements@ == old(world).elements@,
        final(world).kitties@ == old(world).kitties@,
        final(world).width == old(world).width,
        final(world).height == old(world).height,
        final(world).tick == old(world).tick,
        final(world).next_element_id == old(world).next_element_id,
{
    let span: u32 = 2 * (jitter as u32) + 1;
    let offset = world.rng.gen_range_u32(0, span) as u64;
    let sum = base + offset;
    let lowered = if sum >= jitter {
        sum - jitter
    } else {
        0
    };
    if lowered >= 1 {
        lowered
    } else {
        1
    }
}


/// The square anchored at `a` has `q` among its tiles.
pub open spec fn covers(a: Position, q: Position) -> bool {
    exists|t: int| 0 <= t < 4 && #[trigger] square_tiles(a.x, a.y)[t] == q
}

/// The square anchored at `a` covers one of the `water` tiles.
pub open spec fn touches(water: Seq<Position>, a: Position) -> bool {
    exists|j: int| 0 <= j < water.len() && covers(a, #[trigger] water[j])
}

/// Every tile of the square anchored at `a` is in `water` or in `free`.
pub open spec fn usable_in(water: Seq<Position>, free: Seq<Position>, a: Position) -> bool {
    forall|t: int|
        0 <= t < 4 ==> (water.contains(#[trigger] square_tiles(a.x, a.y)[t]) || free.contains(
            square_tiles(a.x, a.y)[t],
        ))
}

/// How many tiles of the square anchored at `a` are not yet water.
pub open spec fn missing_in(water: Seq<Position>, a: Position) -> nat {
    (if water.contains(square_tiles(a.x, a.y)[0]) { 0nat } else { 1nat }) + (if water.contains(
        square_tiles(a.x, a.y)[1],
    ) {
        0nat
    } else {
        1nat
    }) + (if water.contains(square_tiles(a.x, a.y)[2]) { 0nat } else { 1nat }) + (if water.contains(
        square_tiles(a.x, a.y)[3],
    ) {
        0nat
    } else {
        1nat
    })
}

/// A tile on the world's rim.
pub open spec fn on_rim(p: Position, width: u32, height: u32) -> bool {
    p.x == 0 || p.y == 0 || p.x + 1 >= width || p.y + 1 >= height
}

/// How many tiles of the square anchored at `a` lie on the rim.
pub open spec fn rim_in(a: Position, width: u32, height: u32) -> nat {
    (if on_rim(square_tiles(a.x, a.y)[0], width, height) { 1nat } else { 0nat }) + (if on_rim(
        square_tiles(a.x, a.y)[1],
        width,
        height,
    ) {
        1nat
    } else {
        0nat
    }) + (if on_rim(square_tiles(a.x, a.y)[2], width, height) { 1nat } else { 0nat }) + (if on_rim(
        square_tiles(a.x, a.y)[3],
        width,
        height,
    ) {
        1nat
    } else {
        0nat
    })
}

/// Adds `(ax, ay)` to `anchors` when its square fits, is usable and is not
/// already there.
fn consider(
    anchors: &mut Vec<Position>,
    ax: u32,
    ay: u32,
    width: u32,
    height: u32,
    water: &Vec<Position>,
    free: &Vec<Position>,
)
    requires
        forall|i: int|
            0 <= i < old(anchors)@.len() ==> fits(#[trigger] old(anchors)@[i], width, height)
                && usable_in(water@, free@, old(anchors)@[i]),
    ensures
        final(anchors)@ == old(anchors)@ || final(anchors)@ == old(anchors)@.push(
            Position { x: ax, y: ay },
        ),
        forall|i: int|
            0 <= i < final(anchors)@.len() ==> fits(#[trigger] final(anchors)@[i], width, height)
                && usable_in(water@, free@, final(anchors)@[i]),
        fits(Position { x: ax, y: ay }, width, height) && usable_in(
            water@,
            free@,
            Position { x: ax, y: ay },
        ) ==> final(anchors)@.contains(Position { x: ax, y: ay }),
{
    let a = Position { x: ax, y: ay };
    if ax < u32::MAX && ay < u32::MAX && ax + 1 < width && ay + 1 < height {
        let sq = square(ax, ay);
        if all_usable(&sq, water, free) && !contains_pos(anchors, a) {
            anchors.push(a);
            assert(anchors@[anchors@.len() - 1] == a);
        }
    }
}

/// Every anchor whose fitting, usable square covers existing water.
fn lake_anchors(water: &Vec<Position>, free: &Vec<Position>, width: u32, height: u32) -> (anchors: Vec<
    Position,
>)
    requires
        forall|j: int| 0 <= j < water@.len() ==> (#[trigger] water@[j]).x < u32::MAX && water@[j].y < u32::MAX,
    ensures
        forall|i: int|
            0 <= i < anchors@.len() ==> fits(#[trigger] anchors@[i], width, height) && usable_in(
                water@,
                free@,
                anchors@[i],
            ),
        forall|a: Position, j: int|
            0 <= j < water@.len() && fits(a, width, height) && usable_in(water@, free@, a) && #[trigger] covers(
                a,
                water@[j],
            ) ==> anchors@.contains(a),
        forall|i: int| 0 <= i < anchors@.len() ==> touches(water@, #[trigger] anchors@[i]),
{
    let mut anchors: Vec<Position> = Vec::new();
    let mut k: usize = 0;
    while k < water.len()
        invariant
            k <= water@.len(),
            forall|j: int| 0 <= j < water@.len() ==> (#[trigger] water@[j]).x < u32::MAX && water@[j].y < u32::MAX,
            forall|i: int|
                0 <= i < anchors@.len() ==> fits(#[trigger] anchors@[i], width, height) && usable_in(
                    water@,
                    free@,
                    anchors@[i],
                ),
            forall|a: Position, j: int|
                0 <= j < k && fits(a, width, height) && usable_in(water@, free@, a) && #[trigger] covers(
                    a,
                    water@[j],
                ) ==> anchors@.contains(a),
            forall|i: int| 0 <= i < anchors@.len() ==> touches(water@, #[trigger] anchors@[i]),
        decreases water@.len() - k,
    {
        let p = water[k];
        let ghost before = anchors@;
        if p.x >= 1 && p.y >= 1 {
            consider(&mut anchors, p.x - 1, p.y - 1, width, height, water, free);
        }
        let ghost s1 = anchors@;
        if p.y >= 1 {
            consider(&mut anchors, p.x, p.y - 1, width, height, water, free);
        }
        let ghost s2 = anchors@;
        if p.x >= 1 {
            consider(&mut anchors, p.x - 1, p.y, width, height, water, free);
        }
        let ghost s3 = anchors@;
        consider(&mut anchors, p.x, p.y, width, height, water, free);
        proof {
            assert(p == water@[k as int]);
            assert forall|i: int| 0 <= i < anchors@.len() implies touches(water@, #[trigger] anchors@[i]) by {
                let q = anchors@[i];
                if i < before.len() {
                    assert(q == before[i]);
                } else if p.x >= 1 && p.y >= 1 && i < s1.len() {
                    assert(q == Position { x: (p.x - 1) as u32, y: (p.y - 1) as u32 });
                    assert(square_tiles(q.x, q.y)[3] == p);
                    assert(covers(q, water@[k as int]));
                } else if p.y >= 1 && i < s2.len() && i >= s1.len() {
                    assert(q == Position { x: p.x, y: (p.y - 1) as u32 });
                    assert(square_tiles(q.x, q.y)[2] == p);
                    assert(covers(q, water@[k as int]));
                } else if p.x >= 1 && i < s3.len() && i >= s2.len() {
                    assert(q == Position { x: (p.x - 1) as u32, y: p.y });
                    assert(square_tiles(q.x, q.y)[1] == p);
                    assert(covers(q, water@[k as int]));
                } else {
                    assert(i >= s3.len());
                    assert(q == p);
                    assert(square_tiles(q.x, q.y)[0] == p);
                    assert(covers(q, water@[k as int]));
                }
            }
            assert forall|s: Seq<Position>, q: Position| s.contains(q) implies (s.push(q)).contains(q) by {
                let i = choose|i: int| 0 <= i < s.len() && s[i] == q;
                assert(s.push(q)[i] == q);
            }
            assert forall|a: Position, j: int|
                0 <= j < k + 1 && fits(a, width, height) && usable_in(water@, free@, a) && #[trigger] covers(
                    a,
                    water@[j],
                ) implies anchors@.contains(a) by {
                if j < k {
                    assert(before.contains(a));
                    let i = choose|i: int| 0 <= i < before.len() && before[i] == a;
                    assert(s1[i] == a);
                    assert(s2[i] == a);
                    assert(s3[i] == a);
                    assert(anchors@[i] == a);
                } else {
                    let t = choose|t: int| 0 <= t < 4 && #[trigger] square_tiles(a.x, a.y)[t] == p;
                    if t == 3 {
                        assert(a == Position { x: (p.x - 1) as u32, y: (p.y - 1) as u32 });
                        assert(s1.contains(a));
                        let i = choose|i: int| 0 <= i < s1.len() && s1[i] == a;
                        assert(s2[i] == a);
                        assert(s3[i] == a);
                        assert(anchors@[i] == a);
                    } else if t == 2 {
                        assert(a == Position { x: p.x, y: (p.y - 1) as u32 });
                        assert(s2.contains(a));
                        let i = choose|i: int| 0 <= i < s2.len() && s2[i] == a;
                        assert(s3[i] == a);
                        assert(anchors@[i] == a);
                    } else if t == 1 {
                        assert(a == Position { x: (p.x - 1) as u32, y: p.y });
                        assert(s3.contains(a));
                        let i = choose|i: int| 0 <= i < s3.len() && s3[i] == a;
                        assert(anchors@[i] == a);
                    } else {
                        assert(a == p);
                    }
                }
            }
        }
        k = k + 1;
    }
    anchors
}

/// Every free tile whose fitting square is usable.
fn fresh_anchors(water: &Vec<Position>, free: &Vec<Position>, width: u32, height: u32) -> (fresh: Vec<
    Position,
>)
    requires
        forall|j: int| 0 <= j < free@.len() ==> (#[trigger] free@[j]).x < width && free@[j].y < height,
        forall|a: int, b: int| 0 <= a < b < free@.len() ==> row_major_before(free@[a], free@[b]),
    ensures
        forall|i: int|
            0 <= i < fresh@.len() ==> fits(#[trigger] fresh@[i], width, height) && usable_in(
                water@,
                free@,
                fresh@[i],
            ),
        forall|a: Position|
            free@.contains(a) && fits(a, width, height) && usable_in(water@, free@, a)
                ==> #[trigger] fresh@.contains(a),
        forall|i: int| 0 <= i < fresh@.len() ==> free@.contains(#[trigger] fresh@[i]),
        forall|a: int, b: int| 0 <= a < b < fresh@.len() ==> row_major_before(fresh@[a], fresh@[b]),
{
    let mut fresh: Vec<Position> = Vec::new();
    let mut k: usize = 0;
    while k < free.len()
        invariant
            k <= free@.len(),
            forall|j: int| 0 <= j < free@.len() ==> (#[trigger] free@[j]).x < width && free@[j].y < height,
            forall|i: int|
                0 <= i < fresh@.len() ==> fits(#[trigger] fresh@[i], width, height) && usable_in(
                    water@,
                    free@,
                    fresh@[i],
                ),
            forall|j: int|
                0 <= j < k && fits(free@[j], width, height) && usable_in(water@, free@, free@[j])
                    ==> fresh@.contains(#[trigger] free@[j]),
            forall|a: int, b: int| 0 <= a < b < free@.len() ==> row_major_before(free@[a], free@[b]),
            forall|i: int| #![trigger fresh@[i]] 0 <= i < fresh@.len() ==> exists|j: int| 0 <= j < k && fresh@[i] == #[trigger] free@[j],
            forall|a: int, b: int| 0 <= a < b < fresh@.len() ==> row_major_before(fresh@[a], fresh@[b]),
        decreases free@.len() - k,
    {
        let p = free[k];
        let ghost before = fresh@;
        if p.x + 1 < width && p.y + 1 < height {
            let sq = square(p.x, p.y);
            if all_usable(&sq, water, free) {
                fresh.push(p);
                proof {
                    assert(fresh@[fresh@.len() - 1] == p);
                    assert forall|i: int| #![trigger fresh@[i]] 0 <= i < fresh@.len() implies exists|j: int|
                        0 <= j < k + 1 && fresh@[i] == #[trigger] free@[j] by {
                        if i < before.len() {
                            let j = choose|j: int| 0 <= j < k && before[i] == #[trigger] free@[j];
                            assert(fresh@[i] == free@[j]);
                        } else {
                            assert(fresh@[i] == free@[k as int]);
                        }
                    }
                    assert forall|a: int, b: int| 0 <= a < b < fresh@.len() implies row_major_before(
                        fresh@[a],
                        fresh@[b],
                    ) by {
                        if b == before.len() {
                            let j = choose|j: int| 0 <= j < k && before[a] == #[trigger] free@[j];
                            assert(row_major_before(free@[j], free@[k as int]));
                        } else {
                            assert(fresh@[a] == before[a] && fresh@[b] == before[b]);
                        }
                    }
                    assert forall|j: int|
                        0 <= j < k + 1 && fits(free@[j], width, height) && usable_in(water@, free@, free@[j])
                            implies fresh@.contains(#[trigger] free@[j]) by {
                        if j < k {
                            let i = choose|i: int| 0 <= i < before.len() && before[i] == free@[j];
                            assert(fresh@[i] == free@[j]);
                        }
                    }
                }
            }
        }
        k = k + 1;
    }
    proof {
        assert forall|a: Position|
            free@.contains(a) && fits(a, width, height) && usable_in(water@, free@, a)
                implies #[trigger] fresh@.contains(a) by {
            let j = choose|j: int| 0 <= j < free@.len() && free@[j] == a;
            assert(fresh@.contains(free@[j]));
        }
        assert forall|i: int| 0 <= i < fresh@.len() implies free@.contains(#[trigger] fresh@[i]) by {
            let j = choose|j: int| 0 <= j < k && fresh@[i] == #[trigger] free@[j];
        }
    }
    fresh
}

/// How many tiles of `sq` are not in `water`.
fn count_missing(sq: &[Position; 4], water: &Vec<Position>) -> (n: usize)
    ensures
        n == (if water@.contains(sq@[0]) { 0nat } else { 1nat }) + (if water@.contains(sq@[1]) {
            0nat
        } else {
            1nat
        }) + (if water@.contains(sq@[2]) { 0nat } else { 1nat }) + (if water@.contains(sq@[3]) {
            0nat
        } else {
            1nat
        }),
{
    let a: usize = if contains_pos(water, sq[0]) { 0 } else { 1 };
    let b: usize = if contains_pos(water, sq[1]) { 0 } else { 1 };
    let c: usize = if contains_pos(water, sq[2]) { 0 } else { 1 };
    let d: usize = if contains_pos(water, sq[3]) { 0 } else { 1 };
    a + b + c + d
}

/// Whether `p` lies on the rim of a `width` x `height` world.
fn is_on_rim(p: Position, width: u32, height: u32) -> (b: bool)
    requires
        p.x < u32::MAX,
        p.y < u32::MAX,
    ensures
        b == on_rim(p, width, height),
{
    p.x == 0 || p.y == 0 || p.x + 1 >= width || p.y + 1 >= height
}

/// The anchor with the fewest missing tiles, then, when the interior is
/// preferred, the fewest rim tiles; ties keep the earliest.
fn best_anchor(anchors: &Vec<Position>, water: &Vec<Position>, width: u32, height: u32, interior: bool) -> (best:
    Position)
    requires
        anchors@.len() > 0,
        forall|i: int| 0 <= i < anchors@.len() ==> fits(#[trigger] anchors@[i], width, height),
    ensures
        anchors@.contains(best),
        forall|i: int| 0 <= i < anchors@.len() ==> missing_in(water@, best) <= missing_in(water@, #[trigger] anchors@[i]),
{
    let mut best = anchors[0];
    let mut best_missing: usize = usize::MAX;
    let mut best_rim: usize = usize::MAX;
    let mut i: usize = 0;
    while i < anchors.len()
        invariant
            0 < anchors@.len(),
            i <= anchors@.len(),
            forall|j: int| 0 <= j < anchors@.len() ==> fits(#[trigger] anchors@[j], width, height),
            anchors@.contains(best),
            i > 0 ==> best_missing == missing_in(water@, best),
            forall|j: int| 0 <= j < i ==> best_missing <= missing_in(water@, #[trigger] anchors@[j]),
        decreases anchors@.len() - i,
    {
        let a = anchors[i];
        assert(fits(anchors@[i as int], width, height));
        let sq = square(a.x, a.y);
        let missing = count_missing(&sq, water);
        let rim: usize = if interior {
            let r0: usize = if is_on_rim(sq[0], width, height) { 1 } else { 0 };
            let r1: usize = if is_on_rim(sq[1], width, height) { 1 } else { 0 };
            let r2: usize = if is_on_rim(sq[2], width, height) { 1 } else { 0 };
            let r3: usize = if is_on_rim(sq[3], width, height) { 1 } else { 0 };
            r0 + r1 + r2 + r3
        } else {
            0
        };
        if i == 0 || missing < best_missing || (missing == best_missing && rim < best_rim) {
            best = a;
            best_missing = missing;
            best_rim = rim;
            assert(anchors@[i as int] == a);
        }
        i = i + 1;
    }
    best
}


/// Whether some lake is anchored at one of the `water` tiles.
fn lake_standing(water: &Vec<Position>, width: u32, height: u32) -> (b: bool)
    requires
        forall|j: int| 0 <= j < water@.len() ==> (#[trigger] water@[j]).x < u32::MAX && water@[j].y < u32::MAX,
    ensures
        b == exists|a: Position|
            fits(a, width, height) && forall|t: int|
                0 <= t < 4 ==> water@.contains(#[trigger] square_tiles(a.x, a.y)[t]),
{
    let mut k: usize = 0;
    while k < water.len()
        invariant
            k <= water@.len(),
            forall|j: int| 0 <= j < water@.len() ==> (#[trigger] water@[j]).x < u32::MAX && water@[j].y < u32::MAX,
            forall|j: int|
                0 <= j < k ==> !(fits(#[trigger] water@[j], width, height) && forall|t: int|
                    0 <= t < 4 ==> water@.contains(#[trigger] square_tiles(water@[j].x, water@[j].y)[t])),
        decreases water@.len() - k,
    {
        let p = water[k];
        if p.x + 1 < width && p.y + 1 < height {
            let sq = square(p.x, p.y);
            if all_water(&sq, water) {
                assert(fits(p, width, height));
                return true;
            }
        }
        k = k + 1;
    }
    proof {
        assert forall|a: Position|
            fits(a, width, height) implies !(forall|t: int|
                0 <= t < 4 ==> water@.contains(#[trigger] square_tiles(a.x, a.y)[t])) by {
            if forall|t: int| 0 <= t < 4 ==> water@.contains(#[trigger] square_tiles(a.x, a.y)[t]) {
                assert(water@.contains(square_tiles(a.x, a.y)[0]));
                let j = choose|j: int| 0 <= j < water@.len() && water@[j] == square_tiles(a.x, a.y)[0];
                assert(water@[j] == a);
            }
        }
    }
    false
}

/// Samples `k` fresh candidates through the master generator, each drawn
/// uniformly by index and added to `anchors` unless already there. Nothing
/// is drawn when there is no fresh candidate.
fn sample_candidates(world: &mut World, anchors: &mut Vec<Position>, fresh: &Vec<Position>, k: usize)
    ensures
        final(world).rng@ == after_all(old(world).rng@, candidate_draws(fresh@.len(), k as nat)),
        final(world).elements@ == old(world).elements@,
        final(world).kitties@ == old(world).kitties@,
        final(world).width == old(world).width,
        final(world).height == old(world).height,
        final(world).tick == old(world).tick,
        final(world).next_element_id == old(world).next_element_id,
        forall|c: int|
            0 <= c < k && fresh@.len() > 0 ==> 0 <= #[trigger] candidate_pick(old(world).rng@, fresh@.len(), c as nat)
                < fresh@.len(),
        forall|q: Position|
            #[trigger] final(anchors)@.contains(q) <==> old(anchors)@.contains(q) || (fresh@.len() > 0 && exists|c: int|
                0 <= c < k && q == fresh@[#[trigger] candidate_pick(old(world).rng@, fresh@.len(), c as nat)]),
{
    let ghost rng0 = world.rng@;
    let ghost n = fresh@.len();
    let ghost a0 = anchors@;
    assert(rng0.1 + Seq::<Draw>::empty() =~= rng0.1);
    if fresh.len() == 0 {
        return;
    }
    let len: usize = fresh.len();
    let len64: u64 = len as u64;
    let bound = #[verifier::truncate] (len64 as u32);
    assert(bound == (len64 % 0x1_0000_0000u64) as u32) by (bit_vector)
        requires
            bound == len64 as u32,
    ;
    assert(bound == candidate_bound(n));
    assert(bound as usize <= len) by (bit_vector)
        requires
            bound == len64 as u32,
            len64 == len as u64,
    ;
    let mut c: usize = 0;
    while c < k
        invariant
            n == fresh@.len(),
            n == len,
            0 < n,
            bound == candidate_bound(n),
            bound <= len,
            c <= k,
            world.rng@ == after_all(rng0, candidate_draws(n, c as nat)),
            world.elements@ == old(world).elements@,
            world.kitties@ == old(world).kitties@,
            world.width == old(world).width,
            world.height == old(world).height,
            world.tick == old(world).tick,
            world.next_element_id == old(world).next_element_id,
            rng0 == old(world).rng@,
            a0 == old(anchors)@,
            forall|c2: int| 0 <= c2 < c ==> 0 <= #[trigger] candidate_pick(rng0, n, c2 as nat) < n,
            forall|q: Position|
                #[trigger] anchors@.contains(q) <==> a0.contains(q) || exists|c2: int|
                    0 <= c2 < c && q == fresh@[#[trigger] candidate_pick(rng0, n, c2 as nat)],
        decreases k - c,
    {
        let ghost before_rng = world.rng@;
        let drawn = world.rng.gen_range_u32(0, bound);
        let idx = drawn as usize;
        proof {
            let call = candidate_call(n);
            if bound > 0 {
                assert(candidate_draws(n, c as nat) == repeated(call, c as nat));
                assert(drawn as int == candidate_pick(rng0, n, c as nat));
                assert(repeated(call, c as nat).push(call) =~= repeated(call, (c + 1) as nat));
                assert((rng0.1 + repeated(call, c as nat)).push(call) =~= rng0.1 + repeated(call, (c + 1) as nat));
            } else {
                assert(candidate_draws(n, (c + 1) as nat) == candidate_draws(n, c as nat));
            }
        }
        assert(idx < fresh@.len());
        let candidate = fresh[idx];
        let ghost prev = anchors@;
        if !contains_pos(anchors, candidate) {
            anchors.push(candidate);
        }
        proof {
            let cn: int = c as int;
            assert(idx == candidate_pick(rng0, n, cn as nat));
            assert(anchors@.contains(candidate)) by {
                if prev.contains(candidate) {
                    let i = choose|i: int| 0 <= i < prev.len() && prev[i] == candidate;
                    assert(anchors@[i] == candidate);
                } else {
                    assert(anchors@[anchors@.len() - 1] == candidate);
                }
            }
            assert forall|q: Position| prev.contains(q) implies anchors@.contains(q) by {
                let i = choose|i: int| 0 <= i < prev.len() && prev[i] == q;
                assert(anchors@[i] == q);
            }
            assert forall|q: Position| anchors@.contains(q) && q != candidate implies prev.contains(q) by {
                let i = choose|i: int| 0 <= i < anchors@.len() && anchors@[i] == q;
                if i < prev.len() {
                    assert(prev[i] == q);
                }
            }
            assert forall|q: Position| #[trigger] anchors@.contains(q) <==> a0.contains(q) || exists|c2: int|
                0 <= c2 < c + 1 && q == fresh@[#[trigger] candidate_pick(rng0, n, c2 as nat)] by {
                if anchors@.contains(q) {
                    if q == candidate {
                        assert(q == fresh@[candidate_pick(rng0, n, cn as nat)]);
                    } else {
                        assert(prev.contains(q));
                        if !a0.contains(q) {
                            let c2 = choose|c2: int|
                                0 <= c2 < c && q == fresh@[#[trigger] candidate_pick(rng0, n, c2 as nat)];
                            assert(0 <= c2 < c + 1);
                        }
                    }
                }
                if a0.contains(q) {
                    assert(prev.contains(q));
                }
                if exists|c2: int| 0 <= c2 < c + 1 && q == fresh@[#[trigger] candidate_pick(rng0, n, c2 as nat)] {
                    let c2 = choose|c2: int| 0 <= c2 < c + 1 && q == fresh@[#[trigger] candidate_pick(rng0, n, c2 as nat)];
                    if c2 < c {
                        assert(prev.contains(q));
                    } else {
                        assert(q == candidate);
                    }
                }
            }
        }
        c = c + 1;
    }
}

/// The guaranteed lake: a world whose water minimum is four or more holds a
/// 2x2 all-water square whenever there is room for one. An existing lake is
/// left alone; otherwise every usable square touching standing water joins
/// the candidates, with a handful of fresh squares drawn through the master
/// generator, and the candidate with the fewest missing tiles (then, when
/// the interior is preferred, the fewest rim tiles) is completed. Nothing
/// is evicted and nothing is stacked.
pub fn ensure_lake(world: &mut World, rules: &ElementsConfig)
    requires
        rules.ttl_jitter <= 2147483646,
        rules.water.ttl matches Some(b) ==> b + 2 * rules.ttl_jitter <= u64::MAX,
        forall|i: int|
            0 <= i < old(world).elements@.len() ==> (#[trigger] old(world).elements@[i]).pos.x
                < u32::MAX && old(world).elements@[i].pos.y < u32::MAX,
    ensures
        old(world).elements@.len() <= final(world).elements@.len() <= old(world).elements@.len() + 4,
        final(world).elements@.subrange(0, old(world).elements@.len() as int) == old(world).elements@,
        forall|i: int|
            old(world).elements@.len() <= i < final(world).elements@.len() ==> {
                &&& (#[trigger] final(world).elements@[i]).kind == ElementKind::Water
                &&& final(world).elements@[i].pos.inside(old(world).width as int, old(world).height as int)
                &&& !occupied(old(world).elements@, final(world).elements@[i].pos)
                &&& (final(world).elements@[i].ttl is Some <==> rules.water.ttl is Some)
            },
        forall|i: int, j: int|
            old(world).elements@.len() <= i < j < final(world).elements@.len() ==> (#[trigger] final(world).elements@[i]).pos != (#[trigger] final(world).elements@[j]).pos,
        one_per_tile_of(old(world).elements@) ==> one_per_tile_of(final(world).elements@),
        rules.water.min < 4 ==> final(world).elements@ == old(world).elements@,
        holds_lake(old(world).elements@, old(world).width, old(world).height) ==> final(world).elements@
            == old(world).elements@,
        rules.water.min >= 4 && rules.spread_candidates >= 1 && room_for_lake(
            old(world).elements@,
            old(world).width,
            old(world).height,
        ) ==> holds_lake(final(world).elements@, old(world).width, old(world).height),
        rules.water.min >= 4 && wet_room_for_lake(old(world).elements@, old(world).width, old(world).height)
            ==> holds_lake(final(world).elements@, old(world).width, old(world).height),
        rules.water.min >= 4 && !holds_lake(old(world).elements@, old(world).width, old(world).height)
            && holds_lake(final(world).elements@, old(world).width, old(world).height) ==> exists|a: Position|
            fits(a, old(world).width, old(world).height) && usable_square(old(world).elements@, a) && lake_at(
                final(world).elements@,
                a,
            ) && final(world).elements@.len() - old(world).elements@.len() == missing_count(
                old(world).elements@,
                a,
            ),
        rules.water.min >= 4 && !holds_lake(old(world).elements@, old(world).width, old(world).height)
            ==> forall|a: Position|
            fits(a, old(world).width, old(world).height) && usable_square(old(world).elements@, a)
                && (exists|t: int| 0 <= t < 4 && water_at(old(world).elements@, #[trigger] square_tiles(a.x, a.y)[t]))
                ==> final(world).elements@.len() - old(world).elements@.len() <= #[trigger] missing_count(
                old(world).elements@,
                a,
            ),
        rules.water.min < 4 || holds_lake(old(world).elements@, old(world).width, old(world).height)
            ==> final(world).rng@ == old(world).rng@,
        rules.water.min >= 4 && !holds_lake(old(world).elements@, old(world).width, old(world).height)
            ==> exists|f: Seq<Position>|
            #[trigger] lake_by_draws(
                f,
                old(world).elements@,
                old(world).rng@,
                old(world).width,
                old(world).height,
                *rules,
                final(world).elements@,
                final(world).rng@,
            ),
        final(world).kitties@ == old(world).kitties@,
        final(world).width == old(world).width,
        final(world).height == old(world).height,
        final(world).tick == old(world).tick,
{
    if rules.water.min < 4 {
        return;
    }
    let width = world.width;
    let height = world.height;
    let ghost old_elements = world.elements@;
    let water = water_tiles(&world.elements);
    proof {
        assert forall|j: int| 0 <= j < water@.len() implies (#[trigger] water@[j]).x < u32::MAX
            && water@[j].y < u32::MAX by {
            assert(water@.contains(water@[j]));
            assert(water_at(old_elements, water@[j]));
        }
    }
    if lake_standing(&water, width, height) {
        proof {
            let a = choose|a: Position|
                fits(a, width, height) && forall|t: int|
                    0 <= t < 4 ==> water@.contains(#[trigger] square_tiles(a.x, a.y)[t]);
            assert forall|t: int| 0 <= t < 4 implies water_at(old_elements, #[trigger] square_tiles(a.x, a.y)[t]) by {
                assert(water@.contains(square_tiles(a.x, a.y)[t]));
            }
            assert(lake_at(old_elements, a));
        }
        return;
    }
    proof {
        assert forall|a: Position| fits(a, width, height) implies !lake_at(old_elements, a) by {
            if lake_at(old_elements, a) {
                assert forall|t: int| 0 <= t < 4 implies water@.contains(#[trigger] square_tiles(a.x, a.y)[t]) by {
                    assert(water_at(old_elements, square_tiles(a.x, a.y)[t]));
                }
            }
        }
    }
    let free = world.free_element_tiles();
    proof {
        assert forall|j: int| 0 <= j < free@.len() implies (#[trigger] free@[j]).x < width && free@[j].y < height by {
            assert(free@[j].inside(width as int, height as int));
        }
        // For a fitting square, a tile is usable exactly when it is water or
        // among the free tiles.
        assert forall|a: Position| fits(a, width, height) implies (usable_in(water@, free@, a)
            <==> usable_square(old_elements, a)) by {
            assert forall|t: int| 0 <= t < 4 implies ((water@.contains(#[trigger] square_tiles(a.x, a.y)[t])
                || free@.contains(square_tiles(a.x, a.y)[t])) <==> tile_usable(
                old_elements,
                square_tiles(a.x, a.y)[t],
            )) by {
                let q = square_tiles(a.x, a.y)[t];
                assert(q.inside(width as int, height as int));
                if free@.contains(q) {
                    let k = choose|k: int| 0 <= k < free@.len() && free@[k] == q;
                    assert(!occupied(old_elements, free@[k]));
                }
            }
        }
    }
    let mut anchors = lake_anchors(&water, &free, width, height);
    let fresh = fresh_anchors(&water, &free, width, height);
    proof {
        assert forall|p: Position| fresh@.contains(p) <==> fresh_anchor(old_elements, width, height, p) by {
            if fresh@.contains(p) {
                let i = choose|i: int| 0 <= i < fresh@.len() && fresh@[i] == p;
                assert(free@.contains(fresh@[i]));
                let k = choose|k: int| 0 <= k < free@.len() && free@[k] == p;
                assert(!occupied(old_elements, free@[k]));
                assert(fits(fresh@[i], width, height) && usable_in(water@, free@, fresh@[i]));
            }
            if fresh_anchor(old_elements, width, height, p) {
                assert(p.inside(width as int, height as int));
                assert(free@.contains(p));
                assert(usable_in(water@, free@, p));
            }
        }
        assert(lists_fresh_anchors(fresh@, old_elements, width, height));
    }
    let ghost before_draws = anchors@;
    let ghost rng0 = world.rng@;
    sample_candidates(world, &mut anchors, &fresh, rules.spread_candidates);
    proof {
        assert forall|i: int| 0 <= i < anchors@.len() implies fits(#[trigger] anchors@[i], width, height)
            && usable_in(water@, free@, anchors@[i]) by {
            assert(anchors@.contains(anchors@[i]));
            if !before_draws.contains(anchors@[i]) {
                let c = choose|c: int|
                    0 <= c < rules.spread_candidates && anchors@[i] == fresh@[#[trigger] candidate_pick(
                        rng0,
                        fresh@.len(),
                        c as nat,
                    )];
                assert(0 <= candidate_pick(rng0, fresh@.len(), c as nat) < fresh@.len());
            } else {
                let i0 = choose|i0: int| 0 <= i0 < before_draws.len() && before_draws[i0] == anchors@[i];
                assert(fits(before_draws[i0], width, height));
            }
        }
        assert forall|q: Position| before_draws.contains(q) implies #[trigger] anchors@.contains(q) by {}
        if fresh@.len() > 0 && rules.spread_candidates > 0 {
            let c0: int = 0;
            assert(0 <= candidate_pick(rng0, fresh@.len(), c0 as nat) < fresh@.len());
            assert(anchors@.contains(fresh@[candidate_pick(rng0, fresh@.len(), c0 as nat)]));
        }
    }
    proof {
        // Room for a lake means some candidate was found.
        if rules.spread_candidates >= 1 && room_for_lake(old_elements, width, height) {
            let a = choose|a: Position| fits(a, width, height) && usable_square(old_elements, a);
            assert(usable_in(water@, free@, a));
            if exists|t: int| 0 <= t < 4 && water@.contains(#[trigger] square_tiles(a.x, a.y)[t]) {
                let t = choose|t: int| 0 <= t < 4 && water@.contains(#[trigger] square_tiles(a.x, a.y)[t]);
                let j = choose|j: int| 0 <= j < water@.len() && water@[j] == square_tiles(a.x, a.y)[t];
                assert(covers(a, water@[j]));
                assert(before_draws.contains(a));
                assert(anchors@.contains(a));
            } else {
                assert(square_tiles(a.x, a.y)[0] == a);
                assert(!water@.contains(square_tiles(a.x, a.y)[0]));
                assert(free@.contains(a));
                assert(fresh@.contains(a));
            }
        }
    }
    proof {
        // A usable square touching water is always among the candidates.
        if wet_room_for_lake(old_elements, width, height) {
            let a = choose|a: Position|
                fits(a, width, height) && usable_square(old_elements, a) && exists|t: int|
                    0 <= t < 4 && water_at(old_elements, #[trigger] square_tiles(a.x, a.y)[t]);
            let t = choose|t: int| 0 <= t < 4 && water_at(old_elements, #[trigger] square_tiles(a.x, a.y)[t]);
            assert(water@.contains(square_tiles(a.x, a.y)[t]));
            let j = choose|j: int| 0 <= j < water@.len() && water@[j] == square_tiles(a.x, a.y)[t];
            assert(covers(a, water@[j]));
            assert(usable_in(water@, free@, a));
            assert(before_draws.contains(a));
            assert(anchors@.contains(a));
        }
    }
    let ghost mid = world.rng@;
    let ghost cd = candidate_draws(fresh@.len(), rules.spread_candidates as nat);
    proof {
        assert(lifetime_draws(*rules, 0) =~= Seq::<Draw>::empty());
        assert(cd + lifetime_draws(*rules, 0) =~= cd);
        assert(mid.1 + lifetime_draws(*rules, 0) =~= mid.1);
    }
    if anchors.len() == 0 {
        proof {
            assert(lake_by_draws(
                fresh@,
                old_elements,
                old(world).rng@,
                width,
                height,
                *rules,
                world.elements@,
                world.rng@,
            ));
        }
        return;
    }
    let interior = match rules.edge_penalty {
        EdgePenalty::On => true,
        _ => false,
    };
    let best = best_anchor(&anchors, &water, width, height, interior);
    proof {
        let i = choose|i: int| 0 <= i < anchors@.len() && anchors@[i] == best;
        assert(fits(anchors@[i], width, height));
        assert(usable_in(water@, free@, anchors@[i]));
    }
    let sq = square(best.x, best.y);
    let mut t: usize = 0;
    while t < 4
        invariant
            t <= 4,
            sq@ == square_tiles(best.x, best.y),
            fits(best, width, height),
            usable_in(water@, free@, best),
            forall|p: Position| water@.contains(p) <==> water_at(old_elements, p),
            forall|k: int| 0 <= k < free@.len() ==> (#[trigger] free@[k]).inside(width as int, height as int)
                && !occupied(old_elements, free@[k]),
            rules.ttl_jitter <= 2147483646,
            rules.water.ttl matches Some(b) ==> b + 2 * rules.ttl_jitter <= u64::MAX,
            world.width == width,
            world.height == height,
            world.tick == old(world).tick,
            world.kitties@ == old(world).kitties@,
            old_elements.len() <= world.elements@.len() <= old_elements.len() + t,
            world.elements@.subrange(0, old_elements.len() as int) == old_elements,
            forall|i: int|
                old_elements.len() <= i < world.elements@.len() ==> {
                    &&& (#[trigger] world.elements@[i]).kind == ElementKind::Water
                    &&& world.elements@[i].pos.inside(width as int, height as int)
                    &&& !occupied(old_elements, world.elements@[i].pos)
                    &&& (world.elements@[i].ttl is Some <==> rules.water.ttl is Some)
                    &&& exists|u: int| 0 <= u < t && world.elements@[i].pos == sq@[u]
                        && !water@.contains(sq@[u])
                },
            forall|i: int, j: int|
                old_elements.len() <= i < j < world.elements@.len() ==> (#[trigger] world.elements@[i]).pos
                    != (#[trigger] world.elements@[j]).pos,
            forall|u: int| 0 <= u < t ==> water_at(world.elements@, #[trigger] sq@[u]),
            world.rng@ == after_all(mid, lifetime_draws(*rules, (world.elements@.len() - old_elements.len()) as nat)),
            world.elements@.len() - old_elements.len() == (if t > 0 && !water@.contains(sq@[0]) { 1nat } else { 0nat })
                + (if t > 1 && !water@.contains(sq@[1]) { 1nat } else { 0nat })
                + (if t > 2 && !water@.contains(sq@[2]) { 1nat } else { 0nat })
                + (if t > 3 && !water@.contains(sq@[3]) { 1nat } else { 0nat }),
        decreases 4 - t,
    {
        let pos = sq[t];
        if !contains_pos(&water, pos) {
            let ghost before = world.elements@;
            let ghost rng_before = world.rng@;
            let id = world.allocate_element_id();
            let ttl = match rules.water.ttl {
                Some(base) => Some(jittered_ttl(world, base, rules.ttl_jitter)),
                None => None,
            };
            assert(usable_in(water@, free@, best));
            assert(water@.contains(sq@[t as int]) || free@.contains(sq@[t as int]));
            proof {
                assert(free@.contains(pos));
                let k = choose|k: int| 0 <= k < free@.len() && free@[k] == pos;
                assert(!occupied(old_elements, free@[k]));
                assert(pos.inside(width as int, height as int));
            }
            world.elements.push(Element { id, kind: ElementKind::Water, pos, ttl });
            proof {
                let m = (before.len() - old_elements.len()) as nat;
                assert((world.elements@.len() - old_elements.len()) as nat == m + 1);
                if rules.water.ttl is Some {
                    let call = Draw::RangeU32 { low: 0, high: (2 * rules.ttl_jitter + 1) as u32 };
                    assert(lifetime_draws(*rules, m + 1) =~= lifetime_draws(*rules, m).push(call));
                    assert((mid.1 + lifetime_draws(*rules, m)).push(call) =~= mid.1 + lifetime_draws(
                        *rules,
                        m + 1,
                    ));
                } else {
                    assert(lifetime_draws(*rules, m + 1) =~= lifetime_draws(*rules, m));
                }
            }
            proof {
                let n = world.elements@.len() - 1;
                assert(world.elements@[n].pos == pos);
                assert(world.elements@.subrange(0, old_elements.len() as int) =~= before.subrange(
                    0,
                    old_elements.len() as int,
                ));
                assert forall|u: int| 0 <= u < t + 1 implies water_at(world.elements@, #[trigger] sq@[u]) by {
                    if u == t {
                        assert(world.elements@[n].kind_type() == ElementType::Water);
                    } else {
                        let i = choose|i: int|
                            0 <= i < before.len() && (#[trigger] before[i]).kind_type() == ElementType::Water
                                && before[i].pos == sq@[u];
                        assert(world.elements@[i] == before[i]);
                    }
                }
                assert forall|i: int|
                    old_elements.len() <= i < world.elements@.len() implies exists|u: int|
                        0 <= u < t + 1 && (#[trigger] world.elements@[i]).pos == sq@[u] && !water@.contains(sq@[u]) by {
                    if i == n {
                        assert(world.elements@[i].pos == sq@[t as int]);
                    } else {
                        assert(world.elements@[i] == before[i]);
                    }
                }
                assert forall|i: int, j: int|
                    old_elements.len() <= i < j < world.elements@.len() implies (#[trigger] world.elements@[i]).pos
                        != (#[trigger] world.elements@[j]).pos by {
                    if j == n {
                        assert(world.elements@[i] == before[i]);
                        let u = choose|u: int| 0 <= u < t && before[i].pos == sq@[u] && !water@.contains(sq@[u]);
                        assert(sq@[u] != sq@[t as int]);
                    } else {
                        assert(world.elements@[i] == before[i]);
                        assert(world.elements@[j] == before[j]);
                    }
                }
            }
        } else {
            proof {
                assert(water_at(old_elements, pos));
                let i = choose|i: int|
                    0 <= i < old_elements.len() && (#[trigger] old_elements[i]).kind_type() == ElementType::Water
                        && old_elements[i].pos == pos;
                assert(world.elements@.subrange(0, old_elements.len() as int)[i] == old_elements[i]);
                assert(world.elements@[i] == old_elements[i]);
                assert forall|i: int|
                    old_elements.len() <= i < world.elements@.len() implies exists|u: int|
                        0 <= u < t + 1 && (#[trigger] world.elements@[i]).pos == sq@[u] && !water@.contains(sq@[u]) by {
                    let u = choose|u: int| 0 <= u < t && world.elements@[i].pos == sq@[u] && !water@.contains(sq@[u]);
                }
            }
        }
        t = t + 1;
    }
    proof {
        assert(lake_at(world.elements@, best));
        assert(missing_in(water@, best) == world.elements@.len() - old_elements.len());
        assert(usable_square(old_elements, best));
        assert(missing_in(water@, best) == missing_count(old_elements, best));
        lemma_stacking(old_elements, world.elements@);
        assert forall|a: Position|
            fits(a, width, height) && usable_square(old_elements, a)
                && (exists|t: int| 0 <= t < 4 && water_at(old_elements, #[trigger] square_tiles(a.x, a.y)[t]))
                implies world.elements@.len() - old_elements.len() <= #[trigger] missing_count(old_elements, a) by {
            let t = choose|t: int| 0 <= t < 4 && water_at(old_elements, #[trigger] square_tiles(a.x, a.y)[t]);
            assert(water@.contains(square_tiles(a.x, a.y)[t]));
            let j = choose|j: int| 0 <= j < water@.len() && water@[j] == square_tiles(a.x, a.y)[t];
            assert(covers(a, water@[j]));
            assert(usable_in(water@, free@, a));
            assert(before_draws.contains(a));
            assert(anchors@.contains(a));
            let i = choose|i: int| 0 <= i < anchors@.len() && anchors@[i] == a;
            assert(missing_in(water@, best) <= missing_in(water@, anchors@[i]));
            assert(missing_in(water@, a) == missing_count(old_elements, a));
        }
        let added = world.elements@.len() - old_elements.len();
        let ld = lifetime_draws(*rules, added as nat);
        assert((old(world).rng@.1 + cd) + ld =~= old(world).rng@.1 + (cd + ld));
        if fresh@.len() > 0 {
            assert forall|c: int| 0 <= c < rules.spread_candidates implies added <= missing_count(
                old_elements,
                fresh@[#[trigger] candidate_pick(old(world).rng@, fresh@.len(), c as nat)],
            ) by {
                let q = fresh@[candidate_pick(old(world).rng@, fresh@.len(), c as nat)];
                assert(anchors@.contains(q));
                let i = choose|i: int| 0 <= i < anchors@.len() && anchors@[i] == q;
                assert(missing_in(water@, best) <= missing_in(water@, anchors@[i]));
                assert(missing_in(water@, q) == missing_count(old_elements, q));
            }
        }
        assert(anchors@.contains(best));
        if before_draws.contains(best) {
            let i0 = choose|i0: int| 0 <= i0 < before_draws.len() && before_draws[i0] == best;
            assert(touches(water@, before_draws[i0]));
            let j = choose|j: int| 0 <= j < water@.len() && covers(best, #[trigger] water@[j]);
            let t = choose|t: int| 0 <= t < 4 && #[trigger] square_tiles(best.x, best.y)[t] == water@[j];
            assert(water@.contains(water@[j]));
            assert(water_at(old_elements, square_tiles(best.x, best.y)[t]));
            assert(wet_square(old_elements, best));
        }
        assert(lake_by_draws(
            fresh@,
            old_elements,
            old(world).rng@,
            width,
            height,
            *rules,
            world.elements@,
            world.rng@,
        ));
    }
}

/// How many tiles of the square anchored at `a` hold no water.
pub open spec fn missing_count(elements: Seq<Element>, a: Position) -> nat {
    (if water_at(elements, square_tiles(a.x, a.y)[0]) { 0nat } else { 1nat }) + (if water_at(
        elements,
        square_tiles(a.x, a.y)[1],
    ) {
        0nat
    } else {
        1nat
    }) + (if water_at(elements, square_tiles(a.x, a.y)[2]) { 0nat } else { 1nat }) + (if water_at(
        elements,
        square_tiles(a.x, a.y)[3],
    ) {
        0nat
    } else {
        1nat
    })
}

/// Appending elements on previously unoccupied, pairwise distinct tiles
/// keeps one element per tile.
pub proof fn lemma_stacking(before: Seq<Element>, after: Seq<Element>)
    requires
        before.len() <= after.len(),
        after.subrange(0, before.len() as int) == before,
        forall|i: int| before.len() <= i < after.len() ==> !occupied(before, (#[trigger] after[i]).pos),
        forall|i: int, j: int|
            before.len() <= i < j < after.len() ==> (#[trigger] after[i]).pos != (#[trigger] after[j]).pos,
    ensures
        one_per_tile_of(before) ==> one_per_tile_of(after),
{
    if one_per_tile_of(before) {
        assert forall|i: int, j: int| 0 <= i < j < after.len() implies (#[trigger] after[i]).pos
            != (#[trigger] after[j]).pos by {
            if j < before.len() {
                assert(after[i] == before[i]);
                assert(after[j] == before[j]);
            } else if i < before.len() {
                assert(after[i] == before[i]);
                assert(!occupied(before, after[j].pos));
            }
        }
    }
}

} // verus!
