//! How critters wander: bugs plod one tile every other tick, greebles
//! change their minds three times in five and skitter one or two tiles a
//! tick. A configured roam cell tethers each bug to the cell it stands in;
//! under `dart` greebles rest on the bugs' off ticks and dart one to three
//! tiles on their moving ticks. Every choice is drawn from the master
//! generator in element order.

use vstd::prelude::*;

use crate::config::ElementsConfig;
use crate::element::{Element, ElementKind};
use crate::grid::{all_directions, roam_cell, same_roam_cell, Direction, Position};
use crate::rng::{after, chacha_in_range, chacha_ratio, Draw, StreamState};
use crate::world::{one_per_tile_of, step_target, World};

verus! {

/// The four directions a critter picks from, in draw order.
pub open spec fn compass() -> Seq<Direction> {
    seq![Direction::North, Direction::East, Direction::South, Direction::West]
}

/// `els` after element `idx` tries one step in `dir`: it moves when the
/// tile ahead is on the grid and free.
pub open spec fn stepped_once(els: Seq<Element>, idx: int, dir: Direction, w: u32, h: u32) -> Seq<Element> {
    match step_target(els, idx, dir, w, h) {
        Some(dest) => els.update(idx, Element { pos: dest, ..els[idx] }),
        None => els,
    }
}

/// `els` after element `idx` tries `n` steps in `dir`, one after another.
pub open spec fn stepped_times(els: Seq<Element>, idx: int, dir: Direction, n: nat, w: u32, h: u32) -> Seq<
    Element,
>
    decreases n,
{
    if n == 0 {
        els
    } else {
        stepped_once(stepped_times(els, idx, dir, (n - 1) as nat, w, h), idx, dir, w, h)
    }
}

/// A step from `pos` in `dir` would leave its roam cell (or the grid)
/// while a roam cell is configured.
pub open spec fn leaves_roam_cell(pos: Position, dir: Direction, w: u32, h: u32, roam: Option<u32>) -> bool {
    match roam {
        None => false,
        Some(cell) => match pos.stepped(dir, w as int, h as int) {
            Some(dest) => roam_cell(pos, cell as int) != roam_cell(dest, cell as int),
            None => true,
        },
    }
}

/// A greeble's new heading and the generator after choosing it: three
/// times in five a fresh direction, else the old one.
pub open spec fn greeble_heading(rng: StreamState, heading: Direction) -> (Direction, StreamState) {
    let turn = Draw::Ratio { numerator: 3, denominator: 5 };
    let pick = Draw::RangeUsize { low: 0, high: 4 };
    let r1 = after(rng, turn);
    if chacha_ratio(rng, 3, 5) {
        (compass()[chacha_in_range(r1, pick)], after(r1, pick))
    } else {
        (heading, r1)
    }
}

/// How many tiles a moving greeble tries and the generator after the
/// draw: one to three under `dart`, else one or two on a fair coin.
pub open spec fn greeble_steps(rng: StreamState, dart: bool) -> (int, StreamState) {
    if dart {
        let c = Draw::RangeU32 { low: 1, high: 4 };
        (chacha_in_range(rng, c), after(rng, c))
    } else {
        let c = Draw::Ratio { numerator: 1, denominator: 2 };
        (
            if chacha_ratio(rng, 1, 2) {
                2
            } else {
                1
            },
            after(rng, c),
        )
    }
}

/// Element `idx`'s turn at tick `tick`: the elements and the generator
/// after it moves (or rests).
pub open spec fn critter_turn(
    els: Seq<Element>,
    rng: StreamState,
    idx: int,
    tick: u64,
    w: u32,
    h: u32,
    roam: Option<u32>,
    dart: bool,
) -> (Seq<Element>, StreamState) {
    let e = els[idx];
    match e.kind {
        ElementKind::Bug => if !e.moves_at(tick) {
            (els, rng)
        } else {
            let call = Draw::RangeUsize { low: 0, high: 4 };
            let dir = compass()[chacha_in_range(rng, call)];
            let next = after(rng, call);
            if leaves_roam_cell(e.pos, dir, w, h, roam) {
                (els, next)
            } else {
                (stepped_once(els, idx, dir, w, h), next)
            }
        },
        ElementKind::Greeble { heading } => if dart && !e.moves_at(tick) {
            (els, rng)
        } else {
            let (dir, r2) = greeble_heading(rng, heading);
            let turned = els.update(idx, Element { kind: ElementKind::Greeble { heading: dir }, ..e });
            let (steps, r3) = greeble_steps(r2, dart);
            (stepped_times(turned, idx, dir, steps as nat, w, h), r3)
        },
        _ => (els, rng),
    }
}

/// The elements and the generator after the first `n` elements, in order,
/// have taken their turns.
pub open spec fn critters_after(
    els: Seq<Element>,
    rng: StreamState,
    n: nat,
    tick: u64,
    w: u32,
    h: u32,
    roam: Option<u32>,
    dart: bool,
) -> (Seq<Element>, StreamState)
    decreases n,
{
    if n == 0 {
        (els, rng)
    } else {
        let (e, r) = critters_after(els, rng, (n - 1) as nat, tick, w, h, roam, dart);
        critter_turn(e, r, n - 1, tick, w, h, roam, dart)
    }
}

/// `b` holds the same elements as `a` but for positions and greeble
/// headings: same ids, lifetimes and kinds of element.
pub open spec fn same_but_moved(a: Seq<Element>, b: Seq<Element>) -> bool {
    &&& a.len() == b.len()
    &&& forall|i: int|
        0 <= i < a.len() ==> {
            let (x, y) = (#[trigger] a[i], b[i]);
            &&& y.id == x.id
            &&& y.ttl == x.ttl
            &&& y.kind_type() == x.kind_type()
            &&& (x.kind is Greeble || y.kind == x.kind)
        }
}

/// Every bug of `b` stands in the same roam cell as in `a`.
pub open spec fn bugs_tethered(a: Seq<Element>, b: Seq<Element>, cell: int) -> bool {
    forall|i: int|
        0 <= i < a.len() && (#[trigger] a[i]).kind is Bug ==> roam_cell(b[i].pos, cell) == roam_cell(
            a[i].pos,
            cell,
        )
}

/// A draw of one of the four directions; the generator moves by one index
/// draw over four.
fn draw_direction(world: &mut World) -> (d: Direction)
    ensures
        d == compass()[chacha_in_range(old(world).rng@, Draw::RangeUsize { low: 0, high: 4 })],
        final(world).rng@ == after(old(world).rng@, Draw::RangeUsize { low: 0, high: 4 }),
        final(world).elements@ == old(world).elements@,
        final(world).kitties@ == old(world).kitties@,
        final(world).width == old(world).width,
        final(world).height == old(world).height,
        final(world).tick == old(world).tick,
        final(world).next_element_id == old(world).next_element_id,
{
    let dirs = all_directions();
    assert(dirs@ == compass());
    match world.rng.choose_one(dirs.as_slice()) {
        Some(d) => *d,
        None => Direction::North,
    }
}

impl World {
    /// Moves every critter once, in element order: a bug on its moving
    /// tick draws a direction and steps unless that step would leave its
    /// roam cell; a greeble (resting on its off tick under `dart`) redraws
    /// its heading three times in five, then tries one to three tiles under
    /// `dart`, else one or two. A step lands only on a free tile of the
    /// grid.
    pub fn move_critters(&mut self, rules: &ElementsConfig)
        requires
            rules.bug.roam_cell != Some(0u32),
        ensures
            (final(self).elements@, final(self).rng@) == critters_after(
                old(self).elements@,
                old(self).rng@,
                old(self).elements@.len(),
                old(self).tick,
                old(self).width,
                old(self).height,
                rules.bug.roam_cell,
                rules.greeble.dart,
            ),
            same_but_moved(old(self).elements@, final(self).elements@),
            rules.bug.roam_cell matches Some(cell) ==> bugs_tethered(
                old(self).elements@,
                final(self).elements@,
                cell as int,
            ),
            one_per_tile_of(old(self).elements@) ==> one_per_tile_of(final(self).elements@),
            final(self).kitties@ == old(self).kitties@,
            final(self).width == old(self).width,
            final(self).height == old(self).height,
            final(self).tick == old(self).tick,
            final(self).next_element_id == old(self).next_element_id,
    {
        let tick = self.tick;
        let (w, h) = (self.width, self.height);
        let roam = rules.bug.roam_cell;
        let dart = rules.greeble.dart;
        let n = self.elements.len();
        let mut idx: usize = 0;
        while idx < n
            invariant
                n == old(self).elements@.len(),
                n == self.elements@.len(),
                idx <= n,
                tick == old(self).tick,
                w == old(self).width,
                h == old(self).height,
                roam == rules.bug.roam_cell,
                roam != Some(0u32),
                dart == rules.greeble.dart,
                (self.elements@, self.rng@) == critters_after(
                    old(self).elements@,
                    old(self).rng@,
                    idx as nat,
                    tick,
                    w,
                    h,
                    roam,
                    dart,
                ),
                same_but_moved(old(self).elements@, self.elements@),
                roam matches Some(cell) ==> bugs_tethered(old(self).elements@, self.elements@, cell as int),
                one_per_tile_of(old(self).elements@) ==> one_per_tile_of(self.elements@),
                self.kitties@ == old(self).kitties@,
                self.width == old(self).width,
                self.height == old(self).height,
                self.tick == old(self).tick,
                self.next_element_id == old(self).next_element_id,
            decreases n - idx,
        {
            let e = self.elements[idx];
            match e.kind {
                ElementKind::Bug => {
                    if e.critter_moves_this_tick(tick) {
                        let dir = draw_direction(self);
                        let leaves = match roam {
                            Some(cell) => match e.pos.step(dir, w, h) {
                                Some(dest) => !same_roam_cell(e.pos, dest, cell),
                                None => true,
                            },
                            None => false,
                        };
                        if !leaves {
                            self.try_step_element(idx, dir);
                        }
                    }
                },
                ElementKind::Greeble { heading } => {
                    if !dart || e.critter_moves_this_tick(tick) {
                        let ghost r0 = self.rng@;
                        let ghost before = self.elements@;
                        let dir = if self.rng.gen_ratio(3, 5) {
                            draw_direction(self)
                        } else {
                            heading
                        };
                        assert((dir, self.rng@) == greeble_heading(r0, heading));
                        self.elements[idx].kind = ElementKind::Greeble { heading: dir };
                        let ghost turned = self.elements@;
                        assert(turned =~= before.update(
                            idx as int,
                            Element { kind: ElementKind::Greeble { heading: dir }, ..e },
                        ));
                        let ghost r2 = self.rng@;
                        let steps: u32 = if dart {
                            self.rng.gen_range_u32(1, 4)
                        } else if self.rng.gen_ratio(1, 2) {
                            2
                        } else {
                            1
                        };
                        assert((steps as int, self.rng@) == greeble_steps(r2, dart));
                        let mut k: u32 = 0;
                        while k < steps
                            invariant
                                k <= steps,
                                idx < n,
                                n == self.elements@.len(),
                                w == old(self).width,
                                h == old(self).height,
                                self.width == old(self).width,
                                self.height == old(self).height,
                                self.tick == old(self).tick,
                                self.next_element_id == old(self).next_element_id,
                                self.kitties@ == old(self).kitties@,
                                self.rng@ == greeble_steps(r2, dart).1,
                                self.elements@ == stepped_times(turned, idx as int, dir, k as nat, w, h),
                                same_but_moved(old(self).elements@, self.elements@),
                                self.elements@[idx as int].kind is Greeble,
                                roam matches Some(cell) ==> bugs_tethered(
                                    old(self).elements@,
                                    self.elements@,
                                    cell as int,
                                ),
                                one_per_tile_of(old(self).elements@) ==> one_per_tile_of(self.elements@),
                            decreases steps - k,
                        {
                            self.try_step_element(idx, dir);
                            k = k + 1;
                        }
                    }
                },
                _ => {},
            }
            idx = idx + 1;
        }
    }
}

} // verus!
