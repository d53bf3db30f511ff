//! The constitution, checked every tick.
//!
//! Whatever behaviors propose and however the world evolves, these must hold
//! at the end of every tick: kitties are never alone, never suffer, stay in
//! the world, never share a tile, elements never stack, and a kitty in want
//! of food or water always has some to find unless the world is full.
//!
//! Need pressures and happiness are real numbers kept by the host; it
//! judges them against their bounds and hands the judgements, with the
//! numbers as printed, to `check` as each kitty's `Vitals`.

use vstd::prelude::*;

use crate::element::ElementType;
use crate::grid::Position;
use crate::action::TargetRef;
use crate::kitty::{Activity, Kitty};
use crate::needs::NeedKind;
use crate::text::{decimal, push_decimal};
use crate::world::{count_kind, near, World};

verus! {

/// A broken guarantee: which article, and what was found.
#[derive(Debug, Clone, PartialEq, Eq)]
pub struct Violation {
    pub article: &'static str,
    pub detail: String,
}

/// The host's judgement of one kitty's real-valued state.
#[derive(Debug, Clone, PartialEq, Eq)]
pub struct Vitals {
    /// The first need, in canonical order, whose value lies outside its
    /// bounds or is not a number, with the value as printed.
    pub stray_need: Option<(NeedKind, String)>,
    /// When happiness is below its floor or not a number: happiness and
    /// the floor, as printed.
    pub below_floor: Option<(String, String)>,
    /// When the eat need is past the safeguard threshold: its value, as
    /// printed to one decimal.
    pub eat_past_safeguard: Option<String>,
    /// When the drink need is past the safeguard threshold: its value, as
    /// printed to one decimal.
    pub drink_past_safeguard: Option<String>,
}

/// "Article I (kitties cannot suffer)".
pub open spec fn article_one() -> Seq<char> {
    "Article I (kitties cannot suffer)"@
}

/// "Article III (kitties cannot be alone)".
pub open spec fn article_three() -> Seq<char> {
    "Article III (kitties cannot be alone)"@
}

/// "World integrity".
pub open spec fn integrity() -> Seq<char> {
    "World integrity"@
}

/// The first fault of one kitty: a need out of bounds, happiness below the
/// floor, or standing outside the world.
pub open spec fn kitty_fault(k: Kitty, v: Vitals, width: u32, height: u32) -> Option<
    (Seq<char>, Seq<char>),
> {
    match v.stray_need {
        Some((need, value)) => Some(
            (
                article_one(),
                k.name@ + "'s "@ + need.name() + " need is "@ + value@ + ", outside [0, 100]"@,
            ),
        ),
        None => match v.below_floor {
            Some((happiness, floor)) => Some(
                (
                    article_one(),
                    k.name@ + "'s happiness is "@ + happiness@ + ", below the floor of "@ + floor@,
                ),
            ),
            None => if !k.pos.inside(width as int, height as int) {
                Some(
                    (
                        integrity(),
                        k.name@ + " is at ("@ + decimal(k.pos.x as nat) + ", "@ + decimal(
                            k.pos.y as nat,
                        ) + "), outside the "@ + decimal(width as nat) + "x"@ + decimal(
                            height as nat,
                        ) + " world"@,
                    ),
                )
            } else {
                None
            },
        },
    }
}

/// The first kitty fault at or after index `i`.
pub open spec fn kitties_fault_from(
    ks: Seq<Kitty>,
    vs: Seq<Vitals>,
    width: u32,
    height: u32,
    i: int,
) -> Option<(Seq<char>, Seq<char>)>
    decreases ks.len() - i,
{
    if i < 0 || i >= ks.len() {
        None
    } else {
        match kitty_fault(ks[i], vs[i], width, height) {
            Some(f) => Some(f),
            None => kitties_fault_from(ks, vs, width, height, i + 1),
        }
    }
}

/// The first tile, scanning from index `j`, that repeats an earlier one.
pub open spec fn repeated_from(ps: Seq<Position>, j: int) -> Option<Position>
    decreases ps.len() - j,
{
    if j < 0 || j >= ps.len() {
        None
    } else if exists|i: int| 0 <= i < j && ps[i] == ps[j] {
        Some(ps[j])
    } else {
        repeated_from(ps, j + 1)
    }
}

/// The fault reported for a tile two things share.
pub open spec fn shared_fault(what: Seq<char>, p: Position) -> (Seq<char>, Seq<char>) {
    (
        integrity(),
        "two "@ + what + " share tile ("@ + decimal(p.x as nat) + ", "@ + decimal(p.y as nat)
            + ")"@,
    )
}

/// The first kitty in want of `need`'s relief, with its value as printed.
pub open spec fn first_in_want(vs: Seq<Vitals>, need: NeedKind, i: int) -> Option<int>
    decreases vs.len() - i,
{
    if i < 0 || i >= vs.len() {
        None
    } else if (if need == NeedKind::Eat {
        vs[i].eat_past_safeguard is Some
    } else {
        vs[i].drink_past_safeguard is Some
    }) {
        Some(i)
    } else {
        first_in_want(vs, need, i + 1)
    }
}

/// The relief fault for `need`, whose relief is an element of `kind`.
pub open spec fn relief_fault(
    ks: Seq<Kitty>,
    vs: Seq<Vitals>,
    elements: Seq<crate::element::Element>,
    need: NeedKind,
    kind: ElementType,
    threshold: Seq<char>,
) -> Option<(Seq<char>, Seq<char>)> {
    match first_in_want(vs, need, 0) {
        Some(i) => if count_kind(elements, kind) as u32 == 0 {
            let value = if need == NeedKind::Eat {
                vs[i].eat_past_safeguard.unwrap()@
            } else {
                vs[i].drink_past_safeguard.unwrap()@
            };
            Some(
                (
                    article_one(),
                    ks[i].name@ + "'s "@ + need.name() + " need is "@ + value
                        + " (past the safeguard threshold of "@ + threshold + ") but no "@
                        + kind.name() + " exists"@,
                ),
            )
        } else {
            None
        },
        None => None,
    }
}

/// The first violated guarantee, in the order they are checked.
pub open spec fn first_violation(w: World, vs: Seq<Vitals>, threshold: Seq<char>) -> Option<
    (Seq<char>, Seq<char>),
> {
    let ks = w.kitties@;
    if ks.len() < 2 {
        Some((article_three(), "world holds "@ + decimal(ks.len()) + " kitties"@))
    } else if kitties_fault_from(ks, vs, w.width, w.height, 0) is Some {
        kitties_fault_from(ks, vs, w.width, w.height, 0)
    } else if repeated_from(ks.map_values(|k: Kitty| k.pos), 0) is Some {
        Some(shared_fault("kitties"@, repeated_from(ks.map_values(|k: Kitty| k.pos), 0).unwrap()))
    } else if repeated_from(w.elements@.map_values(|e: crate::element::Element| e.pos), 0) is Some {
        Some(
            shared_fault(
                "elements"@,
                repeated_from(w.elements@.map_values(|e: crate::element::Element| e.pos), 0).unwrap(),
            ),
        )
    } else if (w.elements@.len() as u32) >= w.width * w.height {
        None
    } else if relief_fault(ks, vs, w.elements@, NeedKind::Eat, ElementType::Chow, threshold) is Some {
        relief_fault(ks, vs, w.elements@, NeedKind::Eat, ElementType::Chow, threshold)
    } else {
        relief_fault(ks, vs, w.elements@, NeedKind::Drink, ElementType::Water, threshold)
    }
}


/// If some kitty in `vs` from index `k` on is past the safeguard for
/// `need`, a first such kitty is found from `k`.
proof fn lemma_someone_in_want_is_found(vs: Seq<Vitals>, need: NeedKind, k: int, i: int)
    requires
        0 <= k <= i < vs.len(),
        if need == NeedKind::Eat {
            vs[i].eat_past_safeguard is Some
        } else {
            vs[i].drink_past_safeguard is Some
        },
    ensures
        first_in_want(vs, need, k) is Some,
    decreases i - k,
{
    if k < i {
        lemma_someone_in_want_is_found(vs, need, k + 1, i);
    }
}

/// With no element of `kind` in `els`, none is counted.
proof fn lemma_none_of_kind_counts_zero(els: Seq<crate::element::Element>, kind: ElementType)
    requires
        forall|j: int| 0 <= j < els.len() ==> (#[trigger] els[j]).kind_type() != kind,
    ensures
        count_kind(els, kind) == 0,
    decreases els.len(),
{
    if els.len() > 0 {
        assert forall|j: int| 0 <= j < els.drop_last().len() implies (#[trigger] els.drop_last()[j]).kind_type()
            != kind by {
            assert(els.drop_last()[j] == els[j]);
        }
        lemma_none_of_kind_counts_zero(els.drop_last(), kind);
        assert(els.last() == els[els.len() - 1]);
    }
}

/// Kitties cannot suffer for want of relief: in a world not yet full of
/// elements, a kitty past the safeguard threshold for eating while no bowl
/// exists, or for drinking while no water exists, makes the check fail.
/// So a check that passes leaves every such kitty with its relief in the
/// world.
pub proof fn lemma_want_without_relief_fails_the_check(
    w: World,
    vs: Seq<Vitals>,
    threshold: Seq<char>,
    i: int,
    need: NeedKind,
)
    requires
        w.width * w.height <= u32::MAX,
        w.elements@.len() < w.width * w.height,
        vs.len() == w.kitties@.len(),
        0 <= i < vs.len(),
        (need == NeedKind::Eat && vs[i].eat_past_safeguard is Some) || (need == NeedKind::Drink
            && vs[i].drink_past_safeguard is Some),
        forall|j: int|
            0 <= j < w.elements@.len() ==> (#[trigger] w.elements@[j]).kind_type() != (if need == NeedKind::Eat {
                ElementType::Chow
            } else {
                ElementType::Water
            }),
    ensures
        first_violation(w, vs, threshold) is Some,
{
    let kind = if need == NeedKind::Eat {
        ElementType::Chow
    } else {
        ElementType::Water
    };
    lemma_someone_in_want_is_found(vs, need, 0, i);
    lemma_none_of_kind_counts_zero(w.elements@, kind);
    assert((w.elements@.len() as u32) < w.width * w.height);
    assert(relief_fault(w.kitties@, vs, w.elements@, need, kind, threshold) is Some);
}

/// A kitty at or after `k` with a fault makes the scan from `k` find one.
proof fn lemma_kitty_fault_is_found(ks: Seq<Kitty>, vs: Seq<Vitals>, width: u32, height: u32, k: int, i: int)
    requires
        0 <= k <= i < ks.len(),
        kitty_fault(ks[i], vs[i], width, height) is Some,
    ensures
        kitties_fault_from(ks, vs, width, height, k) is Some,
    decreases i - k,
{
    if k < i {
        lemma_kitty_fault_is_found(ks, vs, width, height, k + 1, i);
    }
}

/// A tile repeated at index `b`, at or after `j`, makes the scan from `j`
/// find a repeat.
proof fn lemma_repeat_is_found(ps: Seq<Position>, j: int, a: int, b: int)
    requires
        0 <= j <= b < ps.len(),
        0 <= a < b,
        ps[a] == ps[b],
    ensures
        repeated_from(ps, j) is Some,
    decreases b - j,
{
    if j < b && !(exists|i: int| 0 <= i < j && ps[i] == ps[j]) {
        lemma_repeat_is_found(ps, j + 1, a, b);
    }
}

/// The check fails on every broken guarantee: fewer than two kitties
/// (reported under Article III); a kitty whose need is out of bounds or
/// whose happiness is below the floor, or who stands outside the world;
/// two kitties on one tile; two elements on one tile.
pub proof fn lemma_broken_guarantees_fail_the_check(w: World, vs: Seq<Vitals>, threshold: Seq<char>)
    requires
        vs.len() == w.kitties@.len(),
    ensures
        w.kitties@.len() < 2 ==> (first_violation(w, vs, threshold) matches Some(f) && f.0 == article_three()),
        (exists|i: int|
            0 <= i < vs.len() && ((#[trigger] vs[i]).stray_need is Some || vs[i].below_floor is Some
                || !(w.kitties@[i].pos.x < w.width && w.kitties@[i].pos.y < w.height))) ==> first_violation(
            w,
            vs,
            threshold,
        ) is Some,
        (exists|a: int, b: int|
            0 <= a < b < w.kitties@.len() && (#[trigger] w.kitties@[a]).pos == (#[trigger] w.kitties@[b]).pos)
            ==> first_violation(w, vs, threshold) is Some,
        (exists|a: int, b: int|
            0 <= a < b < w.elements@.len() && (#[trigger] w.elements@[a]).pos == (#[trigger] w.elements@[b]).pos)
            ==> first_violation(w, vs, threshold) is Some,
{
    let ks = w.kitties@;
    if exists|i: int|
        0 <= i < vs.len() && ((#[trigger] vs[i]).stray_need is Some || vs[i].below_floor is Some
            || !(ks[i].pos.x < w.width && ks[i].pos.y < w.height)) {
        let i = choose|i: int|
            0 <= i < vs.len() && ((#[trigger] vs[i]).stray_need is Some || vs[i].below_floor is Some
                || !(ks[i].pos.x < w.width && ks[i].pos.y < w.height));
        lemma_kitty_fault_is_found(ks, vs, w.width, w.height, 0, i);
    }
    if exists|a: int, b: int| 0 <= a < b < ks.len() && (#[trigger] ks[a]).pos == (#[trigger] ks[b]).pos {
        let (a, b) = choose|a: int, b: int| 0 <= a < b < ks.len() && (#[trigger] ks[a]).pos == (#[trigger] ks[b]).pos;
        let ps = ks.map_values(|k: Kitty| k.pos);
        assert(ps[a] == ps[b]);
        lemma_repeat_is_found(ps, 0, a, b);
    }
    let els = w.elements@;
    if exists|a: int, b: int| 0 <= a < b < els.len() && (#[trigger] els[a]).pos == (#[trigger] els[b]).pos {
        let (a, b) = choose|a: int, b: int| 0 <= a < b < els.len() && (#[trigger] els[a]).pos == (#[trigger] els[b]).pos;
        let ps = els.map_values(|e: crate::element::Element| e.pos);
        assert(ps[a] == ps[b]);
        lemma_repeat_is_found(ps, 0, a, b);
    }
}

/// The fault of one kitty, as a violation.
fn check_kitty(k: &Kitty, v: &Vitals, width: u32, height: u32) -> (r: Option<Violation>)
    ensures
        r is None <==> kitty_fault(*k, *v, width, height) is None,
        r matches Some(x) ==> kitty_fault(*k, *v, width, height) == Some((x.article@, x.detail@)),
{
    if let Some((need, value)) = &v.stray_need {
        let mut d = k.name.clone();
        d.append("'s ");
        d.append(need.as_str());
        d.append(" need is ");
        d.append(value.as_str());
        d.append(", outside [0, 100]");
        return Some(Violation { article: "Article I (kitties cannot suffer)", detail: d });
    }
    if let Some((happiness, floor)) = &v.below_floor {
        let mut d = k.name.clone();
        d.append("'s happiness is ");
        d.append(happiness.as_str());
        d.append(", below the floor of ");
        d.append(floor.as_str());
        return Some(Violation { article: "Article I (kitties cannot suffer)", detail: d });
    }
    if !k.pos.in_bounds(width, height) {
        let mut d = k.name.clone();
        d.append(" is at (");
        push_decimal(&mut d, k.pos.x as u64);
        d.append(", ");
        push_decimal(&mut d, k.pos.y as u64);
        d.append("), outside the ");
        push_decimal(&mut d, width as u64);
        d.append("x");
        push_decimal(&mut d, height as u64);
        d.append(" world");
        return Some(Violation { article: "World integrity", detail: d });
    }
    None
}

/// The first tile of `ps` that repeats an earlier one.
fn first_repeat(ps: &Vec<Position>) -> (r: Option<Position>)
    ensures
        r == repeated_from(ps@, 0),
{
    let mut j: usize = 0;
    while j < ps.len()
        invariant
            j <= ps@.len(),
            repeated_from(ps@, 0) == repeated_from(ps@, j as int),
        decreases ps@.len() - j,
    {
        let p = ps[j];
        let mut i: usize = 0;
        while i < j
            invariant
                i <= j,
                j < ps@.len(),
                repeated_from(ps@, 0) == repeated_from(ps@, j as int),
                p == ps@[j as int],
                forall|k: int| 0 <= k < i ==> ps@[k] != p,
            decreases j - i,
        {
            if ps[i] == p {
                assert(ps@[i as int] == ps@[j as int]);
                return Some(p);
            }
            i = i + 1;
        }
        assert(!exists|k: int| 0 <= k < j && ps@[k] == ps@[j as int]);
        j = j + 1;
    }
    None
}

/// The text reporting a shared tile.
fn shared_detail(what: &str, p: Position) -> (d: String)
    ensures
        d@ == shared_fault(what@, p).1,
{
    let mut d = String::from_str("two ");
    d.append(what);
    d.append(" share tile (");
    push_decimal(&mut d, p.x as u64);
    d.append(", ");
    push_decimal(&mut d, p.y as u64);
    d.append(")");
    d
}

/// The first kitty in want of `need`'s relief.
fn find_in_want(vitals: &[Vitals], need: NeedKind) -> (r: Option<usize>)
    requires
        need == NeedKind::Eat || need == NeedKind::Drink,
    ensures
        r matches Some(i) ==> first_in_want(vitals@, need, 0) == Some(i as int) && i < vitals@.len()
            && (need == NeedKind::Eat ==> vitals@[i as int].eat_past_safeguard is Some) && (need
            == NeedKind::Drink ==> vitals@[i as int].drink_past_safeguard is Some),
        r is None ==> first_in_want(vitals@, need, 0) is None,
{
    let mut i: usize = 0;
    while i < vitals.len()
        invariant
            i <= vitals@.len(),
            first_in_want(vitals@, need, 0) == first_in_want(vitals@, need, i as int),
        decreases vitals@.len() - i,
    {
        let wants = if need == NeedKind::Eat {
            vitals[i].eat_past_safeguard.is_some()
        } else {
            vitals[i].drink_past_safeguard.is_some()
        };
        if wants {
            return Some(i);
        }
        i = i + 1;
    }
    None
}

/// The relief guarantee for one need.
fn check_relief(world: &World, vitals: &[Vitals], need: NeedKind, kind: ElementType, threshold: &str) -> (r:
    Option<Violation>)
    requires
        vitals@.len() == world.kitties@.len(),
        (need == NeedKind::Eat && kind == ElementType::Chow) || (need == NeedKind::Drink && kind
            == ElementType::Water),
    ensures
        r is None <==> relief_fault(world.kitties@, vitals@, world.elements@, need, kind, threshold@) is None,
        r matches Some(x) ==> relief_fault(world.kitties@, vitals@, world.elements@, need, kind, threshold@)
            == Some((x.article@, x.detail@)),
{
    match find_in_want(vitals, need) {
        None => None,
        Some(i) => {
            if world.count_of(kind) == 0 {
                let value = if need == NeedKind::Eat {
                    match &vitals[i].eat_past_safeguard {
                        Some(v) => v.as_str(),
                        None => "",
                    }
                } else {
                    match &vitals[i].drink_past_safeguard {
                        Some(v) => v.as_str(),
                        None => "",
                    }
                };
                let mut d = world.kitties[i].name.clone();
                d.append("'s ");
                d.append(need.as_str());
                d.append(" need is ");
                d.append(value);
                d.append(" (past the safeguard threshold of ");
                d.append(threshold);
                d.append(") but no ");
                d.append(kind.as_str());
                d.append(" exists");
                Some(Violation { article: "Article I (kitties cannot suffer)", detail: d })
            } else {
                None
            }
        },
    }
}

/// Checks every constitutional guarantee and reports the first violation:
/// fewer than two kitties; then, kitty by kitty, a need out of bounds,
/// happiness below the floor, or a kitty outside the world; two kitties on
/// one tile; two elements on one tile; and, unless the world is full of
/// elements, a kitty past the safeguard threshold for food or water with
/// none in the world. `threshold` is the safeguard threshold as printed.
pub fn check(world: &World, vitals: &[Vitals], threshold: &str) -> (r: Result<(), Violation>)
    requires
        vitals@.len() == world.kitties@.len(),
        world.width * world.height <= u32::MAX,
    ensures
        r is Ok <==> first_violation(*world, vitals@, threshold@) is None,
        r matches Err(x) ==> first_violation(*world, vitals@, threshold@) == Some((x.article@, x.detail@)),
{
    let n = world.kitties.len();
    if n < 2 {
        let mut d = String::from_str("world holds ");
        push_decimal(&mut d, n as u64);
        d.append(" kitties");
        return Err(Violation { article: "Article III (kitties cannot be alone)", detail: d });
    }
    let ghost ks = world.kitties@;
    let mut i: usize = 0;
    while i < n
        invariant
            n == ks.len(),
            n >= 2,
            ks == world.kitties@,
            vitals@.len() == n,
            i <= n,
            kitties_fault_from(ks, vitals@, world.width, world.height, 0) == kitties_fault_from(
                ks,
                vitals@,
                world.width,
                world.height,
                i as int,
            ),
        decreases n - i,
    {
        let found = check_kitty(&world.kitties[i], &vitals[i], world.width, world.height);
        if let Some(v) = found {
            proof {
                assert(kitties_fault_from(ks, vitals@, world.width, world.height, i as int) == kitty_fault(
                    ks[i as int],
                    vitals@[i as int],
                    world.width,
                    world.height,
                ));
            }
            return Err(v);
        }
        i = i + 1;
    }

    let mut kitty_tiles: Vec<Position> = Vec::new();
    let mut k: usize = 0;
    while k < n
        invariant
            n == world.kitties@.len(),
            k <= n,
            kitty_tiles@ == world.kitties@.map_values(|x: Kitty| x.pos).subrange(0, k as int),
        decreases n - k,
    {
        kitty_tiles.push(world.kitties[k].pos);
        k = k + 1;
        assert(kitty_tiles@ =~= world.kitties@.map_values(|x: Kitty| x.pos).subrange(0, k as int));
    }
    assert(kitty_tiles@ =~= world.kitties@.map_values(|x: Kitty| x.pos));
    if let Some(p) = first_repeat(&kitty_tiles) {
        return Err(Violation { article: "World integrity", detail: shared_detail("kitties", p) });
    }

    let m = world.elements.len();
    let mut element_tiles: Vec<Position> = Vec::new();
    let mut e: usize = 0;
    while e < m
        invariant
            m == world.elements@.len(),
            e <= m,
            element_tiles@ == world.elements@.map_values(|x: crate::element::Element| x.pos).subrange(
                0,
                e as int,
            ),
        decreases m - e,
    {
        element_tiles.push(world.elements[e].pos);
        e = e + 1;
        assert(element_tiles@ =~= world.elements@.map_values(|x: crate::element::Element| x.pos).subrange(
            0,
            e as int,
        ));
    }
    assert(element_tiles@ =~= world.elements@.map_values(|x: crate::element::Element| x.pos));
    if let Some(p) = first_repeat(&element_tiles) {
        return Err(Violation { article: "World integrity", detail: shared_detail("elements", p) });
    }

    let held = #[verifier::truncate] (m as u32);
    if held >= world.width * world.height {
        return Ok(());
    }
    if let Some(v) = check_relief(world, vitals, NeedKind::Eat, ElementType::Chow, threshold) {
        return Err(v);
    }
    if let Some(v) = check_relief(world, vitals, NeedKind::Drink, ElementType::Water, threshold) {
        return Err(v);
    }
    Ok(())
}

/// The spatial law of one kitty's scene, when broken: a drinking kitty
/// with no water on or beside its tile, or a kitty in social play whose
/// partner is not on or beside it.
pub open spec fn scene_breach(w: World, k: Kitty) -> Option<Seq<char>> {
    match k.activity {
        Activity::Drinking => if exists|j: int|
            0 <= j < w.elements@.len() && near(#[trigger] w.elements@[j], k.pos, ElementType::Water) {
            None
        } else {
            Some(k.name@ + " is drinking with no water in orthogonal range at tick "@ + decimal(w.tick as nat))
        },
        Activity::Playing { target: Some(TargetRef::Kitty { id }) } => if exists|j: int|
            0 <= j < w.kitties@.len() && (#[trigger] w.kitties@[j]).id == id && k.pos.manhattan(
                w.kitties@[j].pos,
            ) <= 1 {
            None
        } else {
            Some(k.name@ + "'s duet partner is out of orthogonal range at tick "@ + decimal(w.tick as nat))
        },
        _ => None,
    }
}

/// The first broken scene, in roster order from index `i`.
pub open spec fn scene_breach_from(w: World, i: int) -> Option<Seq<char>>
    decreases w.kitties@.len() - i,
{
    if i < 0 || i >= w.kitties@.len() {
        None
    } else {
        match scene_breach(w, w.kitties@[i]) {
            Some(m) => Some(m),
            None => scene_breach_from(w, i + 1),
        }
    }
}

/// Interactions happen only in orthogonal range, the own tile or one of
/// the four compass neighbours. Checked on the scenes whose counterparts
/// cannot move mid-scene: a drinking kitty's water and a social player's
/// partner. Returns the first breach in roster order.
pub fn assert_orthogonal_scenes(world: &World) -> (r: Result<(), String>)
    ensures
        r is Ok <==> scene_breach_from(*world, 0) is None,
        r matches Err(m) ==> m@ == scene_breach_from(*world, 0).unwrap(),
{
    let n = world.kitties.len();
    let mut i: usize = 0;
    while i < n
        invariant
            n == world.kitties@.len(),
            i <= n,
            scene_breach_from(*world, 0) == scene_breach_from(*world, i as int),
        decreases n - i,
    {
        let kitty = &world.kitties[i];
        match kitty.activity {
            Activity::Drinking => {
                if world.adjacent_element(kitty.pos, ElementType::Water).is_none() {
                    let mut m = kitty.name.clone();
                    m.append(" is drinking with no water in orthogonal range at tick ");
                    push_decimal(&mut m, world.tick);
                    return Err(m);
                }
            },
            Activity::Playing { target: Some(TargetRef::Kitty { id }) } => {
                let mut found = false;
                let mut j: usize = 0;
                while j < n
                    invariant
                        n == world.kitties@.len(),
                        j <= n,
                        i < n,
                        kitty == &world.kitties@[i as int],
                        found == exists|m: int|
                            0 <= m < j && (#[trigger] world.kitties@[m]).id == id && kitty.pos.manhattan(
                                world.kitties@[m].pos,
                            ) <= 1,
                    decreases n - j,
                {
                    if world.kitties[j].id == id && kitty.pos.is_adjacent(&world.kitties[j].pos) {
                        found = true;
                    }
                    j = j + 1;
                }
                if !found {
                    let mut m = kitty.name.clone();
                    m.append("'s duet partner is out of orthogonal range at tick ");
                    push_decimal(&mut m, world.tick);
                    return Err(m);
                }
            },
            _ => {},
        }
        i = i + 1;
    }
    Ok(())
}

} // verus!
