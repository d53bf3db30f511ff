//! The world: its size and clock, its kitties (ordered by id, never
//! removed) and elements, the engine's logs and master generator, and the
//! rules over them that the engine and the word law share: which element a
//! kitty at a tile would use, the chase books, scene durations and their
//! ends, distress and announce arming, snapshots, and how one tick's
//! applied actions are reported.

use vstd::prelude::*;

use crate::action::{Action, TargetRef};
use crate::config::{ChaseRules, ContagionMembership, DurationsConfig};
use crate::spawn::{contains_pos, water_at, water_tiles};
use crate::needs::{need_index, need_slot, ArmingBand, NeedKind};
use crate::kitty::{AbandonedChase, Activity, Pursuit};
use crate::element::{Element, ElementId, ElementKind, ElementType, RESERVED_ELEMENT_ID};
use crate::config::EventsConfig;
use crate::events::{
    bound, keep_last, ActivityEnd, ActivityLog, DistressEvent, DistressLog, EventLog, RefusalEvent,
    RefusalLog,
};
use crate::grid::{Direction, Position};
use crate::kitty::{Kitty, KittyId};
use crate::rng::{after, after_all, chacha_in_range, chacha_word, fresh, words, Draw, SimRng, StreamState};
use crate::meow::{HeardMeow, Meow, MessageKind};
use crate::seam::{DealtSeeds, Decision, KittyTickRecord, Provenance};

verus! {

/// `e` is an element of type `kind` on or beside `pos`.
pub open spec fn near(e: Element, pos: Position, kind: ElementType) -> bool {
    e.kind_type() == kind && pos.manhattan(e.pos) <= 1
}

/// `a` sorts no later than `b` by (distance from `pos`, id).
pub open spec fn closer_or_tied(a: Element, b: Element, pos: Position) -> bool {
    pos.manhattan(a.pos) < pos.manhattan(b.pos) || (pos.manhattan(a.pos) == pos.manhattan(b.pos)
        && a.id <= b.id)
}

/// `i` is the first index of the nearest element of `kind` on or beside
/// `pos`, distance ties broken by the lower id.
pub open spec fn nearest_at(elements: Seq<Element>, pos: Position, kind: ElementType, i: int) -> bool {
    &&& 0 <= i < elements.len()
    &&& near(elements[i], pos, kind)
    &&& forall|j: int|
        0 <= j < elements.len() && near(#[trigger] elements[j], pos, kind) ==> closer_or_tied(
            elements[i],
            elements[j],
            pos,
        )
    &&& forall|j: int|
        0 <= j < i && near(#[trigger] elements[j], pos, kind) ==> !closer_or_tied(
            elements[j],
            elements[i],
            pos,
        )
}

/// The nearest element of `kind` on or beside `pos` (ties broken by id,
/// then by order).
pub fn adjacent_element_in(elements: &[Element], pos: Position, kind: ElementType) -> (r: Option<
    &Element,
>)
    ensures
        r is None <==> forall|j: int| 0 <= j < elements@.len() ==> !near(#[trigger] elements@[j], pos, kind),
        r matches Some(e) ==> exists|i: int| nearest_at(elements@, pos, kind, i) && elements@[i] == *e,
{
    let mut best: Option<usize> = None;
    let mut i: usize = 0;
    while i < elements.len()
        invariant
            i <= elements@.len(),
            best is None <==> forall|j: int| 0 <= j < i ==> !near(#[trigger] elements@[j], pos, kind),
            best matches Some(b) ==> {
                &&& b < i
                &&& near(elements@[b as int], pos, kind)
                &&& forall|j: int|
                    0 <= j < i && near(#[trigger] elements@[j], pos, kind) ==> closer_or_tied(
                        elements@[b as int],
                        elements@[j],
                        pos,
                    )
                &&& forall|j: int|
                    0 <= j < b && near(#[trigger] elements@[j], pos, kind) ==> !closer_or_tied(
                        elements@[j],
                        elements@[b as int],
                        pos,
                    )
            },
        decreases elements@.len() - i,
    {
        let e = &elements[i];
        if e.element_type() == kind && pos.is_adjacent(&e.pos) {
            match best {
                None => {
                    best = Some(i);
                },
                Some(b) => {
                    let cur = &elements[b];
                    // Both candidates are adjacent, so both distances are 0 or 1.
                    let de: u32 = if pos.x == e.pos.x && pos.y == e.pos.y {
                        0
                    } else {
                        1
                    };
                    let dc: u32 = if pos.x == cur.pos.x && pos.y == cur.pos.y {
                        0
                    } else {
                        1
                    };
                    if de < dc || (de == dc && e.id < cur.id) {
                        best = Some(i);
                    }
                },
            }
        }
        i = i + 1;
    }
    match best {
        None => None,
        Some(b) => Some(&elements[b]),
    }
}

/// The bowl a kitty at `pos` would eat from: the nearest adjacent bowl, if
/// it still holds a serving. Deliberately not the nearest stocked bowl: a
/// cat beside an empty bowl pauses rather than stretching across.
pub fn adjacent_stocked_chow_in(elements: &[Element], pos: Position) -> (r: Option<&Element>)
    ensures
        r is Some <==> exists|i: int|
            nearest_at(elements@, pos, ElementType::Chow, i) && elements@[i].kind.stocked(),
        r matches Some(e) ==> exists|i: int|
            nearest_at(elements@, pos, ElementType::Chow, i) && elements@[i] == *e,
{
    match adjacent_element_in(elements, pos, ElementType::Chow) {
        None => None,
        Some(e) => {
            proof {
                let i = choose|i: int|
                    nearest_at(elements@, pos, ElementType::Chow, i) && elements@[i] == *e;
                lemma_nearest_unique(elements@, pos, ElementType::Chow, i);
            }
            match e.kind {
                ElementKind::Chow { servings } => {
                    if servings > 0 {
                        Some(e)
                    } else {
                        None
                    }
                },
                _ => None,
            }
        },
    }
}

/// The nearest element is a single element: any two indices that both
/// qualify hold the same element.
pub proof fn lemma_nearest_unique(elements: Seq<Element>, pos: Position, kind: ElementType, i: int)
    requires
        nearest_at(elements, pos, kind, i),
    ensures
        forall|k: int| #[trigger] nearest_at(elements, pos, kind, k) ==> k == i,
{
    assert forall|k: int| #[trigger] nearest_at(elements, pos, kind, k) implies k == i by {
        if k < i {
            assert(near(elements[k], pos, kind));
        } else if i < k {
            assert(near(elements[i], pos, kind));
        }
    }
}

/// Whether any live critter stands on or beside `pos`.
pub fn adjacent_critter_in(elements: &[Element], pos: Position) -> (b: bool)
    ensures
        b == exists|i: int|
            0 <= i < elements@.len() && (#[trigger] elements@[i]).kind_type().critter()
                && pos.manhattan(elements@[i].pos) <= 1,
{
    let mut i: usize = 0;
    while i < elements.len()
        invariant
            i <= elements@.len(),
            forall|j: int|
                0 <= j < i ==> !((#[trigger] elements@[j]).kind_type().critter() && pos.manhattan(
                    elements@[j].pos,
                ) <= 1),
        decreases elements@.len() - i,
    {
        let e = &elements[i];
        if e.element_type().is_critter() && pos.is_adjacent(&e.pos) {
            return true;
        }
        i = i + 1;
    }
    false
}

/// One kitty's applied row of a tick: id, the validated action, the applied
/// action, and the message that actually emitted.
pub type AppliedRow = (KittyId, Action, Action, Option<MessageKind>);

/// What the phase pipeline hands back to the tick that drove it: the
/// per-kitty (validated, applied) pairs in turn order, and the events the
/// tick produced.
pub struct PhaseOutcome {
    pub per_kitty: Vec<AppliedRow>,
    pub distress_events: Vec<DistressEvent>,
    pub activity_endings: Vec<ActivityEnd>,
}

/// The applied row for `id`: the last one in turn order naming it.
pub open spec fn applied_row(rows: Seq<AppliedRow>, id: KittyId) -> Option<AppliedRow>
    decreases rows.len(),
{
    if rows.len() == 0 {
        None
    } else if rows.last().0 == id {
        Some(rows.last())
    } else {
        applied_row(rows.drop_last(), id)
    }
}

/// One decision as dispatched: id, decision, provenance and decision seed.
pub type DispatchedDecision = (KittyId, Decision, Provenance, u64);

/// The tick record of a dispatched decision, given its applied row.
pub open spec fn record_of(d: DispatchedDecision, row: AppliedRow) -> KittyTickRecord {
    KittyTickRecord {
        kitty_id: d.0,
        proposed: d.1.activity,
        validated: row.1,
        applied: row.2,
        proposed_message: d.1.message,
        applied_message: row.3,
        provenance: d.2,
        decision_seed: d.3,
    }
}

impl PhaseOutcome {
    /// The (validated, applied, applied_message) triple recorded for `id`.
    pub fn applied_by_id(&self, id: KittyId) -> (r: Option<(Action, Action, Option<MessageKind>)>)
        ensures
            r == (match applied_row(self.per_kitty@, id) {
                Some(row) => Some((row.1, row.2, row.3)),
                None => None,
            }),
    {
        let mut i = self.per_kitty.len();
        assert(self.per_kitty@.subrange(0, i as int) == self.per_kitty@);
        while i > 0
            invariant
                i <= self.per_kitty@.len(),
                applied_row(self.per_kitty@, id) == applied_row(
                    self.per_kitty@.subrange(0, i as int),
                    id,
                ),
            decreases i,
        {
            let row = self.per_kitty[i - 1];
            let ghost pre = self.per_kitty@.subrange(0, i as int);
            assert(pre.drop_last() == self.per_kitty@.subrange(0, i - 1));
            if row.0 == id {
                return Some((row.1, row.2, row.3));
            }
            i = i - 1;
        }
        None
    }

    /// The per-kitty tick records for `decisions`, in their order: each
    /// decision joined with the row this outcome applied for its kitty.
    pub fn records(&self, decisions: Vec<DispatchedDecision>) -> (v: Vec<KittyTickRecord>)
        requires
            forall|i: int|
                0 <= i < decisions@.len() ==> applied_row(self.per_kitty@, (#[trigger] decisions@[i]).0)
                    is Some,
        ensures
            v@.len() == decisions@.len(),
            forall|i: int|
                0 <= i < decisions@.len() ==> #[trigger] v@[i] == record_of(
                    decisions@[i],
                    applied_row(self.per_kitty@, decisions@[i].0).unwrap(),
                ),
    {
        let mut v: Vec<KittyTickRecord> = Vec::new();
        let mut i: usize = 0;
        while i < decisions.len()
            invariant
                i <= decisions@.len(),
                v@.len() == i,
                forall|j: int|
                    0 <= j < decisions@.len() ==> applied_row(self.per_kitty@, (#[trigger] decisions@[j]).0)
                        is Some,
                forall|j: int|
                    0 <= j < i ==> #[trigger] v@[j] == record_of(
                        decisions@[j],
                        applied_row(self.per_kitty@, decisions@[j].0).unwrap(),
                    ),
            decreases decisions@.len() - i,
        {
            let (kitty_id, decision, provenance, decision_seed) = decisions[i];
            let applied = self.applied_by_id(kitty_id);
            assert(applied_row(self.per_kitty@, decisions@[i as int].0) is Some);
            let (validated, applied_action, applied_message) = applied.unwrap();
            v.push(
                KittyTickRecord {
                    kitty_id,
                    proposed: decision.activity,
                    validated,
                    applied: applied_action,
                    proposed_message: decision.message,
                    applied_message,
                    provenance,
                    decision_seed,
                },
            );
            i = i + 1;
        }
        v
    }
}

/// What one kitty perceives at the start of a tick: the elements inside its
/// vision disc, the meows audible to it, and whether an idle friend is in
/// view.
#[derive(Debug, Clone)]
pub struct FogView {
    /// The kitty whose view this is.
    pub observer: KittyId,
    /// The elements the observer can see.
    pub elements: Vec<Element>,
    /// The meows audible to the observer in its start-of-tick buffer.
    pub heard: Vec<HeardMeow>,
    /// Whether a friend doing nothing stands in view.
    pub idle_friend_in_view: bool,
}

/// Some element of `kind` is in view.
pub open spec fn kind_in_view(v: FogView, kind: ElementType) -> bool {
    exists|i: int| 0 <= i < v.elements@.len() && (#[trigger] v.elements@[i]).kind_type() == kind
}

/// Some bowl with a serving left is in view.
pub open spec fn stocked_in_view(v: FogView) -> bool {
    exists|i: int| 0 <= i < v.elements@.len() && (#[trigger] v.elements@[i]).kind.stocked()
}

/// Some critter is in view.
pub open spec fn critter_in_view(v: FogView) -> bool {
    exists|i: int| 0 <= i < v.elements@.len() && (#[trigger] v.elements@[i]).kind_type().critter()
}

impl FogView {
    /// Whether an element of `kind` is in view.
    pub fn sees(&self, kind: ElementType) -> (b: bool)
        ensures
            b == kind_in_view(*self, kind),
    {
        let mut i: usize = 0;
        while i < self.elements.len()
            invariant
                i <= self.elements@.len(),
                forall|j: int| 0 <= j < i ==> (#[trigger] self.elements@[j]).kind_type() != kind,
            decreases self.elements@.len() - i,
        {
            if self.elements[i].element_type() == kind {
                return true;
            }
            i = i + 1;
        }
        false
    }

    /// Whether a bowl with a serving left is in view.
    pub fn sees_stocked_chow(&self) -> (b: bool)
        ensures
            b == stocked_in_view(*self),
    {
        let mut i: usize = 0;
        while i < self.elements.len()
            invariant
                i <= self.elements@.len(),
                forall|j: int| 0 <= j < i ==> !(#[trigger] self.elements@[j]).kind.stocked(),
            decreases self.elements@.len() - i,
        {
            if let ElementKind::Chow { servings } = self.elements[i].kind {
                if servings > 0 {
                    return true;
                }
            }
            i = i + 1;
        }
        false
    }

    /// Whether a critter is in view.
    pub fn sees_critter(&self) -> (b: bool)
        ensures
            b == critter_in_view(*self),
    {
        let mut i: usize = 0;
        while i < self.elements.len()
            invariant
                i <= self.elements@.len(),
                forall|j: int| 0 <= j < i ==> !(#[trigger] self.elements@[j]).kind_type().critter(),
            decreases self.elements@.len() - i,
        {
            if self.elements[i].element_type().is_critter() {
                return true;
            }
            i = i + 1;
        }
        false
    }
}

/// Whether a friend doing nothing stands in the view.
pub fn idle_friend_in_view(view: &FogView) -> (b: bool)
    ensures
        b == view.idle_friend_in_view,
{
    view.idle_friend_in_view
}


/// `i` is the first kitty of `kitties` carrying `id`.
pub open spec fn first_with_id(kitties: Seq<Kitty>, id: KittyId, i: int) -> bool {
    &&& 0 <= i < kitties.len()
    &&& kitties[i].id == id
    &&& forall|j: int| 0 <= j < i ==> (#[trigger] kitties[j]).id != id
}

/// `i` is the first kitty of `kitties` standing on `pos`.
pub open spec fn first_on(kitties: Seq<Kitty>, pos: Position, i: int) -> bool {
    &&& 0 <= i < kitties.len()
    &&& kitties[i].pos == pos
    &&& forall|j: int| 0 <= j < i ==> (#[trigger] kitties[j]).pos != pos
}

/// `i` is the first element of `elements` carrying `id`.
pub open spec fn first_element(elements: Seq<Element>, id: ElementId, i: int) -> bool {
    &&& 0 <= i < elements.len()
    &&& elements[i].id == id
    &&& forall|j: int| 0 <= j < i ==> (#[trigger] elements[j]).id != id
}

/// `i` is the first element of `elements` lying on `pos`.
pub open spec fn first_element_on(elements: Seq<Element>, pos: Position, i: int) -> bool {
    &&& 0 <= i < elements.len()
    &&& elements[i].pos == pos
    &&& forall|j: int| 0 <= j < i ==> (#[trigger] elements[j]).pos != pos
}

/// The first kitty carrying `id`, if any.
pub open spec fn found_kitty(kitties: Seq<Kitty>, id: KittyId) -> Option<Kitty> {
    if exists|i: int| first_with_id(kitties, id, i) {
        Some(kitties[choose|i: int| first_with_id(kitties, id, i)])
    } else {
        None
    }
}

/// The first element carrying `id`, if any.
pub open spec fn found_element(elements: Seq<Element>, id: ElementId) -> Option<Element> {
    if exists|i: int| first_element(elements, id, i) {
        Some(elements[choose|i: int| first_element(elements, id, i)])
    } else {
        None
    }
}

/// Only one index is the first kitty carrying an id.
pub proof fn lemma_first_with_id_unique(kitties: Seq<Kitty>, id: KittyId, i: int)
    requires
        first_with_id(kitties, id, i),
    ensures
        forall|k: int| #[trigger] first_with_id(kitties, id, k) ==> k == i,
        found_kitty(kitties, id) == Some(kitties[i]),
{
    assert forall|k: int| #[trigger] first_with_id(kitties, id, k) implies k == i by {
        if k < i {
            assert(kitties[k].id != id);
        } else if i < k {
            assert(kitties[i].id != id);
        }
    }
}

/// Only one index is the first element carrying an id.
pub proof fn lemma_first_element_unique(elements: Seq<Element>, id: ElementId, i: int)
    requires
        first_element(elements, id, i),
    ensures
        forall|k: int| #[trigger] first_element(elements, id, k) ==> k == i,
        found_element(elements, id) == Some(elements[i]),
{
    assert forall|k: int| #[trigger] first_element(elements, id, k) implies k == i by {
        if k < i {
            assert(elements[k].id != id);
        } else if i < k {
            assert(elements[i].id != id);
        }
    }
}

/// Where `target` stands, if it still exists.
pub open spec fn target_position(kitties: Seq<Kitty>, elements: Seq<Element>, target: TargetRef) -> Option<
    Position,
> {
    match target {
        TargetRef::Element { id } => match found_element(elements, id) {
            Some(e) => Some(e.pos),
            None => None,
        },
        TargetRef::Kitty { id } => match found_kitty(kitties, id) {
            Some(k) => Some(k.pos),
            None => None,
        },
    }
}

/// `a - b`, floored at zero.
pub open spec fn saturating_gap(a: u64, b: u64) -> int {
    if a >= b {
        a - b
    } else {
        0
    }
}

/// The chase books of `k` after `applied`, at `tick`: the pursuit and the
/// exclusion list. Expired exclusions leave first, and a pursuit whose
/// target is gone is over. A chase records its target, start, best
/// distance and when that best last improved; switching away from a stale
/// chase excludes its target. Catching the pursued target ends the pursuit
/// without exclusion. Any other action leaves a pursuit alone unless it
/// has gone stale, which writes it off and excludes its target.
pub open spec fn chase_books(
    k: Kitty,
    kitties: Seq<Kitty>,
    elements: Seq<Element>,
    tick: u64,
    applied: Action,
    rules: ChaseRules,
) -> (Option<Pursuit>, Seq<AbandonedChase>) {
    let kept = k.abandoned_chases@.filter(|a: AbandonedChase| a.until > tick);
    let pursuit = match k.pursuit {
        Some(p) => if target_position(kitties, elements, p.target) is None {
            None
        } else {
            Some(p)
        },
        None => None,
    };
    let stale = match pursuit {
        Some(p) => saturating_gap(tick, p.last_gain()) >= rules.chase_patience_ticks,
        None => false,
    };
    match applied {
        Action::Chase(target) => {
            let books = match pursuit {
                Some(p) => if p.target != target && stale {
                    kept.push(
                        AbandonedChase {
                            target: p.target,
                            until: (tick + rules.chase_exclusion_ticks) as u64,
                        },
                    )
                } else {
                    kept
                },
                None => kept,
            };
            match target_position(kitties, elements, target) {
                None => (None, books),
                Some(tp) => {
                    let d = k.pos.manhattan(tp);
                    let next = match pursuit {
                        Some(p) => if p.target == target {
                            Pursuit {
                                target,
                                started: p.started,
                                closest: if d < p.closest {
                                    d as u32
                                } else {
                                    p.closest
                                },
                                improved_at: if d < p.closest {
                                    tick
                                } else {
                                    p.improved_at
                                },
                            }
                        } else {
                            Pursuit { target, started: tick, closest: d as u32, improved_at: tick }
                        },
                        None => Pursuit { target, started: tick, closest: d as u32, improved_at: tick },
                    };
                    (Some(next), books)
                },
            }
        },
        _ => {
            let caught = match (applied, pursuit) {
                (Action::Play { target: Some(t) }, Some(p)) => p.target == t,
                _ => false,
            };
            if caught {
                (None, kept)
            } else {
                match pursuit {
                    Some(p) => if stale {
                        (
                            None,
                            kept.push(
                                AbandonedChase {
                                    target: p.target,
                                    until: (tick + rules.chase_exclusion_ticks) as u64,
                                },
                            ),
                        )
                    } else {
                        (pursuit, kept)
                    },
                    None => (None, kept),
                }
            }
        },
    }
}

/// The chase books' promises. With a nonzero exclusion window every
/// exclusion left on the books is live. Catching the pursued target ends
/// the pursuit and excludes nothing; so does the pursued target vanishing
/// under any action but a chase. A chase that gains ground on its target
/// keeps its start and stamps the gain now, so it is never hopeless at that
/// moment. A mere detour leaves a pursuit that is still within its patience
/// untouched.
pub proof fn lemma_chase_books_laws(
    k: Kitty,
    kitties: Seq<Kitty>,
    elements: Seq<Element>,
    tick: u64,
    applied: Action,
    rules: ChaseRules,
)
    requires
        rules.chase_exclusion_ticks > 0,
        tick + rules.chase_exclusion_ticks <= u64::MAX,
    ensures
        ({
            let books = chase_books(k, kitties, elements, tick, applied, rules);
            forall|i: int| 0 <= i < books.1.len() ==> (#[trigger] books.1[i]).until > tick
        }),
        ({
            let kept = k.abandoned_chases@.filter(|a: AbandonedChase| a.until > tick);
            &&& (k.pursuit matches Some(p) && applied == (Action::Play { target: Some(p.target) })
                && target_position(kitties, elements, p.target) is Some) ==> chase_books(
                k,
                kitties,
                elements,
                tick,
                applied,
                rules,
            ) == (None::<Pursuit>, kept)
            &&& (k.pursuit matches Some(p) && !(applied is Chase) && target_position(
                kitties,
                elements,
                p.target,
            ) is None) ==> chase_books(k, kitties, elements, tick, applied, rules) == (
                None::<Pursuit>,
                kept,
            )
        }),
        k.pursuit matches Some(p) ==> (applied == Action::Chase(p.target) ==> (target_position(
            kitties,
            elements,
            p.target,
        ) matches Some(tp) ==> (k.pos.manhattan(tp) < p.closest ==> chase_books(
            k,
            kitties,
            elements,
            tick,
            applied,
            rules,
        ).0 == Some(
            Pursuit {
                target: p.target,
                started: p.started,
                closest: k.pos.manhattan(tp) as u32,
                improved_at: tick,
            },
        )))),
        k.pursuit matches Some(p) ==> ((!(applied is Chase) && !(applied == (Action::Play {
            target: Some(p.target),
        })) && target_position(kitties, elements, p.target) is Some && saturating_gap(
            tick,
            p.last_gain(),
        ) < rules.chase_patience_ticks) ==> chase_books(k, kitties, elements, tick, applied, rules).0
            == k.pursuit),
{
    let pred = |a: AbandonedChase| a.until > tick;
    let kept = k.abandoned_chases@.filter(pred);
    assert forall|i: int| 0 <= i < kept.len() implies (#[trigger] kept[i]).until > tick by {
        k.abandoned_chases@.lemma_filter_pred(pred, i);
    }
    let books = chase_books(k, kitties, elements, tick, applied, rules);
    assert forall|i: int| 0 <= i < books.1.len() implies (#[trigger] books.1[i]).until > tick by {
        if i < kept.len() {
            assert(books.1[i] == kept[i]);
        }
    }
}

/// A chase pursues what it chases: chasing a target that is still there
/// leaves a pursuit of exactly that target, no farther than the kitty now
/// stands from it, and started now unless it continues a pursuit of the
/// same target; chasing a target that is gone leaves no pursuit. Old
/// exclusions survive only while live, and a chase adds at most the one
/// exclusion of the target it turned away from.
pub proof fn lemma_chasing_pursues_its_target(
    k: Kitty,
    kitties: Seq<Kitty>,
    elements: Seq<Element>,
    tick: u64,
    t: TargetRef,
    rules: ChaseRules,
)
    ensures
        ({
            let books = chase_books(k, kitties, elements, tick, Action::Chase(t), rules);
            &&& target_position(kitties, elements, t) is None ==> books.0 is None
            &&& target_position(kitties, elements, t) matches Some(tp) ==> (books.0 matches Some(p) && p.target == t
                && p.closest <= k.pos.manhattan(tp) && (p.started == tick || (k.pursuit matches Some(q)
                && q.target == t && p.started == q.started)))
            &&& forall|i: int|
                0 <= i < books.1.len() ==> (k.abandoned_chases@.contains(#[trigger] books.1[i]) && books.1[i].until
                    > tick) || (k.pursuit matches Some(q) && q.target != t && books.1[i] == (AbandonedChase {
                    target: q.target,
                    until: (tick + rules.chase_exclusion_ticks) as u64,
                }))
        }),
{
    let pred = |a: AbandonedChase| a.until > tick;
    let kept = k.abandoned_chases@.filter(pred);
    assert forall|i: int| 0 <= i < kept.len() implies k.abandoned_chases@.contains(#[trigger] kept[i])
        && kept[i].until > tick by {
        k.abandoned_chases@.lemma_filter_pred(pred, i);
        assert(kept.contains(kept[i]));
        k.abandoned_chases@.lemma_filter_contains_rev(pred, kept[i]);
    }
    let books = chase_books(k, kitties, elements, tick, Action::Chase(t), rules);
    assert forall|i: int| 0 <= i < books.1.len() implies (k.abandoned_chases@.contains(#[trigger] books.1[i])
        && books.1[i].until > tick) || (k.pursuit matches Some(q) && q.target != t && books.1[i] == (
    AbandonedChase { target: q.target, until: (tick + rules.chase_exclusion_ticks) as u64 })) by {
        if i < kept.len() {
            assert(books.1[i] == kept[i]);
        }
    }
}

/// `friend` is available to `me`: another kitty, present, on or beside
/// `me`'s tile.
pub open spec fn friend_available(kitties: Seq<Kitty>, me: Kitty, friend: KittyId) -> bool {
    friend != me.id && match found_kitty(kitties, friend) {
        Some(k) => me.pos.manhattan(k.pos) <= 1,
        None => false,
    }
}

/// The dead-scene rule: `kitty`'s ongoing activity names a counterpart
/// the world no longer supplies. Drinking needs water at hand; play with an
/// element needs that element at hand; a duet needs the partner bound back;
/// grooming a friend needs the friend available. Every other scene, and a
/// kitty with no clock, has nothing to lose.
pub open spec fn scene_gone(kitty: Kitty, kitties: Seq<Kitty>, elements: Seq<Element>) -> bool {
    kitty.activity_clock is Some && match kitty.activity {
        Activity::Drinking => forall|j: int|
            0 <= j < elements.len() ==> !near(#[trigger] elements[j], kitty.pos, ElementType::Water),
        Activity::Playing { target: Some(TargetRef::Element { id }) } => match found_element(
            elements,
            id,
        ) {
            Some(e) => kitty.pos.manhattan(e.pos) > 1,
            None => true,
        },
        Activity::Playing { target: Some(TargetRef::Kitty { id }) } => match found_kitty(kitties, id) {
            Some(other) => other.activity.duet_of() != Some(kitty.id),
            None => true,
        },
        Activity::Grooming { target: Some(id) } => !friend_available(kitties, kitty, id),
        _ => false,
    }
}

/// The dead-scene rule. A scene without a running clock, and a scene that
/// names no counterpart (idle, eating, sleeping, resting, solo play,
/// grooming oneself), is never dead. Drinking dies when no water is on or
/// beside the kitty. Grooming a friend dies when the friend is the kitty
/// itself or no kitty carrying the friend's id is on or beside it, and
/// lives while the one kitty carrying that id is. Play with an element
/// dies when no element carries its id on or beside the kitty, and lives
/// while the one element carrying it is. A duet dies when no kitty
/// carries the partner's id, and lives while the one partner plays back.
pub proof fn lemma_dead_scene_rule(kitty: Kitty, kitties: Seq<Kitty>, elements: Seq<Element>)
    ensures
        kitty.activity_clock is None ==> !scene_gone(kitty, kitties, elements),
        (kitty.activity is Idle || kitty.activity is Eating || kitty.activity is Sleeping
            || kitty.activity is Resting || kitty.activity == (Activity::Playing { target: None })
            || kitty.activity == (Activity::Grooming { target: None })) ==> !scene_gone(
            kitty,
            kitties,
            elements,
        ),
        kitty.activity_clock is Some && kitty.activity is Drinking ==> (scene_gone(kitty, kitties, elements)
            <==> forall|j: int|
            0 <= j < elements.len() ==> !((#[trigger] elements[j]).kind_type() == ElementType::Water
                && kitty.pos.manhattan(elements[j].pos) <= 1)),
        kitty.activity_clock is Some ==> (kitty.activity matches Activity::Grooming { target: Some(f) } ==> {
            &&& (f == kitty.id || forall|j: int|
                0 <= j < kitties.len() && (#[trigger] kitties[j]).id == f ==> kitty.pos.manhattan(kitties[j].pos)
                    > 1) ==> scene_gone(kitty, kitties, elements)
            &&& (f != kitty.id && exists|j: int|
                0 <= j < kitties.len() && (#[trigger] kitties[j]).id == f && kitty.pos.manhattan(kitties[j].pos)
                    <= 1 && forall|k: int| 0 <= k < kitties.len() && (#[trigger] kitties[k]).id == f ==> k == j)
                ==> !scene_gone(kitty, kitties, elements)
        }),
        kitty.activity_clock is Some ==> (kitty.activity matches Activity::Playing {
            target: Some(TargetRef::Element { id }),
        } ==> {
            &&& (forall|j: int|
                0 <= j < elements.len() && (#[trigger] elements[j]).id == id ==> kitty.pos.manhattan(
                    elements[j].pos,
                ) > 1) ==> scene_gone(kitty, kitties, elements)
            &&& (exists|j: int|
                0 <= j < elements.len() && (#[trigger] elements[j]).id == id && kitty.pos.manhattan(
                    elements[j].pos,
                ) <= 1 && forall|k: int| 0 <= k < elements.len() && (#[trigger] elements[k]).id == id ==> k == j)
                ==> !scene_gone(kitty, kitties, elements)
        }),
        kitty.activity_clock is Some ==> (kitty.activity matches Activity::Playing {
            target: Some(TargetRef::Kitty { id }),
        } ==> {
            &&& (forall|j: int| 0 <= j < kitties.len() ==> (#[trigger] kitties[j]).id != id) ==> scene_gone(
                kitty,
                kitties,
                elements,
            )
            &&& (exists|j: int|
                0 <= j < kitties.len() && (#[trigger] kitties[j]).id == id && kitties[j].activity == (Activity::Playing {
                    target: Some(TargetRef::Kitty { id: kitty.id }),
                }) && forall|k: int| 0 <= k < kitties.len() && (#[trigger] kitties[k]).id == id ==> k == j)
                ==> !scene_gone(kitty, kitties, elements)
        }),
{
    if kitty.activity_clock is Some {
        match kitty.activity {
            Activity::Grooming { target: Some(f) } => {
                if found_kitty(kitties, f) is Some {
                    let i = choose|i: int| first_with_id(kitties, f, i);
                    assert(found_kitty(kitties, f) == Some(kitties[i]));
                    if exists|j: int|
                        0 <= j < kitties.len() && (#[trigger] kitties[j]).id == f && kitty.pos.manhattan(kitties[j].pos)
                            <= 1 && forall|k: int| 0 <= k < kitties.len() && (#[trigger] kitties[k]).id == f ==> k == j {
                        let j = choose|j: int|
                            0 <= j < kitties.len() && (#[trigger] kitties[j]).id == f && kitty.pos.manhattan(
                                kitties[j].pos,
                            ) <= 1 && forall|k: int| 0 <= k < kitties.len() && (#[trigger] kitties[k]).id == f ==> k == j;
                        assert(i == j);
                    }
                } else {
                    if exists|j: int|
                        0 <= j < kitties.len() && (#[trigger] kitties[j]).id == f && kitty.pos.manhattan(kitties[j].pos)
                            <= 1 && forall|k: int| 0 <= k < kitties.len() && (#[trigger] kitties[k]).id == f ==> k == j {
                        let j = choose|j: int|
                            0 <= j < kitties.len() && (#[trigger] kitties[j]).id == f && kitty.pos.manhattan(
                                kitties[j].pos,
                            ) <= 1 && forall|k: int| 0 <= k < kitties.len() && (#[trigger] kitties[k]).id == f ==> k == j;
                        assert(first_with_id(kitties, f, j));
                    }
                }
            },
            Activity::Playing { target: Some(TargetRef::Element { id }) } => {
                if found_element(elements, id) is Some {
                    let i = choose|i: int| first_element(elements, id, i);
                    assert(found_element(elements, id) == Some(elements[i]));
                    if exists|j: int|
                        0 <= j < elements.len() && (#[trigger] elements[j]).id == id && kitty.pos.manhattan(
                            elements[j].pos,
                        ) <= 1 && forall|k: int| 0 <= k < elements.len() && (#[trigger] elements[k]).id == id ==> k == j {
                        let j = choose|j: int|
                            0 <= j < elements.len() && (#[trigger] elements[j]).id == id && kitty.pos.manhattan(
                                elements[j].pos,
                            ) <= 1 && forall|k: int| 0 <= k < elements.len() && (#[trigger] elements[k]).id == id ==> k == j;
                        assert(i == j);
                    }
                } else {
                    if exists|j: int|
                        0 <= j < elements.len() && (#[trigger] elements[j]).id == id && kitty.pos.manhattan(
                            elements[j].pos,
                        ) <= 1 && forall|k: int| 0 <= k < elements.len() && (#[trigger] elements[k]).id == id ==> k == j {
                        let j = choose|j: int|
                            0 <= j < elements.len() && (#[trigger] elements[j]).id == id && kitty.pos.manhattan(
                                elements[j].pos,
                            ) <= 1 && forall|k: int| 0 <= k < elements.len() && (#[trigger] elements[k]).id == id ==> k == j;
                        assert(first_element(elements, id, j));
                    }
                }
            },
            Activity::Playing { target: Some(TargetRef::Kitty { id }) } => {
                if found_kitty(kitties, id) is Some {
                    let i = choose|i: int| first_with_id(kitties, id, i);
                    assert(found_kitty(kitties, id) == Some(kitties[i]));
                    if exists|j: int|
                        0 <= j < kitties.len() && (#[trigger] kitties[j]).id == id && kitties[j].activity == (Activity::Playing {
                            target: Some(TargetRef::Kitty { id: kitty.id }),
                        }) && forall|k: int| 0 <= k < kitties.len() && (#[trigger] kitties[k]).id == id ==> k == j {
                        let j = choose|j: int|
                            0 <= j < kitties.len() && (#[trigger] kitties[j]).id == id && kitties[j].activity == (Activity::Playing {
                                target: Some(TargetRef::Kitty { id: kitty.id }),
                            }) && forall|k: int| 0 <= k < kitties.len() && (#[trigger] kitties[k]).id == id ==> k == j;
                        assert(i == j);
                    }
                } else {
                    if exists|j: int|
                        0 <= j < kitties.len() && (#[trigger] kitties[j]).id == id && kitties[j].activity == (Activity::Playing {
                            target: Some(TargetRef::Kitty { id: kitty.id }),
                        }) && forall|k: int| 0 <= k < kitties.len() && (#[trigger] kitties[k]).id == id ==> k == j {
                        let j = choose|j: int|
                            0 <= j < kitties.len() && (#[trigger] kitties[j]).id == id && kitties[j].activity == (Activity::Playing {
                                target: Some(TargetRef::Kitty { id: kitty.id }),
                            }) && forall|k: int| 0 <= k < kitties.len() && (#[trigger] kitties[k]).id == id ==> k == j;
                        assert(first_with_id(kitties, id, j));
                    }
                }
            },
            _ => {},
        }
    }
}

/// `after` is `kitties` with the first kitty carrying `id` brought to rest:
/// idle, clockless, otherwise unchanged.
pub open spec fn rested(kitties: Seq<Kitty>, id: KittyId, after: Seq<Kitty>) -> bool {
    &&& after.len() == kitties.len()
    &&& forall|i: int|
        0 <= i < kitties.len() ==> if first_with_id(kitties, id, i) {
            &&& (#[trigger] after[i]).activity == Activity::Idle
            &&& after[i].activity_clock is None
            &&& after[i].same_but_activity(kitties[i])
        } else {
            after[i] == kitties[i]
        }
}

/// The end a scene records: the kitty, what it was doing, and the span its
/// clock witnessed.
pub open spec fn end_record(k: Kitty, c: crate::kitty::ActivityClock) -> ActivityEnd {
    ActivityEnd {
        kitty_id: k.id,
        activity: k.activity,
        started: c.started,
        ended: c.applied,
        mutual_ticks: c.mutual_ticks,
        drip_ticks: c.drip_ticks,
    }
}

/// The ends recorded by bringing the first kitty carrying `id` to rest:
/// one if it had a clock running.
pub open spec fn scene_end(kitties: Seq<Kitty>, id: KittyId) -> Seq<ActivityEnd> {
    match found_kitty(kitties, id) {
        Some(k) => match k.activity_clock {
            Some(c) => seq![end_record(k, c)],
            None => Seq::empty(),
        },
        None => Seq::empty(),
    }
}

/// A ring after recording `ends` in order.
pub open spec fn logged<T>(items: Seq<T>, cap: nat, ends: Seq<T>) -> Seq<T>
    decreases ends.len(),
{
    if ends.len() == 0 {
        items
    } else {
        logged(
            crate::events::keep_last(items.push(ends[0]), crate::events::bound(cap)),
            cap,
            ends.drop_first(),
        )
    }
}

/// The duet partner bound to the first kitty carrying `id`, if any.
pub open spec fn duet_partner_of(kitties: Seq<Kitty>, id: KittyId) -> Option<KittyId> {
    match found_kitty(kitties, id) {
        Some(k) => k.activity.duet_of(),
        None => None,
    }
}

/// The ends recorded by ending `id`'s activity: its own scene's, then its
/// duet partner's.
pub open spec fn activity_ends(kitties: Seq<Kitty>, id: KittyId) -> Seq<ActivityEnd> {
    scene_end(kitties, id) + match duet_partner_of(kitties, id) {
        Some(pid) => if pid == id {
            Seq::empty()
        } else {
            scene_end(kitties, pid)
        },
        None => Seq::empty(),
    }
}

/// `k` brought to rest: idle and clockless, otherwise unchanged.
pub open spec fn rest_of(k: Kitty) -> Kitty {
    Kitty { activity: Activity::Idle, activity_clock: None, ..k }
}

/// `kitties` after ending `id`'s activity: the first kitty carrying `id`,
/// and the first carrying its duet partner's id, brought to rest.
pub open spec fn ended(kitties: Seq<Kitty>, id: KittyId) -> Seq<Kitty> {
    Seq::new(
        kitties.len(),
        |i: int|
            if first_with_id(kitties, id, i) || (duet_partner_of(kitties, id) matches Some(pid)
                && first_with_id(kitties, pid, i)) {
                rest_of(kitties[i])
            } else {
                kitties[i]
            },
    )
}

/// The first index of `kitties` carrying `id`, if any.
pub open spec fn index_of(kitties: Seq<Kitty>, id: KittyId) -> Option<int> {
    if exists|i: int| first_with_id(kitties, id, i) {
        Some(choose|i: int| first_with_id(kitties, id, i))
    } else {
        None
    }
}

/// Every running clock can count one more tick at `tick`.
pub open spec fn clocks_sane(kitties: Seq<Kitty>, tick: u64) -> bool {
    forall|j: int|
        0 <= j < kitties.len() ==> ((#[trigger] kitties[j]).activity_clock matches Some(c) ==> c.before(
            tick,
        ) < u64::MAX)
}

/// Whether the kitty at index `i` has `need` at zero, by the host's table
/// `sated` (one row per kitty, one column per need slot).
pub open spec fn sated_at(sated: Seq<[bool; 6]>, i: int, need: NeedKind) -> bool {
    sated[i]@[need_slot(need)]
}

/// Whether the scene of the kitty at index `i` is over at `tick`: it has
/// run its maximum, or it has run its minimum and either its governing
/// need is at zero (the groomed friend's for grooming, a missing friend
/// counting as done; either side's for a duet) or, for a meal, the bowl at
/// hand is empty or gone.
pub open spec fn scene_over(
    kitties: Seq<Kitty>,
    elements: Seq<Element>,
    i: int,
    tick: u64,
    durations: DurationsConfig,
    sated: Seq<[bool; 6]>,
) -> bool {
    let k = kitties[i];
    match (k.activity_clock, k.activity.bounds_in(durations)) {
        (Some(c), Some(b)) => {
            let elapsed = c.before(tick) + 1;
            let governed_done = match k.activity.governed_by() {
                None => false,
                Some(need) => {
                    let subject_done = match k.activity {
                        Activity::Grooming { target: Some(f) } => match index_of(kitties, f) {
                            Some(j) => sated_at(sated, j, need),
                            None => true,
                        },
                        _ => sated_at(sated, i, need),
                    };
                    subject_done || match k.activity.duet_of() {
                        Some(p) => match index_of(kitties, p) {
                            Some(j) => sated_at(sated, j, need),
                            None => false,
                        },
                        None => false,
                    }
                },
            };
            let out_of_chow = k.activity == Activity::Eating && !(exists|m: int|
                nearest_at(elements, k.pos, ElementType::Chow, m) && elements[m].kind.stocked());
            elapsed >= b.max || (elapsed >= b.min && (governed_done || out_of_chow))
        },
        _ => false,
    }
}

/// The kitties, and the ends recorded, after resolving scene ends from
/// index `i` on, in roster order; an ended duet frees both partners at
/// once, so the later partner's turn finds nothing to end.
pub open spec fn resolved(
    kitties: Seq<Kitty>,
    elements: Seq<Element>,
    tick: u64,
    durations: DurationsConfig,
    sated: Seq<[bool; 6]>,
    i: int,
) -> (Seq<Kitty>, Seq<ActivityEnd>)
    decreases kitties.len() - i,
{
    if i < 0 || i >= kitties.len() {
        (kitties, Seq::empty())
    } else if scene_over(kitties, elements, i, tick, durations, sated) {
        let next = ended(kitties, kitties[i].id);
        let rest = resolved(next, elements, tick, durations, sated, i + 1);
        (rest.0, activity_ends(kitties, kitties[i].id) + rest.1)
    } else {
        resolved(kitties, elements, tick, durations, sated, i + 1)
    }
}

/// No two kitties carry the same id.
pub open spec fn distinct_ids(kitties: Seq<Kitty>) -> bool {
    forall|a: int, b: int| 0 <= a < b < kitties.len() ==> (#[trigger] kitties[a]).id != (#[trigger] kitties[b]).id
}

/// The kitty's scene has run its maximum at `tick`.
pub open spec fn at_maximum(k: Kitty, tick: u64, durations: DurationsConfig) -> bool {
    k.activity_clock matches Some(c) && k.activity.bounds_in(durations) matches Some(b) && c.before(
        tick,
    ) + 1 >= b.max
}

/// Resolving scene ends never lets a scene outlive its maximum, and never
/// restarts a clock: with distinct ids, every kitty whose scene had run its
/// maximum, and every kitty without a clock, comes out without one; ids
/// and roster length are unchanged.
pub proof fn lemma_no_scene_outlives_its_maximum(
    kitties: Seq<Kitty>,
    elements: Seq<Element>,
    tick: u64,
    durations: DurationsConfig,
    sated: Seq<[bool; 6]>,
    i: int,
)
    requires
        distinct_ids(kitties),
        0 <= i <= kitties.len(),
    ensures
        resolved(kitties, elements, tick, durations, sated, i).0.len() == kitties.len(),
        forall|j: int|
            0 <= j < kitties.len() ==> (#[trigger] resolved(kitties, elements, tick, durations, sated, i).0[j]).id
                == kitties[j].id,
        forall|j: int|
            i <= j < kitties.len() && at_maximum(kitties[j], tick, durations) ==> (#[trigger] resolved(
                kitties,
                elements,
                tick,
                durations,
                sated,
                i,
            ).0[j]).activity_clock is None,
        forall|j: int|
            0 <= j < kitties.len() && kitties[j].activity_clock is None ==> (#[trigger] resolved(
                kitties,
                elements,
                tick,
                durations,
                sated,
                i,
            ).0[j]).activity_clock is None,
    decreases kitties.len() - i,
{
    if i >= kitties.len() {
    } else if scene_over(kitties, elements, i, tick, durations, sated) {
        let id = kitties[i].id;
        let next = ended(kitties, id);
        assert(first_with_id(kitties, id, i)) by {
            assert forall|j: int| 0 <= j < i implies (#[trigger] kitties[j]).id != id by {
                assert(kitties[j].id != kitties[i].id);
            }
        }
        assert(next[i].activity_clock is None);
        assert(distinct_ids(next)) by {
            assert forall|a: int, b: int| 0 <= a < b < next.len() implies (#[trigger] next[a]).id
                != (#[trigger] next[b]).id by {
                assert(next[a].id == kitties[a].id);
                assert(next[b].id == kitties[b].id);
            }
        }
        lemma_no_scene_outlives_its_maximum(next, elements, tick, durations, sated, i + 1);
        let out = resolved(kitties, elements, tick, durations, sated, i).0;
        assert(out == resolved(next, elements, tick, durations, sated, i + 1).0);
        assert forall|j: int|
            i <= j < kitties.len() && at_maximum(kitties[j], tick, durations) implies (#[trigger] out[j]).activity_clock
            is None by {
            if j == i {
                assert(next[j].activity_clock is None);
            } else if next[j] == kitties[j] {
                assert(at_maximum(next[j], tick, durations));
            } else {
                assert(next[j].activity_clock is None);
            }
        }
        assert forall|j: int|
            0 <= j < kitties.len() && kitties[j].activity_clock is None implies (#[trigger] out[j]).activity_clock
            is None by {
            assert(next[j].activity_clock is None);
        }
        assert forall|j: int| 0 <= j < kitties.len() implies (#[trigger] out[j]).id == kitties[j].id by {
            assert(next[j].id == kitties[j].id);
        }
    } else {
        lemma_no_scene_outlives_its_maximum(kitties, elements, tick, durations, sated, i + 1);
        assert(!at_maximum(kitties[i], tick, durations));
    }
}

/// Some kitty carrying `id` stands on water.
pub open spec fn wet_id(kitties: Seq<Kitty>, elements: Seq<Element>, id: KittyId) -> bool {
    exists|w: int| 0 <= w < kitties.len() && (#[trigger] kitties[w]).id == id && water_at(elements, kitties[w].pos)
}

/// `friend` is available to the kitty carrying `me`.
pub open spec fn available_to(kitties: Seq<Kitty>, me: KittyId, friend: KittyId) -> bool {
    match found_kitty(kitties, me) {
        Some(k) => friend_available(kitties, k, friend),
        None => false,
    }
}

/// Waterline contagion membership of the kitty at index `j`: a dry kitty
/// whose own activity names a wet partner still beside it; and, when
/// membership is bidirectional, a dry kitty that a wet kitty's activity
/// names while that wet kitty is still beside it.
pub open spec fn contagion_member(
    kitties: Seq<Kitty>,
    elements: Seq<Element>,
    j: int,
    bidirectional: bool,
) -> bool {
    let k = kitties[j];
    !water_at(elements, k.pos) && ((k.activity.partner_of() matches Some(p) && wet_id(
        kitties,
        elements,
        p,
    ) && available_to(kitties, k.id, p)) || (bidirectional && exists|w: int|
        0 <= w < kitties.len() && wet_id(kitties, elements, (#[trigger] kitties[w]).id)
            && kitties[w].activity.partner_of() == Some(k.id) && available_to(
            kitties,
            kitties[w].id,
            k.id,
        )))
}

/// Contagion charges dry cats only, and the bidirectional rule only adds
/// members to the option-A rule.
pub proof fn lemma_contagion_membership(kitties: Seq<Kitty>, elements: Seq<Element>, j: int)
    ensures
        contagion_member(kitties, elements, j, true) ==> !water_at(elements, kitties[j].pos),
        contagion_member(kitties, elements, j, false) ==> contagion_member(kitties, elements, j, true),
{
}

/// Whether `id` is among `v`.
fn contains_id(v: &Vec<KittyId>, id: KittyId) -> (b: bool)
    ensures
        b == v@.contains(id),
{
    let mut i: usize = 0;
    while i < v.len()
        invariant
            i <= v@.len(),
            forall|j: int| 0 <= j < i ==> v@[j] != id,
        decreases v@.len() - i,
    {
        if v[i] == id {
            return true;
        }
        i = i + 1;
    }
    false
}

/// The distress crossings of kitty `k` from need slot `s` on, given which
/// of its needs are now at or past the distress threshold: one event per
/// need that has just crossed.
pub open spec fn crossings(k: Kitty, row: [bool; 6], tick: u64, s: int) -> Seq<DistressEvent>
    decreases 6 - s,
{
    if s < 0 || s >= 6 {
        Seq::empty()
    } else {
        (if row@[s] && !k.in_distress@[s] {
            seq![DistressEvent { kitty_id: k.id, need: crate::needs::need_order()[s], tick }]
        } else {
            Seq::empty()
        }) + crossings(k, row, tick, s + 1)
    }
}

/// The crossings from need slot `s` on name the kitty, the tick and one of
/// those needs each, and name need slot `t` (from `s` on) exactly when the
/// row marks it distressed and the kitty was not already.
proof fn lemma_crossings_from(k: Kitty, row: [bool; 6], tick: u64, s: int)
    requires
        0 <= s <= 6,
    ensures
        forall|e: DistressEvent| #[trigger] crossings(k, row, tick, s).contains(e) ==> e.kitty_id == k.id
            && e.tick == tick && exists|t: int| s <= t < 6 && e.need == crate::needs::need_order()[t],
        forall|t: int|
            s <= t < 6 ==> (crossings(k, row, tick, s).contains(
                DistressEvent { kitty_id: k.id, need: #[trigger] crate::needs::need_order()[t], tick },
            ) <==> row@[t] && !k.in_distress@[t]),
    decreases 6 - s,
{
    if s < 6 {
        lemma_crossings_from(k, row, tick, s + 1);
        let head = if row@[s] && !k.in_distress@[s] {
            seq![DistressEvent { kitty_id: k.id, need: crate::needs::need_order()[s], tick }]
        } else {
            Seq::<DistressEvent>::empty()
        };
        let rest = crossings(k, row, tick, s + 1);
        assert(crossings(k, row, tick, s) == head + rest);
        assert forall|e: DistressEvent| #[trigger] (head + rest).contains(e) implies e.kitty_id == k.id
            && e.tick == tick && exists|t: int| s <= t < 6 && e.need == crate::needs::need_order()[t] by {
            let i = choose|i: int| 0 <= i < (head + rest).len() && (head + rest)[i] == e;
            if i < head.len() {
                assert(e == head[i]);
            } else {
                assert(rest[i - head.len()] == e);
                assert(rest.contains(e));
            }
        }
        assert forall|t: int| s <= t < 6 implies ((head + rest).contains(
            DistressEvent { kitty_id: k.id, need: #[trigger] crate::needs::need_order()[t], tick },
        ) <==> row@[t] && !k.in_distress@[t]) by {
            let e = DistressEvent { kitty_id: k.id, need: crate::needs::need_order()[t], tick };
            let order = crate::needs::need_order();
            if t == s {
                if row@[s] && !k.in_distress@[s] {
                    assert((head + rest)[0] == e);
                } else {
                    if (head + rest).contains(e) {
                        assert(head.len() == 0);
                        assert(head + rest =~= rest);
                        let u = choose|u: int| s + 1 <= u < 6 && e.need == order[u];
                        assert(order[u] != order[s]);
                    }
                }
            } else {
                if rest.contains(e) {
                    let i = choose|i: int| 0 <= i < rest.len() && rest[i] == e;
                    assert((head + rest)[head.len() + i] == e);
                }
                if (head + rest).contains(e) {
                    let i = choose|i: int| 0 <= i < (head + rest).len() && (head + rest)[i] == e;
                    if i < head.len() {
                        assert(head[i] == e);
                        assert(order[s] != order[t]);
                    } else {
                        assert(rest[i - head.len()] == e);
                    }
                }
            }
        }
    }
}

/// Distress events say exactly which needs crossed: a kitty's events this
/// tick each name the kitty and the tick, and name a need exactly when the
/// host's row marks that need past the threshold and the kitty was not
/// already in distress over it.
pub proof fn lemma_one_event_per_fresh_crossing(k: Kitty, row: [bool; 6], tick: u64)
    ensures
        forall|e: DistressEvent| #[trigger] crossings(k, row, tick, 0).contains(e) ==> e.kitty_id == k.id
            && e.tick == tick,
        forall|t: int|
            0 <= t < 6 ==> (crossings(k, row, tick, 0).contains(
                DistressEvent { kitty_id: k.id, need: #[trigger] crate::needs::need_order()[t], tick },
            ) <==> row@[t] && !k.in_distress@[t]),
{
    lemma_crossings_from(k, row, tick, 0);
}

/// The distress crossings of the roster from index `i` on, in roster
/// order and need order.
pub open spec fn all_crossings(kitties: Seq<Kitty>, rows: Seq<[bool; 6]>, tick: u64, i: int) -> Seq<
    DistressEvent,
>
    decreases kitties.len() - i,
{
    if i < 0 || i >= kitties.len() {
        Seq::empty()
    } else {
        crossings(kitties[i], rows[i], tick, 0) + all_crossings(kitties, rows, tick, i + 1)
    }
}

/// The distress start ticks after an update at `tick`: a distress keeps
/// the tick it began, stamped now when it has just begun (or carries no
/// stamp); a need out of distress has none.
pub open spec fn since_after(k: Kitty, row: [bool; 6], tick: u64) -> Seq<Option<u64>> {
    Seq::new(
        6,
        |s: int|
            if row@[s] {
                if !k.in_distress@[s] || k.distress_since@[s] is None {
                    Some(tick)
                } else {
                    k.distress_since@[s]
                }
            } else {
                None::<u64>
            },
    )
}

/// `after` is `k` with its distress books brought up to date at `tick`: a
/// need is in distress exactly when its row says so, with the start ticks
/// of `since_after`.
pub open spec fn distress_updated(k: Kitty, row: [bool; 6], tick: u64, after: Kitty) -> bool {
    &&& after.same_but_distress(k)
    &&& after.in_distress@ == row@
    &&& after.distress_since@ == since_after(k, row, tick)
}

/// The arming each need takes under `row`: armed at or above the
/// threshold, disarmed below the band, and held as it was within it.
pub open spec fn armed_after(k: Kitty, row: [ArmingBand; 6]) -> Seq<bool> {
    Seq::new(
        6,
        |s: int|
            match row@[s] {
                ArmingBand::AtOrAbove => true,
                ArmingBand::Below => false,
                ArmingBand::Within => k.announce_armed@[s],
            },
    )
}

/// `after` is `k` with its announce arming brought up to date with `row`.
pub open spec fn arming_updated(k: Kitty, row: [ArmingBand; 6], after: Kitty) -> bool {
    &&& after.same_but_arming(k)
    &&& after.announce_armed@ == armed_after(k, row)
}

/// Arming cannot flicker: a need whose pressure stays inside the band keeps
/// the arming it had, and once the arming is up to date with a row,
/// bringing it up to date with the same row again changes nothing.
pub proof fn lemma_arming_holds_within_the_band(k: Kitty, row: [ArmingBand; 6], after: Kitty)
    requires
        arming_updated(k, row, after),
    ensures
        forall|s: int| 0 <= s < 6 && row@[s] == ArmingBand::Within ==> after.announce_armed@[s]
            == k.announce_armed@[s],
        armed_after(after, row) == after.announce_armed@,
{
    assert(armed_after(after, row) =~= after.announce_armed@);
}

/// Distress is edge-triggered: once the books are up to date with a row,
/// recording the same row again, at any later tick, raises no event and
/// keeps every distress's start tick.
pub proof fn lemma_distress_is_edge_triggered(k: Kitty, row: [bool; 6], tick: u64, after: Kitty, later: u64)
    requires
        distress_updated(k, row, tick, after),
    ensures
        crossings(after, row, later, 0) == Seq::<DistressEvent>::empty(),
        since_after(after, row, later) == after.distress_since@,
{
    lemma_no_crossings_from(after, row, later, 0);
    assert(since_after(after, row, later) =~= after.distress_since@);
}

/// With the distress flags equal to the row, no slot from `s` on crosses.
proof fn lemma_no_crossings_from(k: Kitty, row: [bool; 6], tick: u64, s: int)
    requires
        k.in_distress@ == row@,
        0 <= s <= 6,
    ensures
        crossings(k, row, tick, s) == Seq::<DistressEvent>::empty(),
    decreases 6 - s,
{
    if s < 6 {
        lemma_no_crossings_from(k, row, tick, s + 1);
        assert(crossings(k, row, tick, s) =~= Seq::<DistressEvent>::empty());
    }
}

/// What duration enforcement rules for a validated action.
#[derive(Debug, Clone, Copy, PartialEq, Eq, Structural)]
pub enum DurationRuling {
    /// No activity in progress: the action stands.
    NotGoverned,
    /// The scene continues: the action is rewritten to the continuation.
    Continue(Action),
    /// Past the minimum, not a continuation: the activity ends and the
    /// action applies as validated.
    Interrupt,
}

/// The duration law: inside an activity's minimum the scene continues
/// whatever was proposed; past it a different action interrupts; a
/// proposal that continues the scene is normalised to its continuation.
pub open spec fn ruling_of(
    kitties: Seq<Kitty>,
    id: KittyId,
    validated: Action,
    durations: DurationsConfig,
    tick: u64,
) -> DurationRuling {
    match found_kitty(kitties, id) {
        None => DurationRuling::NotGoverned,
        Some(k) => match k.activity_clock {
            None => DurationRuling::NotGoverned,
            Some(c) => match (k.activity.continued_as(), k.activity.bounds_in(durations)) {
                (Some(cont), Some(b)) => if k.activity.continues(validated) || c.before(tick)
                    < b.min {
                    DurationRuling::Continue(cont)
                } else {
                    DurationRuling::Interrupt
                },
                _ => DurationRuling::NotGoverned,
            },
        },
    }
}

/// The duration law over a kitty in a timed scene (the first kitty
/// carrying `id`, at index `i`): before the scene has been serviced for
/// its minimum the scene continues, whatever was proposed; from the
/// minimum on, a proposal that does not continue the scene interrupts it,
/// and one that does continues it. A kitty without a clock, or absent, is
/// not governed.
pub proof fn lemma_scenes_keep_their_minimum(
    kitties: Seq<Kitty>,
    id: KittyId,
    i: int,
    validated: Action,
    durations: DurationsConfig,
    tick: u64,
)
    requires
        first_with_id(kitties, id, i),
    ensures
        kitties[i].activity_clock is None ==> ruling_of(kitties, id, validated, durations, tick)
            == DurationRuling::NotGoverned,
        kitties[i].activity_clock matches Some(c) ==> (kitties[i].activity.continued_as() matches Some(cont)
            ==> (kitties[i].activity.bounds_in(durations) matches Some(b) ==> {
            &&& c.before(tick) < b.min ==> ruling_of(kitties, id, validated, durations, tick)
                == DurationRuling::Continue(cont)
            &&& kitties[i].activity.continues(validated) ==> ruling_of(kitties, id, validated, durations, tick)
                == DurationRuling::Continue(cont)
            &&& c.before(tick) >= b.min && !kitties[i].activity.continues(validated) ==> ruling_of(
                kitties,
                id,
                validated,
                durations,
                tick,
            ) == DurationRuling::Interrupt
        })),
{
    lemma_first_with_id_unique(kitties, id, i);
    assert(found_kitty(kitties, id) == Some(kitties[i]));
}

/// The first index of `kitties` carrying `id`.
pub fn position_of_kitty(kitties: &[Kitty], id: KittyId) -> (r: Option<usize>)
    ensures
        r is None <==> forall|j: int| 0 <= j < kitties@.len() ==> (#[trigger] kitties@[j]).id != id,
        r is None ==> found_kitty(kitties@, id) is None && index_of(kitties@, id) is None,
        r matches Some(i) ==> first_with_id(kitties@, id, i as int) && found_kitty(kitties@, id)
            == Some(kitties@[i as int]) && index_of(kitties@, id) == Some(i as int),
{
    let mut i: usize = 0;
    while i < kitties.len()
        invariant
            i <= kitties@.len(),
            forall|j: int| 0 <= j < i ==> (#[trigger] kitties@[j]).id != id,
        decreases kitties@.len() - i,
    {
        if kitties[i].id == id {
            proof {
                lemma_first_with_id_unique(kitties@, id, i as int);
            }
            return Some(i);
        }
        i = i + 1;
    }
    None
}

/// The first index of `elements` carrying `id`.
pub fn position_of_element(elements: &[Element], id: ElementId) -> (r: Option<usize>)
    ensures
        r is None <==> forall|j: int| 0 <= j < elements@.len() ==> (#[trigger] elements@[j]).id != id,
        r is None ==> found_element(elements@, id) is None,
        r matches Some(i) ==> first_element(elements@, id, i as int) && found_element(elements@, id)
            == Some(elements@[i as int]),
{
    let mut i: usize = 0;
    while i < elements.len()
        invariant
            i <= elements@.len(),
            forall|j: int| 0 <= j < i ==> (#[trigger] elements@[j]).id != id,
        decreases elements@.len() - i,
    {
        if elements[i].id == id {
            proof {
                lemma_first_element_unique(elements@, id, i as int);
            }
            return Some(i);
        }
        i = i + 1;
    }
    None
}

/// Whether `friend` is available to `me`: a distinct, present kitty on or
/// beside `me`'s tile.
pub fn available_friend_in(kitties: &[Kitty], me: &Kitty, friend: KittyId) -> (b: bool)
    ensures
        b == friend_available(kitties@, *me, friend),
{
    if friend == me.id {
        return false;
    }
    match position_of_kitty(kitties, friend) {
        Some(i) => me.pos.is_adjacent(&kitties[i].pos),
        None => false,
    }
}

/// Whether `kitty`'s ongoing activity has a counterpart that `kitties` and
/// `elements` no longer supply.
pub fn counterpart_gone_in(kitty: &Kitty, kitties: &[Kitty], elements: &[Element]) -> (b: bool)
    ensures
        b == scene_gone(*kitty, kitties@, elements@),
{
    if kitty.activity_clock.is_none() {
        return false;
    }
    let pos = kitty.pos;
    match kitty.activity {
        Activity::Idle
        | Activity::Eating
        | Activity::Sleeping { .. }
        | Activity::Playing { target: None }
        | Activity::Grooming { target: None }
        | Activity::Resting { .. } => false,
        Activity::Drinking => adjacent_element_in(elements, pos, ElementType::Water).is_none(),
        Activity::Playing { target: Some(TargetRef::Element { id }) } => match position_of_element(
            elements,
            id,
        ) {
            Some(i) => !pos.is_adjacent(&elements[i].pos),
            None => true,
        },
        Activity::Playing { target: Some(TargetRef::Kitty { id }) } => match position_of_kitty(
            kitties,
            id,
        ) {
            Some(i) => {
                let bound_back = match kitties[i].activity.duet_partner() {
                    Some(p) => p == kitty.id,
                    None => false,
                };
                !bound_back
            },
            None => true,
        },
        Activity::Grooming { target: Some(id) } => !available_friend_in(kitties, kitty, id),
    }
}

/// Resting the partner after the kitty: the second rest names the same
/// index it would have named before the first, and records the same end
/// unless the partner is the kitty itself.
pub proof fn lemma_rest_partner(k0: Seq<Kitty>, k1: Seq<Kitty>, id: KittyId, pid: KittyId)
    requires
        rested(k0, id, k1),
    ensures
        forall|i: int| #[trigger] first_with_id(k1, pid, i) <==> first_with_id(k0, pid, i),
        pid != id ==> scene_end(k1, pid) == scene_end(k0, pid),
        pid == id ==> scene_end(k1, pid) == Seq::<ActivityEnd>::empty(),
{
    assert forall|i: int| #[trigger] first_with_id(k1, pid, i) <==> first_with_id(k0, pid, i) by {
        if 0 <= i < k0.len() {
            assert(k1[i].id == k0[i].id);
            assert forall|j: int| 0 <= j < i implies k1[j].id == k0[j].id by {
                assert(k1[j].id == k0[j].id);
            }
        }
    }
    if exists|i: int| first_with_id(k0, pid, i) {
        let i = choose|i: int| first_with_id(k0, pid, i);
        lemma_first_with_id_unique(k0, pid, i);
        assert(first_with_id(k1, pid, i));
        lemma_first_with_id_unique(k1, pid, i);
        if pid != id {
            assert(!first_with_id(k0, id, i));
            assert(k1[i] == k0[i]);
        } else {
            assert(first_with_id(k0, id, i));
        }
    } else {
        assert(!exists|i: int| first_with_id(k1, pid, i));
    }
}

/// Recording two batches of ends is recording their concatenation.
pub proof fn lemma_logged_concat<T>(items: Seq<T>, cap: nat, a: Seq<T>, b: Seq<T>)
    ensures
        logged(logged(items, cap, a), cap, b) == logged(items, cap, a + b),
    decreases a.len(),
{
    if a.len() == 0 {
        assert(a + b == b);
    } else {
        lemma_logged_concat(
            crate::events::keep_last(items.push(a[0]), crate::events::bound(cap)),
            cap,
            a.drop_first(),
            b,
        );
        assert((a + b)[0] == a[0]);
        assert((a + b).drop_first() == a.drop_first() + b);
    }
}

/// `e` after one tick of its countdown.
pub open spec fn ticked(e: Element) -> Element {
    Element {
        ttl: match e.ttl {
            Some(t) => Some(if t > 0 { (t - 1) as u64 } else { 0u64 }),
            None => None,
        },
        ..e
    }
}

/// No two of `elements` share a tile.
pub open spec fn one_per_tile_of(elements: Seq<Element>) -> bool {
    forall|i: int, j: int|
        0 <= i < j < elements.len() ==> (#[trigger] elements[i]).pos != (#[trigger] elements[j]).pos
}

/// Keeping some of a sequence of elements, in order, keeps them on
/// distinct tiles if they were.
pub proof fn lemma_filter_keeps_one_per_tile(s: Seq<Element>, keep: spec_fn(Element) -> bool)
    requires
        one_per_tile_of(s),
    ensures
        one_per_tile_of(s.filter(keep)),
    decreases s.len(),
{
    reveal(Seq::filter);
    if s.len() > 0 {
        let init = s.drop_last();
        assert(one_per_tile_of(init)) by {
            assert forall|i: int, j: int| 0 <= i < j < init.len() implies (#[trigger] init[i]).pos
                != (#[trigger] init[j]).pos by {
                assert(init[i] == s[i]);
                assert(init[j] == s[j]);
            }
        }
        lemma_filter_keeps_one_per_tile(init, keep);
        let sub = init.filter(keep);
        if keep(s.last()) {
            let out = sub.push(s.last());
            assert forall|i: int, j: int| 0 <= i < j < out.len() implies (#[trigger] out[i]).pos
                != (#[trigger] out[j]).pos by {
                if j == out.len() - 1 {
                    assert(sub.contains(out[i])) by {
                        assert(sub[i] == out[i]);
                    }
                    init.lemma_filter_contains_rev(keep, out[i]);
                    let k = choose|k: int| 0 <= k < init.len() && init[k] == out[i];
                    assert(init[k] == s[k]);
                    assert(s[k].pos != s[s.len() - 1].pos);
                } else {
                    assert(out[i] == sub[i]);
                    assert(out[j] == sub[j]);
                }
            }
        }
    }
}

/// Where element `idx` steps to in `dir`: the neighbouring tile, when it
/// is on the grid and no other element lies there.
pub open spec fn step_target(elements: Seq<Element>, idx: int, dir: Direction, width: u32, height: u32) -> Option<
    Position,
> {
    if 0 <= idx < elements.len() {
        match elements[idx].pos.stepped(dir, width as int, height as int) {
            Some(dest) => if forall|j: int|
                0 <= j < elements.len() && j != idx ==> (#[trigger] elements[j]).pos != dest {
                Some(dest)
            } else {
                None
            },
            None => None,
        }
    } else {
        None
    }
}

/// The elements that outlive one tick: each ticked, the expired dropped,
/// order kept.
pub open spec fn survivors(elements: Seq<Element>) -> Seq<Element> {
    elements.map_values(|e: Element| ticked(e)).filter(|e: Element| !e.expired())
}

/// How many of `elements` are of `kind`.
pub open spec fn count_kind(elements: Seq<Element>, kind: ElementType) -> nat
    decreases elements.len(),
{
    if elements.len() == 0 {
        0
    } else {
        count_kind(elements.drop_last(), kind) + if elements.last().kind_type() == kind {
            1nat
        } else {
            0nat
        }
    }
}

/// Some element lies on `pos`.
pub open spec fn occupied(elements: Seq<Element>, pos: Position) -> bool {
    exists|i: int| 0 <= i < elements.len() && (#[trigger] elements[i]).pos == pos
}

/// Row-major order on tiles: by row, then by column.
pub open spec fn row_major_before(a: Position, b: Position) -> bool {
    a.y < b.y || (a.y == b.y && a.x < b.x)
}

/// The id the allocator hands out when its counter reads `next`: 0 and the
/// reserved id are skipped by restarting at 1.
pub open spec fn issued_id(next: u32) -> u32 {
    if next == 0 || next == RESERVED_ELEMENT_ID {
        1
    } else {
        next
    }
}

/// The ids of `kitties`, in order.
pub open spec fn ids_of(kitties: Seq<Kitty>) -> Seq<KittyId> {
    kitties.map_values(|k: Kitty| k.id)
}

/// Fisher–Yates from position `i` down: `s` with the positions from `i`
/// on already settled and the generator in `state`, and the order and
/// generator state once each position below `i`, down to the second, has
/// swapped with a partner drawn from `[0, position]`.
pub open spec fn shuffled_from(s: Seq<KittyId>, state: StreamState, i: nat) -> (Seq<KittyId>, StreamState)
    decreases i,
{
    if i <= 1 {
        (s, state)
    } else {
        let k = (i - 1) as int;
        let call = Draw::RangeU32 { low: 0, high: i as u32 };
        let j = chacha_in_range(state, call);
        shuffled_from(s.update(k, s[j]).update(j, s[k]), after(state, call), (i - 1) as nat)
    }
}

/// The turn order `ids` shuffle into from the generator state `state`,
/// with the state the shuffle leaves behind.
pub open spec fn turn_order(ids: Seq<KittyId>, state: StreamState) -> (Seq<KittyId>, StreamState) {
    shuffled_from(ids, state, ids.len())
}

/// Exchanging two entries of a sequence keeps its multiset of entries.
pub proof fn lemma_swap_keeps_multiset<A>(s: Seq<A>, i: int, j: int)
    requires
        0 <= i < s.len(),
        0 <= j < s.len(),
    ensures
        s.update(i, s[j]).update(j, s[i]).to_multiset() == s.to_multiset(),
        s.update(i, s[j]).update(j, s[i]).len() == s.len(),
{
    broadcast use vstd::seq_lib::to_multiset_update;
    broadcast use vstd::multiset::group_multiset_properties;
    broadcast use vstd::multiset::group_multiset_axioms;

    if i == j {
        assert(s.update(i, s[j]).update(j, s[i]) =~= s);
    } else {
        let s1 = s.update(i, s[j]);
        assert(s1[j] == s[j]);
        broadcast use vstd::seq_lib::to_multiset_contains;
        assert(s.contains(s[i]));
        assert(s.contains(s[j]));
        let m = s.to_multiset();
        assert(m.count(s[i]) > 0);
        assert(m.count(s[j]) > 0);
        assert(s1.to_multiset() == s.to_multiset().insert(s[j]).remove(s[i]));
        assert(s1.update(j, s[i]).to_multiset() == s1.to_multiset().insert(s[i]).remove(s[j]));
        assert(s.to_multiset().insert(s[j]).remove(s[i]).insert(s[i]).remove(s[j]) =~= s.to_multiset());
    }
}

/// The kitties of `ks` stand in order of id.
pub open spec fn ids_ascending(ks: Seq<Kitty>) -> bool {
    forall|i: int, j: int| 0 <= i < j < ks.len() ==> (#[trigger] ks[i]).id <= (#[trigger] ks[j]).id
}

/// `kitties` ordered by id; kitties sharing an id keep their order.
fn sort_roster(kitties: Vec<Kitty>) -> (out: Vec<Kitty>)
    ensures
        out@.to_multiset() == kitties@.to_multiset(),
        ids_ascending(out@),
{
    broadcast use vstd::seq_lib::group_to_multiset_ensures;

    let mut rest = kitties;
    let mut out: Vec<Kitty> = Vec::new();
    while rest.len() > 0
        invariant
            out@.to_multiset().add(rest@.to_multiset()) == kitties@.to_multiset(),
            ids_ascending(out@),
        decreases rest@.len(),
    {
        let ghost r0 = rest@;
        let x = rest.pop().unwrap();
        proof {
            assert(r0 =~= rest@.push(x));
            vstd::seq_lib::to_multiset_build(rest@, x);
        }
        let mut j: usize = 0;
        while j < out.len() && out[j].id < x.id
            invariant
                j <= out@.len(),
                forall|k: int| 0 <= k < j ==> (#[trigger] out@[k]).id < x.id,
            decreases out@.len() - j,
        {
            j = j + 1;
        }
        let ghost o0 = out@;
        out.insert(j, x);
        proof {
            vstd::seq_lib::to_multiset_insert(o0, j as int, x);
            assert(out@ == o0.insert(j as int, x));
            assert forall|p: int, q: int| 0 <= p < q < out@.len() implies (#[trigger] out@[p]).id
                <= (#[trigger] out@[q]).id by {
                if q < j {
                    assert(out@[p] == o0[p] && out@[q] == o0[q]);
                } else if q == j {
                    assert(out@[p] == o0[p]);
                } else if p < j {
                    assert(out@[p] == o0[p] && out@[q] == o0[q - 1]);
                    assert(o0[j as int].id <= o0[q - 1].id || q - 1 == j);
                } else if p == j {
                    assert(out@[q] == o0[q - 1]);
                    assert(o0[j as int].id <= o0[q - 1].id || q - 1 == j);
                } else {
                    assert(out@[p] == o0[p - 1] && out@[q] == o0[q - 1]);
                }
            }
        }
    }
    proof {
        assert(rest@.to_multiset() =~= vstd::multiset::Multiset::empty());
        assert(out@.to_multiset().add(vstd::multiset::Multiset::empty()) =~= out@.to_multiset());
    }
    out
}

/// A field-for-field copy of each kitty, in order.
fn copy_roster(kitties: &Vec<Kitty>) -> (out: Vec<Kitty>)
    ensures
        same_roster(out@, kitties@),
{
    let mut out: Vec<Kitty> = Vec::new();
    let mut i: usize = 0;
    while i < kitties.len()
        invariant
            i <= kitties@.len(),
            out@.len() == i,
            forall|j: int| 0 <= j < i ==> (#[trigger] out@[j]).same_as(kitties@[j]),
        decreases kitties@.len() - i,
    {
        out.push(kitties[i].duplicate());
        i = i + 1;
    }
    out
}

/// The oldest tick a meow may carry and still be kept at `tick` under a
/// retention window of `window` ticks.
pub open spec fn meow_cutoff(tick: u64, window: u64) -> int {
    if tick >= window {
        tick - window
    } else {
        0
    }
}

/// A copy of each meow, in order.
fn copy_meows(meows: &Vec<Meow>) -> (out: Vec<Meow>)
    ensures
        out@ == meows@,
{
    let mut out: Vec<Meow> = Vec::new();
    let mut i: usize = 0;
    while i < meows.len()
        invariant
            i <= meows@.len(),
            out@ == meows@.subrange(0, i as int),
        decreases meows@.len() - i,
    {
        out.push(meows[i]);
        i = i + 1;
    }
    assert(out@ =~= meows@);
    out
}

/// A copy of each element, in order.
fn copy_elements(elements: &Vec<Element>) -> (out: Vec<Element>)
    ensures
        out@ == elements@,
{
    let mut out: Vec<Element> = Vec::new();
    let mut i: usize = 0;
    while i < elements.len()
        invariant
            i <= elements@.len(),
            out@ == elements@.subrange(0, i as int),
        decreases elements@.len() - i,
    {
        out.push(elements[i]);
        i = i + 1;
    }
    assert(out@ =~= elements@);
    out
}

/// The read-only view of a world handed to deciders and pushed to viewers.
#[derive(Debug)]
pub struct WorldSnapshot {
    pub width: u32,
    pub height: u32,
    pub tick: u64,
    pub kitties: Vec<Kitty>,
    pub elements: Vec<Element>,
    /// The meows still inside the retention window, oldest first.
    pub recent_meows: Vec<Meow>,
}

/// The kitties of `ks` other than the one carrying `me`, in order.
pub open spec fn others_of(ks: Seq<Kitty>, me: KittyId) -> Seq<Kitty> {
    ks.filter(|k: Kitty| k.id != me)
}

/// The elements of `els` of type `kind`, in order.
pub open spec fn elements_of_kind(els: Seq<Element>, kind: ElementType) -> Seq<Element> {
    els.filter(|e: Element| e.kind_type() == kind)
}

/// The critters among `els`, in order.
pub open spec fn critters_of(els: Seq<Element>) -> Seq<Element> {
    els.filter(|e: Element| e.kind_type().critter())
}

/// `i` is the nearest kitty to `pos` other than `me`: smallest distance,
/// then smallest id, then first in roster order.
pub open spec fn nearest_friend_at(ks: Seq<Kitty>, me: KittyId, pos: Position, i: int) -> bool {
    &&& 0 <= i < ks.len()
    &&& ks[i].id != me
    &&& forall|j: int|
        0 <= j < ks.len() && (#[trigger] ks[j]).id != me && j != i ==> {
            let (di, dj) = (pos.manhattan(ks[i].pos), pos.manhattan(ks[j].pos));
            di < dj || (di == dj && ks[i].id < ks[j].id) || (di == dj && ks[i].id == ks[j].id && i < j)
        }
}

/// `a` and `b` hold the same kitties in the same order.
pub open spec fn same_roster(a: Seq<Kitty>, b: Seq<Kitty>) -> bool {
    a.len() == b.len() && forall|i: int| 0 <= i < a.len() ==> (#[trigger] a[i]).same_as(b[i])
}

/// The largest element id in `els`; 0 for none.
pub open spec fn max_element_id(els: Seq<Element>) -> ElementId
    decreases els.len(),
{
    if els.len() == 0 {
        0
    } else {
        let m = max_element_id(els.drop_last());
        if els.last().id > m {
            els.last().id
        } else {
            m
        }
    }
}

/// The counter a world rebuilt over `els` issues ids from: one past the
/// largest id, 1 when that would wrap past the top, and 1 when there are
/// no elements.
pub open spec fn resume_counter(els: Seq<Element>) -> ElementId {
    if els.len() == 0 || max_element_id(els) == u32::MAX {
        1
    } else {
        (max_element_id(els) + 1) as u32
    }
}

/// No element id exceeds `max_element_id`, and every id is one of them.
pub proof fn lemma_max_element_id(els: Seq<Element>)
    ensures
        forall|i: int| 0 <= i < els.len() ==> (#[trigger] els[i]).id <= max_element_id(els),
        els.len() > 0 ==> exists|i: int| 0 <= i < els.len() && (#[trigger] els[i]).id == max_element_id(els),
    decreases els.len(),
{
    if els.len() > 0 {
        let rest = els.drop_last();
        lemma_max_element_id(rest);
        assert forall|i: int| 0 <= i < els.len() implies (#[trigger] els[i]).id <= max_element_id(els) by {
            if i < els.len() - 1 {
                assert(els[i] == rest[i]);
            }
        }
        if els.last().id > max_element_id(rest) {
            assert(els[els.len() - 1].id == max_element_id(els));
        } else if rest.len() > 0 {
            let j = choose|j: int| 0 <= j < rest.len() && (#[trigger] rest[j]).id == max_element_id(rest);
            assert(els[j] == rest[j]);
        } else {
            assert(els[0].id == max_element_id(els));
        }
    }
}

/// A world rebuilt from a snapshot issues only fresh element ids: unless
/// some element already holds the top id, the counter it resumes from lies
/// above every id the snapshot holds.
pub proof fn lemma_resumed_ids_are_fresh(els: Seq<Element>)
    requires
        forall|i: int| 0 <= i < els.len() ==> (#[trigger] els[i]).id != u32::MAX,
    ensures
        forall|i: int| 0 <= i < els.len() ==> (#[trigger] els[i]).id < resume_counter(els),
        resume_counter(els) >= 1,
{
    lemma_max_element_id(els);
    if els.len() > 0 {
        let j = choose|j: int| 0 <= j < els.len() && (#[trigger] els[j]).id == max_element_id(els);
        assert(els[j].id != u32::MAX);
    }
}

impl WorldSnapshot {
    pub fn kitty(&self, id: KittyId) -> (r: Option<&Kitty>)
        ensures
            r is None <==> found_kitty(self.kitties@, id) is None,
            r matches Some(k) ==> found_kitty(self.kitties@, id) == Some(*k),
    {
        match position_of_kitty(self.kitties.as_slice(), id) {
            Some(i) => Some(&self.kitties[i]),
            None => None,
        }
    }

    pub fn element_at(&self, pos: Position) -> (r: Option<&Element>)
        ensures
            r is None <==> !occupied(self.elements@, pos),
            r matches Some(e) ==> exists|i: int| first_element_on(self.elements@, pos, i) && self.elements@[i] == *e,
    {
        let mut i: usize = 0;
        while i < self.elements.len()
            invariant
                i <= self.elements@.len(),
                forall|j: int| 0 <= j < i ==> (#[trigger] self.elements@[j]).pos != pos,
            decreases self.elements@.len() - i,
        {
            if self.elements[i].pos == pos {
                return Some(&self.elements[i]);
            }
            i = i + 1;
        }
        None
    }

    /// Every kitty but `me`, in roster order.
    pub fn others(&self, me: KittyId) -> (out: Vec<&Kitty>)
        ensures
            out@.len() == others_of(self.kitties@, me).len(),
            forall|j: int| 0 <= j < out@.len() ==> *(#[trigger] out@[j]) == others_of(self.kitties@, me)[j],
    {
        broadcast use vstd::seq_lib::group_filter_ensures;

        let ghost p = |k: Kitty| k.id != me;
        let mut out: Vec<&Kitty> = Vec::new();
        let mut i: usize = 0;
        while i < self.kitties.len()
            invariant
                i <= self.kitties@.len(),
                p == (|k: Kitty| k.id != me),
                out@.len() == self.kitties@.subrange(0, i as int).filter(p).len(),
                forall|j: int|
                    0 <= j < out@.len() ==> *(#[trigger] out@[j]) == self.kitties@.subrange(0, i as int).filter(p)[j],
            decreases self.kitties@.len() - i,
        {
            let ghost before = self.kitties@.subrange(0, i as int);
            assert(self.kitties@.subrange(0, i + 1) =~= before.push(self.kitties@[i as int]));
            proof {
                before.lemma_filter_push(self.kitties@[i as int], p);
            }
            if self.kitties[i].id != me {
                out.push(&self.kitties[i]);
            }
            i = i + 1;
        }
        assert(self.kitties@.subrange(0, self.kitties@.len() as int) =~= self.kitties@);
        out
    }

    /// The elements of type `kind`, in order.
    pub fn elements_of(&self, kind: ElementType) -> (out: Vec<Element>)
        ensures
            out@ == elements_of_kind(self.elements@, kind),
    {
        let ghost p = |e: Element| e.kind_type() == kind;
        let mut out: Vec<Element> = Vec::new();
        let mut i: usize = 0;
        while i < self.elements.len()
            invariant
                i <= self.elements@.len(),
                p == (|e: Element| e.kind_type() == kind),
                out@ == self.elements@.subrange(0, i as int).filter(p),
            decreases self.elements@.len() - i,
        {
            let ghost before = self.elements@.subrange(0, i as int);
            assert(self.elements@.subrange(0, i + 1) =~= before.push(self.elements@[i as int]));
            proof {
                before.lemma_filter_push(self.elements@[i as int], p);
            }
            if self.elements[i].element_type() == kind {
                out.push(self.elements[i]);
            }
            i = i + 1;
        }
        assert(self.elements@.subrange(0, self.elements@.len() as int) =~= self.elements@);
        out
    }

    /// The critters, in order.
    pub fn critters(&self) -> (out: Vec<Element>)
        ensures
            out@ == critters_of(self.elements@),
    {
        let ghost p = |e: Element| e.kind_type().critter();
        let mut out: Vec<Element> = Vec::new();
        let mut i: usize = 0;
        while i < self.elements.len()
            invariant
                i <= self.elements@.len(),
                p == (|e: Element| e.kind_type().critter()),
                out@ == self.elements@.subrange(0, i as int).filter(p),
            decreases self.elements@.len() - i,
        {
            let ghost before = self.elements@.subrange(0, i as int);
            assert(self.elements@.subrange(0, i + 1) =~= before.push(self.elements@[i as int]));
            proof {
                before.lemma_filter_push(self.elements@[i as int], p);
            }
            if self.elements[i].element_type().is_critter() {
                out.push(self.elements[i]);
            }
            i = i + 1;
        }
        assert(self.elements@.subrange(0, self.elements@.len() as int) =~= self.elements@);
        out
    }

    /// The kitty nearest `pos` other than `me`, ties going to the lower id.
    pub fn nearest_friend(&self, me: KittyId, pos: Position) -> (r: Option<&Kitty>)
        requires
            forall|j: int|
                0 <= j < self.kitties@.len() && (#[trigger] self.kitties@[j]).id != me ==> pos.manhattan(
                    self.kitties@[j].pos,
                ) <= u32::MAX,
        ensures
            r is None <==> forall|j: int| 0 <= j < self.kitties@.len() ==> (#[trigger] self.kitties@[j]).id == me,
            r matches Some(k) ==> exists|i: int| nearest_friend_at(self.kitties@, me, pos, i) && self.kitties@[i] == *k,
    {
        let n = self.kitties.len();
        let mut best: Option<usize> = None;
        let mut best_d: u32 = 0;
        let mut i: usize = 0;
        while i < n
            invariant
                n == self.kitties@.len(),
                i <= n,
                forall|j: int|
                    0 <= j < self.kitties@.len() && (#[trigger] self.kitties@[j]).id != me ==> pos.manhattan(
                        self.kitties@[j].pos,
                    ) <= u32::MAX,
                best is None <==> forall|j: int| 0 <= j < i ==> (#[trigger] self.kitties@[j]).id == me,
                best matches Some(b) ==> {
                    &&& b < i
                    &&& self.kitties@[b as int].id != me
                    &&& best_d == pos.manhattan(self.kitties@[b as int].pos)
                    &&& forall|j: int|
                        0 <= j < i && (#[trigger] self.kitties@[j]).id != me && j != b ==> {
                            let (di, dj) = (
                                pos.manhattan(self.kitties@[b as int].pos),
                                pos.manhattan(self.kitties@[j].pos),
                            );
                            di < dj || (di == dj && self.kitties@[b as int].id < self.kitties@[j].id) || (
                            di == dj && self.kitties@[b as int].id == self.kitties@[j].id && b < j)
                        }
                },
            decreases n - i,
        {
            let k = &self.kitties[i];
            if k.id != me {
                let d = pos.manhattan_distance(&k.pos);
                match best {
                    None => {
                        best = Some(i);
                        best_d = d;
                    },
                    Some(b) => {
                        if d < best_d || (d == best_d && k.id < self.kitties[b].id) {
                            best = Some(i);
                            best_d = d;
                        }
                    },
                }
            }
            i = i + 1;
        }
        match best {
            Some(b) => Some(&self.kitties[b]),
            None => None,
        }
    }

    /// Whether the scene `kitty_id` is in names a counterpart the snapshot
    /// no longer holds.
    pub fn counterpart_gone(&self, kitty_id: KittyId) -> (b: bool)
        ensures
            b == match found_kitty(self.kitties@, kitty_id) {
                Some(k) => scene_gone(k, self.kitties@, self.elements@),
                None => false,
            },
    {
        match position_of_kitty(self.kitties.as_slice(), kitty_id) {
            Some(i) => counterpart_gone_in(
                &self.kitties[i],
                self.kitties.as_slice(),
                self.elements.as_slice(),
            ),
            None => false,
        }
    }
}

/// The world's rule-bearing state: its size and clock, its kitties
/// (ordered by id; none is ever removed) and elements, the event logs, the
/// master generator, the fingerprint of the configuration it came from,
/// the element id counter and the meows still inside the retention window.
/// Need pressures and happiness, which are real-valued, live with the host.
pub struct World {
    pub width: u32,
    pub height: u32,
    pub tick: u64,
    pub kitties: Vec<Kitty>,
    pub elements: Vec<Element>,
    /// The meows still inside the retention window, oldest first.
    pub recent_meows: Vec<Meow>,
    /// Distress crossings, oldest first.
    pub distress: DistressLog,
    pub activity_log: ActivityLog,
    /// Non-idle proposals that validation resolved to idle.
    pub refusal_log: RefusalLog,
    pub rng: SimRng,
    /// Identifies the configuration this world was generated from.
    pub config_fingerprint: String,
    /// The counter element ids are issued from.
    pub next_element_id: ElementId,
    /// The activity ends recorded during the tick in progress.
    pub pending_endings: Vec<ActivityEnd>,
}

impl World {
    /// A world of the given size at tick 0 holding `kitties` ordered by id,
    /// with no elements yet, the master generator seeded by `seed`, and
    /// event logs keeping what `events` retains.
    pub fn new(width: u32, height: u32, seed: u64, kitties: Vec<Kitty>, events: &EventsConfig) -> (w:
        World)
        ensures
            w.width == width,
            w.height == height,
            w.tick == 0,
            w.kitties@.to_multiset() == kitties@.to_multiset(),
            ids_ascending(w.kitties@),
            w.elements@.len() == 0,
            w.recent_meows@.len() == 0,
            w.next_element_id == 1,
            w.pending_endings@.len() == 0,
            w.activity_log.items().len() == 0,
            w.activity_log.cap() == crate::events::bound(events.activity_retention as nat),
            w.distress.items().len() == 0,
            w.distress.cap() == crate::events::bound(events.distress_retention as nat),
            w.refusal_log.items().len() == 0,
            w.refusal_log.cap() == crate::events::bound(events.refusal_retention as nat),
            w.config_fingerprint@.len() == 0,
            w.rng@ == fresh(seed),
    {
        World {
            width,
            height,
            tick: 0,
            kitties: sort_roster(kitties),
            elements: Vec::new(),
            recent_meows: Vec::new(),
            distress: EventLog::new(events.distress_retention),
            activity_log: EventLog::new(events.activity_retention),
            refusal_log: EventLog::new(events.refusal_retention),
            rng: SimRng::from_seed(seed),
            config_fingerprint: String::new(),
            next_element_id: 1,
            pending_endings: Vec::new(),
        }
    }

    /// The snapshot deciders and viewers read: this world's size, clock,
    /// kitties, elements and recent meows.
    pub fn snapshot(&self) -> (s: WorldSnapshot)
        ensures
            s.width == self.width,
            s.height == self.height,
            s.tick == self.tick,
            same_roster(s.kitties@, self.kitties@),
            s.elements@ == self.elements@,
            s.recent_meows@ == self.recent_meows@,
    {
        WorldSnapshot {
            width: self.width,
            height: self.height,
            tick: self.tick,
            kitties: copy_roster(&self.kitties),
            elements: copy_elements(&self.elements),
            recent_meows: copy_meows(&self.recent_meows),
        }
    }

    /// A world for asking the rules questions about a frozen snapshot: the
    /// snapshot's size, clock, kitties, elements and recent meows, with empty
    /// logs of capacity 0 (which recording treats as 1), a generator seeded
    /// by 0, and an element counter past the snapshot's
    /// largest id. Not for resuming a simulation: the generator is not the
    /// live world's.
    pub fn from_snapshot(snapshot: &WorldSnapshot) -> (w: World)
        ensures
            w.width == snapshot.width,
            w.height == snapshot.height,
            w.tick == snapshot.tick,
            same_roster(w.kitties@, snapshot.kitties@),
            w.elements@ == snapshot.elements@,
            w.recent_meows@ == snapshot.recent_meows@,
            w.next_element_id == resume_counter(snapshot.elements@),
            w.distress.items().len() == 0,
            w.distress.cap() == 0,
            w.activity_log.items().len() == 0,
            w.activity_log.cap() == 0,
            w.refusal_log.items().len() == 0,
            w.refusal_log.cap() == 0,
            w.rng@ == fresh(0),
            w.config_fingerprint@.len() == 0,
            w.pending_endings@.len() == 0,
    {
        let n = snapshot.elements.len();
        let mut top: ElementId = 0;
        let mut i: usize = 0;
        while i < n
            invariant
                n == snapshot.elements@.len(),
                i <= n,
                top == max_element_id(snapshot.elements@.subrange(0, i as int)),
            decreases n - i,
        {
            let ghost prefix = snapshot.elements@.subrange(0, i as int + 1);
            assert(prefix.drop_last() =~= snapshot.elements@.subrange(0, i as int));
            if snapshot.elements[i].id > top {
                top = snapshot.elements[i].id;
            }
            i = i + 1;
        }
        assert(snapshot.elements@.subrange(0, n as int) =~= snapshot.elements@);
        let next_element_id: ElementId = if n == 0 || top == u32::MAX {
            1
        } else {
            top + 1
        };
        World {
            width: snapshot.width,
            height: snapshot.height,
            tick: snapshot.tick,
            kitties: copy_roster(&snapshot.kitties),
            elements: copy_elements(&snapshot.elements),
            recent_meows: copy_meows(&snapshot.recent_meows),
            distress: EventLog::default(),
            activity_log: EventLog::default(),
            refusal_log: EventLog::default(),
            rng: SimRng::from_seed(0),
            config_fingerprint: String::new(),
            next_element_id,
            pending_endings: Vec::new(),
        }
    }

    pub fn kitty_index(&self, id: KittyId) -> (r: Option<usize>)
        ensures
            r is None <==> forall|j: int| 0 <= j < self.kitties@.len() ==> (#[trigger] self.kitties@[j]).id != id,
            r matches Some(i) ==> first_with_id(self.kitties@, id, i as int),
    {
        let mut i: usize = 0;
        while i < self.kitties.len()
            invariant
                i <= self.kitties@.len(),
                forall|j: int| 0 <= j < i ==> (#[trigger] self.kitties@[j]).id != id,
            decreases self.kitties@.len() - i,
        {
            if self.kitties[i].id == id {
                return Some(i);
            }
            i = i + 1;
        }
        None
    }

    pub fn kitty(&self, id: KittyId) -> (r: Option<&Kitty>)
        ensures
            r is None <==> forall|j: int| 0 <= j < self.kitties@.len() ==> (#[trigger] self.kitties@[j]).id != id,
            r matches Some(k) ==> exists|i: int| first_with_id(self.kitties@, id, i) && self.kitties@[i] == *k,
    {
        match self.kitty_index(id) {
            Some(i) => Some(&self.kitties[i]),
            None => None,
        }
    }

    pub fn kitty_at(&self, pos: Position) -> (r: Option<&Kitty>)
        ensures
            r is None <==> forall|j: int| 0 <= j < self.kitties@.len() ==> (#[trigger] self.kitties@[j]).pos != pos,
            r matches Some(k) ==> exists|i: int| first_on(self.kitties@, pos, i) && self.kitties@[i] == *k,
    {
        let mut i: usize = 0;
        while i < self.kitties.len()
            invariant
                i <= self.kitties@.len(),
                forall|j: int| 0 <= j < i ==> (#[trigger] self.kitties@[j]).pos != pos,
            decreases self.kitties@.len() - i,
        {
            if self.kitties[i].pos == pos {
                return Some(&self.kitties[i]);
            }
            i = i + 1;
        }
        None
    }

    pub fn element(&self, id: ElementId) -> (r: Option<&Element>)
        ensures
            r is None <==> forall|j: int| 0 <= j < self.elements@.len() ==> (#[trigger] self.elements@[j]).id != id,
            r matches Some(e) ==> exists|i: int| first_element(self.elements@, id, i) && self.elements@[i] == *e,
    {
        let mut i: usize = 0;
        while i < self.elements.len()
            invariant
                i <= self.elements@.len(),
                forall|j: int| 0 <= j < i ==> (#[trigger] self.elements@[j]).id != id,
            decreases self.elements@.len() - i,
        {
            if self.elements[i].id == id {
                return Some(&self.elements[i]);
            }
            i = i + 1;
        }
        None
    }

    pub fn element_at(&self, pos: Position) -> (r: Option<&Element>)
        ensures
            r is None <==> !occupied(self.elements@, pos),
            r matches Some(e) ==> exists|i: int| first_element_on(self.elements@, pos, i) && self.elements@[i] == *e,
    {
        let mut i: usize = 0;
        while i < self.elements.len()
            invariant
                i <= self.elements@.len(),
                forall|j: int| 0 <= j < i ==> (#[trigger] self.elements@[j]).pos != pos,
            decreases self.elements@.len() - i,
        {
            if self.elements[i].pos == pos {
                return Some(&self.elements[i]);
            }
            i = i + 1;
        }
        None
    }

    /// The nearest element of `kind` on or beside `pos`.
    pub fn adjacent_element(&self, pos: Position, kind: ElementType) -> (r: Option<&Element>)
        ensures
            r is None <==> forall|j: int| 0 <= j < self.elements@.len() ==> !near(#[trigger] self.elements@[j], pos, kind),
            r matches Some(e) ==> exists|i: int| nearest_at(self.elements@, pos, kind, i) && self.elements@[i] == *e,
    {
        adjacent_element_in(self.elements.as_slice(), pos, kind)
    }

    /// The bowl a kitty at `pos` would eat from, if it still holds a
    /// serving.
    pub fn adjacent_stocked_chow(&self, pos: Position) -> (r: Option<&Element>)
        ensures
            r is Some <==> exists|i: int|
                nearest_at(self.elements@, pos, ElementType::Chow, i) && self.elements@[i].kind.stocked(),
            r matches Some(e) ==> exists|i: int|
                nearest_at(self.elements@, pos, ElementType::Chow, i) && self.elements@[i] == *e,
    {
        adjacent_stocked_chow_in(self.elements.as_slice(), pos)
    }

    /// Whether any live critter stands on or beside `pos`.
    pub fn adjacent_critter(&self, pos: Position) -> (b: bool)
        ensures
            b == exists|i: int|
                0 <= i < self.elements@.len() && (#[trigger] self.elements@[i]).kind_type().critter()
                    && pos.manhattan(self.elements@[i].pos) <= 1,
    {
        adjacent_critter_in(self.elements.as_slice(), pos)
    }

    /// How many elements of `kind` the world holds.
    pub fn count_of(&self, kind: ElementType) -> (n: u32)
        ensures
            n == count_kind(self.elements@, kind) as u32,
    {
        let mut n: usize = 0;
        let mut i: usize = 0;
        while i < self.elements.len()
            invariant
                i <= self.elements@.len(),
                n == count_kind(self.elements@.subrange(0, i as int), kind),
                n <= i,
            decreases self.elements@.len() - i,
        {
            proof {
                let next = self.elements@.subrange(0, i as int + 1);
                assert(next.drop_last() == self.elements@.subrange(0, i as int));
            }
            if self.elements[i].element_type() == kind {
                n = n + 1;
            }
            i = i + 1;
        }
        assert(self.elements@.subrange(0, self.elements@.len() as int) == self.elements@);
        n as u32
    }

    /// Adds `element`, keeping the id counter past every id in use.
    pub fn push_element(&mut self, element: Element)
        requires
            element.id < u32::MAX,
        ensures
            final(self).elements@ == old(self).elements@.push(element),
            final(self).next_element_id == if old(self).next_element_id >= element.id + 1 {
                old(self).next_element_id
            } else {
                (element.id + 1) as u32
            },
            final(self).kitties@ == old(self).kitties@,
            final(self).width == old(self).width,
            final(self).height == old(self).height,
            final(self).tick == old(self).tick,
    {
        let bumped = element.id + 1;
        if self.next_element_id < bumped {
            self.next_element_id = bumped;
        }
        self.elements.push(element);
    }

    /// Issues a fresh element id: never 0 and never the reserved id.
    pub fn allocate_element_id(&mut self) -> (id: ElementId)
        ensures
            id == issued_id(old(self).next_element_id),
            id != 0,
            id != RESERVED_ELEMENT_ID,
            final(self).next_element_id == (if id == u32::MAX { 0 } else { id + 1 }) as u32,
            final(self).elements@ == old(self).elements@,
            final(self).rng@ == old(self).rng@,
            final(self).kitties@ == old(self).kitties@,
            final(self).width == old(self).width,
            final(self).height == old(self).height,
            final(self).tick == old(self).tick,
    {
        if self.next_element_id == 0 || self.next_element_id == RESERVED_ELEMENT_ID {
            self.next_element_id = 1;
        }
        let id = self.next_element_id;
        self.next_element_id = self.next_element_id.wrapping_add(1);
        id
    }

    /// The tiles no element lies on, in row-major order. Kitties do not
    /// block: sharing a tile is how eating, drinking and sunbathing work.
    pub fn free_element_tiles(&self) -> (free: Vec<Position>)
        ensures
            forall|k: int| 0 <= k < free@.len() ==> (#[trigger] free@[k]).inside(self.width as int, self.height as int)
                && !occupied(self.elements@, free@[k]),
            forall|p: Position| p.inside(self.width as int, self.height as int) && !occupied(self.elements@, p)
                ==> free@.contains(p),
            forall|a: int, b: int| 0 <= a < b < free@.len() ==> row_major_before(free@[a], free@[b]),
    {
        let mut free: Vec<Position> = Vec::new();
        let mut y: u32 = 0;
        while y < self.height
            invariant
                y <= self.height,
                forall|k: int| 0 <= k < free@.len() ==> (#[trigger] free@[k]).inside(self.width as int, self.height as int)
                    && !occupied(self.elements@, free@[k]) && free@[k].y < y,
                forall|p: Position| p.inside(self.width as int, self.height as int) && p.y < y && !occupied(self.elements@, p)
                    ==> free@.contains(p),
                forall|a: int, b: int| 0 <= a < b < free@.len() ==> row_major_before(free@[a], free@[b]),
            decreases self.height - y,
        {
            let mut x: u32 = 0;
            while x < self.width
                invariant
                    x <= self.width,
                    y < self.height,
                    forall|k: int| 0 <= k < free@.len() ==> (#[trigger] free@[k]).inside(self.width as int, self.height as int)
                        && !occupied(self.elements@, free@[k]) && (free@[k].y < y || (free@[k].y == y && free@[k].x < x)),
                    forall|p: Position| p.inside(self.width as int, self.height as int) && (p.y < y || (p.y == y && p.x < x))
                        && !occupied(self.elements@, p) ==> free@.contains(p),
                    forall|a: int, b: int| 0 <= a < b < free@.len() ==> row_major_before(free@[a], free@[b]),
                decreases self.width - x,
            {
                let pos = Position::new(x, y);
                if self.element_at(pos).is_none() {
                    let ghost before = free@;
                    free.push(pos);
                    proof {
                        assert forall|p: Position| p.inside(self.width as int, self.height as int) && (p.y < y || (p.y == y && p.x < x + 1))
                            && !occupied(self.elements@, p) implies free@.contains(p) by {
                            if p.y == y && p.x == x {
                                assert(free@[free@.len() - 1] == p);
                            } else {
                                assert(before.contains(p));
                                let k = choose|k: int| 0 <= k < before.len() && before[k] == p;
                                assert(free@[k] == p);
                            }
                        }
                    }
                } else {
                    proof {
                        assert forall|p: Position| p.inside(self.width as int, self.height as int) && (p.y < y || (p.y == y && p.x < x + 1))
                            && !occupied(self.elements@, p) implies free@.contains(p) by {
                            if p.y == y && p.x == x {
                                assert(p == pos);
                            }
                        }
                    }
                }
                x = x + 1;
            }
            y = y + 1;
        }
        free
    }

    /// Keeps the transient parts of the world bounded: drops the meows
    /// older than `recent_window_ticks` before the current tick, and every
    /// kitty's cooldown stamps that have already come due.
    pub fn prune_transient(&mut self, recent_window_ticks: u64)
        requires
            forall|i: int| 0 <= i < old(self).kitties@.len() ==> (#[trigger] old(self).kitties@[i]).wf(),
        ensures
            final(self).recent_meows@ == old(self).recent_meows@.filter(
                |m: Meow| m.tick >= meow_cutoff(old(self).tick, recent_window_ticks),
            ),
            forall|i: int|
                0 <= i < final(self).recent_meows@.len() ==> #[trigger] final(self).recent_meows@[i].tick
                    + recent_window_ticks >= final(self).tick,
            final(self).kitties@.len() == old(self).kitties@.len(),
            forall|i: int|
                0 <= i < old(self).kitties@.len() ==> {
                    let (k, k0) = (#[trigger] final(self).kitties@[i], old(self).kitties@[i]);
                    &&& k == (Kitty { meow_cooldowns: k.meow_cooldowns, ..k0 })
                    &&& k.wf()
                    &&& k.meow_cooldowns.stamps() == k0.meow_cooldowns.stamps().restrict(
                        k0.meow_cooldowns.stamps().dom().filter(
                            |c: MessageKind| k0.meow_cooldowns.stamps()[c] > old(self).tick,
                        ),
                    )
                },
            final(self).elements@ == old(self).elements@,
            final(self).tick == old(self).tick,
            final(self).width == old(self).width,
            final(self).height == old(self).height,
            final(self).next_element_id == old(self).next_element_id,
    {
        let cutoff: u64 = if self.tick >= recent_window_ticks {
            self.tick - recent_window_ticks
        } else {
            0
        };
        let ghost p = |m: Meow| m.tick >= meow_cutoff(old(self).tick, recent_window_ticks);
        let mut kept: Vec<Meow> = Vec::new();
        let mut i: usize = 0;
        while i < self.recent_meows.len()
            invariant
                i <= self.recent_meows@.len(),
                self.recent_meows@ == old(self).recent_meows@,
                cutoff == meow_cutoff(old(self).tick, recent_window_ticks),
                p == (|m: Meow| m.tick >= meow_cutoff(old(self).tick, recent_window_ticks)),
                kept@ == self.recent_meows@.subrange(0, i as int).filter(p),
            decreases self.recent_meows@.len() - i,
        {
            let ghost before = self.recent_meows@.subrange(0, i as int);
            assert(self.recent_meows@.subrange(0, i + 1) =~= before.push(self.recent_meows@[i as int]));
            proof {
                before.lemma_filter_push(self.recent_meows@[i as int], p);
            }
            let m = self.recent_meows[i];
            if m.tick >= cutoff {
                kept.push(m);
            }
            i = i + 1;
        }
        assert(self.recent_meows@.subrange(0, self.recent_meows@.len() as int) =~= self.recent_meows@);
        self.recent_meows = kept;
        proof {
            assert forall|q: int| 0 <= q < self.recent_meows@.len() implies #[trigger] self.recent_meows@[q].tick
                + recent_window_ticks >= self.tick by {
                old(self).recent_meows@.lemma_filter_pred(p, q);
            }
        }
        let tick = self.tick;
        let n = self.kitties.len();
        let mut j: usize = 0;
        while j < n
            invariant
                n == self.kitties@.len(),
                n == old(self).kitties@.len(),
                j <= n,
                tick == old(self).tick,
                self.tick == old(self).tick,
                self.elements@ == old(self).elements@,
                self.width == old(self).width,
                self.height == old(self).height,
                self.next_element_id == old(self).next_element_id,
                self.recent_meows@ == old(self).recent_meows@.filter(
                    |m: Meow| m.tick >= meow_cutoff(old(self).tick, recent_window_ticks),
                ),
                forall|q: int| j <= q < n ==> #[trigger] self.kitties@[q] == old(self).kitties@[q],
                forall|q: int|
                    0 <= q < j ==> {
                        let (k, k0) = (#[trigger] self.kitties@[q], old(self).kitties@[q]);
                        &&& k == (Kitty { meow_cooldowns: k.meow_cooldowns, ..k0 })
                        &&& k.wf()
                        &&& k.meow_cooldowns.stamps() == k0.meow_cooldowns.stamps().restrict(
                            k0.meow_cooldowns.stamps().dom().filter(
                                |c: MessageKind| k0.meow_cooldowns.stamps()[c] > tick,
                            ),
                        )
                    },
                forall|q: int| 0 <= q < n ==> (#[trigger] old(self).kitties@[q]).wf(),
            decreases n - j,
        {
            self.kitties[j].prune_meow_cooldowns(tick);
            j = j + 1;
        }
    }

    /// This tick's turn order: the kitties' ids shuffled by Fisher–Yates
    /// through the master generator, one draw per position from the last
    /// down to the second.
    pub fn draw_turn_order(&mut self) -> (order: Vec<KittyId>)
        requires
            old(self).kitties@.len() <= u32::MAX,
        ensures
            order@.len() == old(self).kitties@.len(),
            order@.to_multiset() == ids_of(old(self).kitties@).to_multiset(),
            (order@, final(self).rng@) == turn_order(ids_of(old(self).kitties@), old(self).rng@),
            final(self).kitties@ == old(self).kitties@,
            final(self).elements@ == old(self).elements@,
            final(self).tick == old(self).tick,
            final(self).width == old(self).width,
            final(self).height == old(self).height,
            final(self).next_element_id == old(self).next_element_id,
    {
        let mut order: Vec<KittyId> = Vec::new();
        let mut k: usize = 0;
        while k < self.kitties.len()
            invariant
                k <= self.kitties@.len(),
                order@ == ids_of(self.kitties@).subrange(0, k as int),
            decreases self.kitties@.len() - k,
        {
            order.push(self.kitties[k].id);
            k = k + 1;
            assert(order@ =~= ids_of(self.kitties@).subrange(0, k as int));
        }
        assert(order@ =~= ids_of(self.kitties@));
        let ghost ids = order@;
        let mut i: usize = order.len();
        while i > 1
            invariant
                1 <= i || order@.len() == 0,
                i <= order@.len(),
                order@.len() == ids.len(),
                order@.len() <= u32::MAX,
                order@.to_multiset() == ids.to_multiset(),
                ids == ids_of(old(self).kitties@),
                self.kitties@ == old(self).kitties@,
                self.elements@ == old(self).elements@,
                self.tick == old(self).tick,
                self.width == old(self).width,
                self.height == old(self).height,
                self.next_element_id == old(self).next_element_id,
                shuffled_from(order@, self.rng@, i as nat) == turn_order(ids, old(self).rng@),
            decreases i,
        {
            let ghost before = order@;
            let ghost state = self.rng@;
            i = i - 1;
            let j = self.rng.gen_range_u32(0, i as u32 + 1) as usize;
            let at_i = order[i];
            let at_j = order[j];
            proof {
                lemma_swap_keeps_multiset(order@, i as int, j as int);
            }
            order.set(i, at_j);
            order.set(j, at_i);
            assert(order@ == before.update(i as int, before[j as int]).update(j as int, before[i as int]));
        }
        order
    }

    /// Deals this tick's decision seeds: one draw of the master generator
    /// per kitty, in roster order, stamped with the tick.
    pub fn deal_decision_seeds(&mut self) -> (d: DealtSeeds)
        ensures
            d.dealt_tick() == old(self).tick,
            d.pairs().len() == old(self).kitties@.len(),
            forall|i: int| 0 <= i < d.pairs().len() ==> (#[trigger] d.pairs()[i]).0 == old(self).kitties@[i].id,
            forall|i: int|
                0 <= i < d.pairs().len() ==> (#[trigger] d.pairs()[i]).1 == chacha_word(
                    after_all(old(self).rng@, words(i as nat)),
                ),
            final(self).rng@ == after_all(old(self).rng@, words(old(self).kitties@.len())),
            final(self).kitties@ == old(self).kitties@,
            final(self).elements@ == old(self).elements@,
            final(self).tick == old(self).tick,
            final(self).next_element_id == old(self).next_element_id,
    {
        let mut seeds: Vec<(KittyId, u64)> = Vec::new();
        let mut k: usize = 0;
        assert(old(self).rng@.1 + words(0) =~= old(self).rng@.1);
        while k < self.kitties.len()
            invariant
                k <= self.kitties@.len(),
                self.kitties@ == old(self).kitties@,
                self.elements@ == old(self).elements@,
                self.tick == old(self).tick,
                self.next_element_id == old(self).next_element_id,
                seeds@.len() == k,
                forall|i: int| 0 <= i < k ==> (#[trigger] seeds@[i]).0 == self.kitties@[i].id,
                forall|i: int|
                    0 <= i < k ==> (#[trigger] seeds@[i]).1 == chacha_word(
                        after_all(old(self).rng@, words(i as nat)),
                    ),
                self.rng@ == after_all(old(self).rng@, words(k as nat)),
            decreases self.kitties@.len() - k,
        {
            let id = self.kitties[k].id;
            let seed = self.rng.next_u64();
            assert(old(self).rng@.1 + words(k as nat + 1) =~= (old(self).rng@.1 + words(k as nat)).push(
                Draw::Word,
            ));
            seeds.push((id, seed));
            k = k + 1;
        }
        DealtSeeds::minted(self.tick, seeds)
    }

    /// Moves the master generator past this tick's decision-seed draws
    /// without keeping the seeds.
    pub fn advance_past_decision_draws(&mut self)
        ensures
            final(self).rng@ == after_all(old(self).rng@, words(old(self).kitties@.len())),
            final(self).kitties@ == old(self).kitties@,
            final(self).elements@ == old(self).elements@,
            final(self).tick == old(self).tick,
            final(self).next_element_id == old(self).next_element_id,
    {
        let _ = self.deal_decision_seeds();
    }

    /// Where `target` stands, if it still exists.
    fn target_pos(&self, target: TargetRef) -> (r: Option<Position>)
        ensures
            r == target_position(self.kitties@, self.elements@, target),
    {
        match target {
            TargetRef::Element { id } => match self.element(id) {
                Some(e) => {
                    proof {
                        let i = choose|i: int| first_element(self.elements@, id, i) && self.elements@[i] == *e;
                        lemma_first_element_unique(self.elements@, id, i);
                    }
                    Some(e.pos)
                },
                None => None,
            },
            TargetRef::Kitty { id } => match self.kitty(id) {
                Some(k) => {
                    proof {
                        let i = choose|i: int| first_with_id(self.kitties@, id, i) && self.kitties@[i] == *k;
                        lemma_first_with_id_unique(self.kitties@, id, i);
                    }
                    Some(k.pos)
                },
                None => None,
            },
        }
    }

    /// Chase bookkeeping after `kitty_id`'s action `applied`: records which
    /// target, since when, how close it got and when that last improved,
    /// and writes off a chase that ran out its patience without gaining
    /// ground, excluding its target for a while. Other kitties, and every
    /// other part of this kitty, are untouched.
    pub fn update_pursuit(&mut self, kitty_id: KittyId, applied: Action, rules: &ChaseRules)
        requires
            old(self).tick + rules.chase_exclusion_ticks <= u64::MAX,
            forall|i: int|
                #![trigger first_with_id(old(self).kitties@, kitty_id, i)]
                first_with_id(old(self).kitties@, kitty_id, i) ==> (applied matches Action::Chase(t)
                    ==> (target_position(old(self).kitties@, old(self).elements@, t) matches Some(tp)
                    ==> old(self).kitties@[i].pos.manhattan(tp) <= u32::MAX)),
        ensures
            final(self).kitties@.len() == old(self).kitties@.len(),
            final(self).elements@ == old(self).elements@,
            final(self).tick == old(self).tick,
            final(self).next_element_id == old(self).next_element_id,
            forall|i: int|
                0 <= i < old(self).kitties@.len() && !first_with_id(old(self).kitties@, kitty_id, i)
                    ==> #[trigger] final(self).kitties@[i] == old(self).kitties@[i],
            forall|i: int|
                #[trigger] first_with_id(old(self).kitties@, kitty_id, i) ==> {
                    let books = chase_books(
                        old(self).kitties@[i],
                        old(self).kitties@,
                        old(self).elements@,
                        old(self).tick,
                        applied,
                        *rules,
                    );
                    &&& final(self).kitties@[i].same_but_chase(old(self).kitties@[i])
                    &&& final(self).kitties@[i].pursuit == books.0
                    &&& final(self).kitties@[i].abandoned_chases@ == books.1
                },
    {
        let tick = self.tick;
        let idx = match self.kitty_index(kitty_id) {
            Some(i) => i,
            None => {
                return;
            },
        };
        proof {
            lemma_first_with_id_unique(self.kitties@, kitty_id, idx as int);
        }
        let ghost k0 = self.kitties@[idx as int];
        let ghost ks0 = self.kitties@;
        let ghost es0 = self.elements@;
        let ghost pred = |a: AbandonedChase| a.until > tick;

        let mut kept: Vec<AbandonedChase> = Vec::new();
        let mut j: usize = 0;
        while j < self.kitties[idx].abandoned_chases.len()
            invariant
                self.kitties@ == ks0,
                idx < ks0.len(),
                k0 == ks0[idx as int],
                j <= k0.abandoned_chases@.len(),
                kept@ == k0.abandoned_chases@.subrange(0, j as int).filter(pred),
                pred == (|a: AbandonedChase| a.until > tick),
            decreases k0.abandoned_chases@.len() - j,
        {
            let a = self.kitties[idx].abandoned_chases[j];
            proof {
                let next = k0.abandoned_chases@.subrange(0, j as int + 1);
                assert(next.drop_last() == k0.abandoned_chases@.subrange(0, j as int));
                reveal(Seq::filter);
            }
            if a.until > tick {
                kept.push(a);
            }
            j = j + 1;
        }
        proof {
            assert(k0.abandoned_chases@.subrange(0, k0.abandoned_chases@.len() as int) == k0.abandoned_chases@);
        }

        let mut pursuit = self.kitties[idx].pursuit;
        if let Some(p) = pursuit {
            if self.target_pos(p.target).is_none() {
                pursuit = None;
            }
        }
        let kitty_pos = self.kitties[idx].pos;
        let stale = match pursuit {
            Some(p) => {
                let last = p.last_progress();
                let gap: u64 = if tick >= last {
                    tick - last
                } else {
                    0
                };
                gap >= rules.chase_patience_ticks
            },
            None => false,
        };

        let mut new_pursuit: Option<Pursuit> = pursuit;
        match applied {
            Action::Chase(target) => {
                if let Some(p) = pursuit {
                    if p.target != target && stale {
                        kept.push(
                            AbandonedChase { target: p.target, until: tick + rules.chase_exclusion_ticks },
                        );
                    }
                }
                match self.target_pos(target) {
                    None => {
                        new_pursuit = None;
                    },
                    Some(target_pos) => {
                        let distance = kitty_pos.manhattan_distance(&target_pos);
                        new_pursuit = Some(
                            match pursuit {
                                Some(p) => {
                                    if p.target == target {
                                        Pursuit {
                                            target,
                                            started: p.started,
                                            closest: if distance < p.closest {
                                                distance
                                            } else {
                                                p.closest
                                            },
                                            improved_at: if distance < p.closest {
                                                tick
                                            } else {
                                                p.improved_at
                                            },
                                        }
                                    } else {
                                        Pursuit { target, started: tick, closest: distance, improved_at: tick }
                                    }
                                },
                                None => Pursuit {
                                    target,
                                    started: tick,
                                    closest: distance,
                                    improved_at: tick,
                                },
                            },
                        );
                    },
                }
            },
            _ => {
                let caught = match (applied, pursuit) {
                    (Action::Play { target: Some(t) }, Some(p)) => p.target == t,
                    _ => false,
                };
                if caught {
                    new_pursuit = None;
                } else if let Some(p) = pursuit {
                    if stale {
                        kept.push(
                            AbandonedChase { target: p.target, until: tick + rules.chase_exclusion_ticks },
                        );
                        new_pursuit = None;
                    }
                }
            },
        }
        self.kitties[idx].abandoned_chases = kept;
        self.kitties[idx].pursuit = new_pursuit;
    }

    /// Moves element `idx` one tile in `dir` when the destination is on the
    /// grid and no other element already lies there; otherwise nothing
    /// moves.
    pub fn try_step_element(&mut self, idx: usize, dir: Direction)
        ensures
            final(self).elements@ == match step_target(
                old(self).elements@,
                idx as int,
                dir,
                old(self).width,
                old(self).height,
            ) {
                Some(dest) => old(self).elements@.update(
                    idx as int,
                    Element { pos: dest, ..old(self).elements@[idx as int] },
                ),
                None => old(self).elements@,
            },
            one_per_tile_of(old(self).elements@) ==> one_per_tile_of(final(self).elements@),
            final(self).kitties@ == old(self).kitties@,
            final(self).rng@ == old(self).rng@,
            final(self).width == old(self).width,
            final(self).height == old(self).height,
            final(self).tick == old(self).tick,
            final(self).next_element_id == old(self).next_element_id,
    {
        if idx >= self.elements.len() {
            return;
        }
        let dest = match self.elements[idx].pos.step(dir, self.width, self.height) {
            Some(d) => d,
            None => {
                return;
            },
        };
        let mut i: usize = 0;
        while i < self.elements.len()
            invariant
                i <= self.elements@.len(),
                idx < self.elements@.len(),
                self.elements@ == old(self).elements@,
                self.width == old(self).width,
                self.height == old(self).height,
                old(self).elements@[idx as int].pos.stepped(dir, self.width as int, self.height as int)
                    == Some(dest),
                forall|j: int| 0 <= j < i && j != idx ==> (#[trigger] self.elements@[j]).pos != dest,
            decreases self.elements@.len() - i,
        {
            if i != idx && self.elements[i].pos == dest {
                assert(old(self).elements@[i as int].pos == dest);
                return;
            }
            i = i + 1;
        }
        let ghost before = self.elements@;
        self.elements[idx].pos = dest;
        proof {
            assert(self.elements@ =~= before.update(idx as int, Element { pos: dest, ..before[idx as int] }));
            if one_per_tile_of(before) {
                assert forall|a: int, b: int| 0 <= a < b < self.elements@.len() implies (#[trigger] self.elements@[a]).pos
                    != (#[trigger] self.elements@[b]).pos by {
                    if a != idx && b != idx {
                        assert(self.elements@[a] == before[a]);
                        assert(self.elements@[b] == before[b]);
                    } else if a == idx {
                        assert(before[b].pos != dest);
                    } else {
                        assert(before[a].pos != dest);
                    }
                }
            }
        }
    }

    /// Counts every timed element down one tick and drops the expired:
    /// run-out timers and emptied bowls. Kitties are never touched.
    pub fn expire_elements(&mut self)
        ensures
            final(self).elements@ == survivors(old(self).elements@),
            one_per_tile_of(old(self).elements@) ==> one_per_tile_of(final(self).elements@),
            forall|i: int| 0 <= i < final(self).elements@.len() ==> !(#[trigger] final(self).elements@[i]).expired(),
            final(self).kitties@ == old(self).kitties@,
            final(self).width == old(self).width,
            final(self).height == old(self).height,
            final(self).tick == old(self).tick,
            final(self).next_element_id == old(self).next_element_id,
    {
        let ghost olds = self.elements@;
        let ghost ticked_all = olds.map_values(|e: Element| ticked(e));
        let ghost keep = |e: Element| !e.expired();
        let mut kept: Vec<Element> = Vec::new();
        let mut i: usize = 0;
        while i < self.elements.len()
            invariant
                i <= olds.len(),
                self.elements@ == olds,
                ticked_all == olds.map_values(|e: Element| ticked(e)),
                keep == (|e: Element| !e.expired()),
                kept@ == ticked_all.subrange(0, i as int).filter(keep),
            decreases olds.len() - i,
        {
            let mut e = self.elements[i];
            e.tick_ttl();
            proof {
                assert(e == ticked(olds[i as int]));
                let next = ticked_all.subrange(0, i as int + 1);
                assert(next.drop_last() =~= ticked_all.subrange(0, i as int));
                assert(next.last() == e);
                reveal(Seq::filter);
            }
            if !e.is_expired() {
                kept.push(e);
            }
            i = i + 1;
        }
        proof {
            assert(ticked_all.subrange(0, olds.len() as int) =~= ticked_all);
            let out = ticked_all.filter(keep);
            assert forall|k: int| 0 <= k < out.len() implies !(#[trigger] out[k]).expired() by {
                ticked_all.lemma_filter_pred(keep, k);
            }
            if one_per_tile_of(olds) {
                lemma_filter_keeps_one_per_tile(ticked_all, keep);
            }
        }
        self.elements = kept;
    }

    /// A friend who can be drawn into a duet right now: available to `me`
    /// and doing nothing.
    pub fn is_available_friend(&self, me: KittyId, friend: KittyId) -> (b: bool)
        ensures
            b == match found_kitty(self.kitties@, me) {
                Some(k) => friend_available(self.kitties@, k, friend),
                None => false,
            },
    {
        match position_of_kitty(self.kitties.as_slice(), me) {
            Some(i) => available_friend_in(self.kitties.as_slice(), &self.kitties[i], friend),
            None => false,
        }
    }

    /// Available and idle: a kitty mid-activity cannot be conscripted out
    /// of it, and a sleeping cat is never yanked awake.
    pub fn is_conscriptable_friend(&self, me: KittyId, friend: KittyId) -> (b: bool)
        ensures
            b == (match found_kitty(self.kitties@, me) {
                Some(k) => friend_available(self.kitties@, k, friend),
                None => false,
            } && match found_kitty(self.kitties@, friend) {
                Some(f) => f.activity_clock is None,
                None => false,
            }),
    {
        self.is_available_friend(me, friend) && match position_of_kitty(
            self.kitties.as_slice(),
            friend,
        ) {
            Some(i) => self.kitties[i].activity_clock.is_none(),
            None => false,
        }
    }

    /// Whether the kitty is settled in a pile: sleeping or resting.
    pub fn is_settled(&self, id: KittyId) -> (b: bool)
        ensures
            b == match found_kitty(self.kitties@, id) {
                Some(k) => k.activity matches Activity::Sleeping { .. } || k.activity matches Activity::Resting { .. },
                None => false,
            },
    {
        match position_of_kitty(self.kitties.as_slice(), id) {
            Some(i) => match self.kitties[i].activity {
                Activity::Sleeping { .. } | Activity::Resting { .. } => true,
                _ => false,
            },
            None => false,
        }
    }

    /// Whether `kitty_id`'s ongoing activity has lost its counterpart.
    pub fn counterpart_gone(&self, kitty_id: KittyId) -> (b: bool)
        ensures
            b == match found_kitty(self.kitties@, kitty_id) {
                Some(k) => scene_gone(k, self.kitties@, self.elements@),
                None => false,
            },
    {
        match position_of_kitty(self.kitties.as_slice(), kitty_id) {
            Some(i) => counterpart_gone_in(
                &self.kitties[i],
                self.kitties.as_slice(),
                self.elements.as_slice(),
            ),
            None => false,
        }
    }

    /// The duration law's ruling for `validated` this tick.
    pub fn duration_ruling(&self, kitty_id: KittyId, validated: &Action, durations: &DurationsConfig) -> (r:
        DurationRuling)
        ensures
            r == ruling_of(self.kitties@, kitty_id, *validated, *durations, self.tick),
    {
        let i = match position_of_kitty(self.kitties.as_slice(), kitty_id) {
            Some(i) => i,
            None => {
                return DurationRuling::NotGoverned;
            },
        };
        let clock = match self.kitties[i].activity_clock {
            Some(c) => c,
            None => {
                return DurationRuling::NotGoverned;
            },
        };
        let activity = self.kitties[i].activity;
        match (activity.continuation(), activity.bounds(durations)) {
            (Some(continuation), Some(bounds)) => {
                if activity.is_continued_by(validated) {
                    return DurationRuling::Continue(continuation);
                }
                if clock.serviced_before(self.tick) < bounds.min {
                    return DurationRuling::Continue(continuation);
                }
                DurationRuling::Interrupt
            },
            _ => DurationRuling::NotGoverned,
        }
    }

    /// What duration enforcement would make of `validated` this tick,
    /// without ending anything.
    pub fn enforcement_verdict(&self, kitty_id: KittyId, validated: &Action, durations: &DurationsConfig) -> (a:
        Action)
        ensures
            a == match ruling_of(self.kitties@, kitty_id, *validated, *durations, self.tick) {
                DurationRuling::Continue(c) => c,
                _ => *validated,
            },
    {
        match self.duration_ruling(kitty_id, validated, durations) {
            DurationRuling::NotGoverned | DurationRuling::Interrupt => *validated,
            DurationRuling::Continue(continuation) => continuation,
        }
    }

    /// Brings the first kitty carrying `id` to rest, recording its scene's
    /// end if a clock was running.
    fn end_one(&mut self, id: KittyId)
        ensures
            rested(old(self).kitties@, id, final(self).kitties@),
            final(self).pending_endings@ == old(self).pending_endings@ + scene_end(old(self).kitties@, id),
            final(self).activity_log.items() == logged(
                old(self).activity_log.items(),
                old(self).activity_log.cap(),
                scene_end(old(self).kitties@, id),
            ),
            final(self).activity_log.cap() == old(self).activity_log.cap(),
            final(self).elements@ == old(self).elements@,
            final(self).tick == old(self).tick,
            final(self).width == old(self).width,
            final(self).height == old(self).height,
            final(self).next_element_id == old(self).next_element_id,
    {
        match self.kitty_index(id) {
            Some(idx) => {
                proof {
                    lemma_first_with_id_unique(self.kitties@, id, idx as int);
                }
                match self.kitties[idx].activity_clock {
                    Some(clock) => {
                        let end = ActivityEnd {
                            kitty_id: id,
                            activity: self.kitties[idx].activity,
                            started: clock.started,
                            ended: clock.applied,
                            mutual_ticks: clock.mutual_ticks,
                            drip_ticks: clock.drip_ticks,
                        };
                        let ghost items0 = self.activity_log.items();
                        self.activity_log.record(end);
                        self.pending_endings.push(end);
                        proof {
                            let ends = scene_end(old(self).kitties@, id);
                            assert(ends == seq![end]);
                            assert(ends.drop_first().len() == 0);
                            reveal_with_fuel(logged, 2);
                            assert(logged(items0, old(self).activity_log.cap(), ends) == crate::events::keep_last(
                                items0.push(end),
                                crate::events::bound(old(self).activity_log.cap()),
                            ));
                        }
                    },
                    None => {
                        proof {
                            assert(scene_end(old(self).kitties@, id).len() == 0);
                            assert(self.pending_endings@ + scene_end(old(self).kitties@, id) == self.pending_endings@);
                        }
                    },
                }
                self.kitties[idx].clear_activity();
            },
            None => {
                assert(old(self).pending_endings@ + Seq::<ActivityEnd>::empty() == old(self).pending_endings@);
            },
        }
    }

    /// Ends `kitty_id`'s activity and its duet partner's with it: a duet
    /// never survives one-sided. Each cleared scene with a running clock
    /// records one end, with the span its clock witnessed.
    pub fn end_activity(&mut self, kitty_id: KittyId)
        ensures
            final(self).kitties@.len() == old(self).kitties@.len(),
            forall|i: int|
                0 <= i < old(self).kitties@.len() ==> if first_with_id(old(self).kitties@, kitty_id, i)
                    || (duet_partner_of(old(self).kitties@, kitty_id) matches Some(pid)
                    && first_with_id(old(self).kitties@, pid, i)) {
                    &&& (#[trigger] final(self).kitties@[i]).activity == Activity::Idle
                    &&& final(self).kitties@[i].activity_clock is None
                    &&& final(self).kitties@[i].same_but_activity(old(self).kitties@[i])
                } else {
                    final(self).kitties@[i] == old(self).kitties@[i]
                },
            final(self).kitties@ == ended(old(self).kitties@, kitty_id),
            final(self).pending_endings@ == old(self).pending_endings@ + activity_ends(
                old(self).kitties@,
                kitty_id,
            ),
            final(self).activity_log.items() == logged(
                old(self).activity_log.items(),
                old(self).activity_log.cap(),
                activity_ends(old(self).kitties@, kitty_id),
            ),
            final(self).activity_log.cap() == old(self).activity_log.cap(),
            final(self).elements@ == old(self).elements@,
            final(self).tick == old(self).tick,
            final(self).width == old(self).width,
            final(self).height == old(self).height,
            final(self).next_element_id == old(self).next_element_id,
    {
        self.end_pair(kitty_id);
        proof {
            assert forall|i: int| 0 <= i < self.kitties@.len() implies #[trigger] self.kitties@[i] == ended(
                old(self).kitties@,
                kitty_id,
            )[i] by {
                if first_with_id(old(self).kitties@, kitty_id, i) || (duet_partner_of(
                    old(self).kitties@,
                    kitty_id,
                ) matches Some(pid) && first_with_id(old(self).kitties@, pid, i)) {
                    assert(self.kitties@[i].same_but_activity(old(self).kitties@[i]));
                }
            }
            assert(self.kitties@ =~= ended(old(self).kitties@, kitty_id));
        }
    }

    /// Ends `kitty_id`'s scene, then its duet partner's.
    fn end_pair(&mut self, kitty_id: KittyId)
        ensures
            final(self).kitties@.len() == old(self).kitties@.len(),
            forall|i: int|
                0 <= i < old(self).kitties@.len() ==> if first_with_id(old(self).kitties@, kitty_id, i)
                    || (duet_partner_of(old(self).kitties@, kitty_id) matches Some(pid)
                    && first_with_id(old(self).kitties@, pid, i)) {
                    &&& (#[trigger] final(self).kitties@[i]).activity == Activity::Idle
                    &&& final(self).kitties@[i].activity_clock is None
                    &&& final(self).kitties@[i].same_but_activity(old(self).kitties@[i])
                } else {
                    final(self).kitties@[i] == old(self).kitties@[i]
                },
            final(self).pending_endings@ == old(self).pending_endings@ + activity_ends(
                old(self).kitties@,
                kitty_id,
            ),
            final(self).activity_log.items() == logged(
                old(self).activity_log.items(),
                old(self).activity_log.cap(),
                activity_ends(old(self).kitties@, kitty_id),
            ),
            final(self).activity_log.cap() == old(self).activity_log.cap(),
            final(self).elements@ == old(self).elements@,
            final(self).tick == old(self).tick,
            final(self).width == old(self).width,
            final(self).height == old(self).height,
            final(self).next_element_id == old(self).next_element_id,
    {
        let partner = match position_of_kitty(self.kitties.as_slice(), kitty_id) {
            Some(i) => self.kitties[i].activity.duet_partner(),
            None => None,
        };
        let ghost k0 = self.kitties@;
        let ghost p0 = self.pending_endings@;
        let ghost l0 = self.activity_log.items();
        self.end_one(kitty_id);
        let ghost k1 = self.kitties@;
        let ghost l1 = self.activity_log.items();
        match partner {
            Some(pid) => {
                self.end_one(pid);
                proof {
                    lemma_rest_partner(k0, k1, kitty_id, pid);
                    lemma_logged_concat(
                        l0,
                        self.activity_log.cap(),
                        scene_end(k0, kitty_id),
                        scene_end(k1, pid),
                    );
                    assert(p0 + scene_end(k0, kitty_id) + scene_end(k1, pid) == p0 + (scene_end(
                        k0,
                        kitty_id,
                    ) + scene_end(k1, pid)));
                }
            },
            None => {
                proof {
                    assert(scene_end(k0, kitty_id) + Seq::<ActivityEnd>::empty() == scene_end(
                        k0,
                        kitty_id,
                    ));
                }
            },
        }
    }

    /// The ids of this tick's waterline-contagion members, when contagion
    /// is in force (`enabled`): see `contagion_member`. A kitty admitted
    /// by both roles, or named by several wet kitties, is one member.
    pub fn contagion_members(&self, membership: ContagionMembership, enabled: bool) -> (v: Vec<KittyId>)
        ensures
            forall|id: KittyId|
                v@.contains(id) <==> (enabled && exists|j: int|
                    0 <= j < self.kitties@.len() && (#[trigger] self.kitties@[j]).id == id
                        && contagion_member(
                        self.kitties@,
                        self.elements@,
                        j,
                        membership == ContagionMembership::Bidirectional,
                    )),
    {
        if !enabled {
            return Vec::new();
        }
        let ks = &self.kitties;
        let water = water_tiles(&self.elements);
        let bidirectional = !membership.is_option_a();
        let n = ks.len();

        let mut wet: Vec<KittyId> = Vec::new();
        let mut i: usize = 0;
        while i < n
            invariant
                n == ks@.len(),
                i <= n,
                forall|p: Position| water@.contains(p) <==> water_at(self.elements@, p),
                forall|id: KittyId|
                    wet@.contains(id) <==> exists|w: int|
                        0 <= w < i && (#[trigger] ks@[w]).id == id && water_at(self.elements@, ks@[w].pos),
            decreases n - i,
        {
            let ghost before = wet@;
            if contains_pos(&water, ks[i].pos) {
                wet.push(ks[i].id);
            }
            proof {
                assert forall|id: KittyId|
                    wet@.contains(id) <==> exists|w: int|
                        0 <= w < i + 1 && (#[trigger] ks@[w]).id == id && water_at(self.elements@, ks@[w].pos) by {
                    if wet@.contains(id) && !before.contains(id) {
                        assert(ks@[i as int].id == id);
                    }
                    if before.contains(id) {
                        let k = choose|k: int| 0 <= k < before.len() && before[k] == id;
                        assert(wet@[k] == id);
                    }
                    if exists|w: int| 0 <= w < i + 1 && (#[trigger] ks@[w]).id == id && water_at(self.elements@, ks@[w].pos) {
                        let w = choose|w: int| 0 <= w < i + 1 && (#[trigger] ks@[w]).id == id && water_at(self.elements@, ks@[w].pos);
                        if w == i {
                            assert(wet@[wet@.len() - 1] == id);
                        }
                    }
                }
            }
            i = i + 1;
        }

        let mut namers: Vec<(KittyId, KittyId)> = Vec::new();
        if bidirectional {
            let mut w: usize = 0;
            while w < n
                invariant
                    n == ks@.len(),
                    w <= n,
                    forall|id: KittyId| wet@.contains(id) <==> wet_id(ks@, self.elements@, id),
                    forall|pair: (KittyId, KittyId)|
                        namers@.contains(pair) <==> exists|x: int|
                            0 <= x < w && (#[trigger] ks@[x]).id == pair.0 && wet_id(ks@, self.elements@, ks@[x].id)
                                && ks@[x].activity.partner_of() == Some(pair.1),
                decreases n - w,
            {
                let ghost before = namers@;
                if contains_id(&wet, ks[w].id) {
                    if let Some(named) = ks[w].activity.partner() {
                        namers.push((ks[w].id, named));
                    }
                }
                proof {
                    assert forall|pair: (KittyId, KittyId)|
                        namers@.contains(pair) <==> exists|x: int|
                            0 <= x < w + 1 && (#[trigger] ks@[x]).id == pair.0 && wet_id(ks@, self.elements@, ks@[x].id)
                                && ks@[x].activity.partner_of() == Some(pair.1) by {
                        if namers@.contains(pair) && !before.contains(pair) {
                            assert(ks@[w as int].id == pair.0);
                        }
                        if before.contains(pair) {
                            let k = choose|k: int| 0 <= k < before.len() && before[k] == pair;
                            assert(namers@[k] == pair);
                        }
                        if exists|x: int| 0 <= x < w + 1 && (#[trigger] ks@[x]).id == pair.0 && wet_id(ks@, self.elements@, ks@[x].id)
                            && ks@[x].activity.partner_of() == Some(pair.1) {
                            let x = choose|x: int| 0 <= x < w + 1 && (#[trigger] ks@[x]).id == pair.0 && wet_id(ks@, self.elements@, ks@[x].id)
                                && ks@[x].activity.partner_of() == Some(pair.1);
                            if x == w {
                                assert(namers@[namers@.len() - 1] == pair);
                            }
                        }
                    }
                }
                w = w + 1;
            }
        }
        proof {
            assert(forall|id: KittyId| wet@.contains(id) <==> wet_id(ks@, self.elements@, id));
        }

        let mut out: Vec<KittyId> = Vec::new();
        let mut j: usize = 0;
        while j < n
            invariant
                n == ks@.len(),
                j <= n,
                ks@ == self.kitties@,
                bidirectional == (membership == ContagionMembership::Bidirectional),
                forall|p: Position| water@.contains(p) <==> water_at(self.elements@, p),
                forall|id: KittyId| wet@.contains(id) <==> wet_id(ks@, self.elements@, id),
                forall|pair: (KittyId, KittyId)|
                    namers@.contains(pair) <==> (bidirectional && exists|x: int|
                        0 <= x < n && (#[trigger] ks@[x]).id == pair.0 && wet_id(ks@, self.elements@, ks@[x].id)
                            && ks@[x].activity.partner_of() == Some(pair.1)),
                forall|id: KittyId|
                    out@.contains(id) <==> exists|x: int|
                        0 <= x < j && (#[trigger] ks@[x]).id == id && contagion_member(
                            ks@,
                            self.elements@,
                            x,
                            bidirectional,
                        ),
            decreases n - j,
        {
            let k = &ks[j];
            let ghost before = out@;
            let mut member = false;
            if !contains_pos(&water, k.pos) {
                let own = match k.activity.partner() {
                    Some(p) => contains_id(&wet, p) && self.is_available_friend(k.id, p),
                    None => false,
                };
                let mut other = false;
                let mut q: usize = 0;
                while q < namers.len()
                    invariant
                        q <= namers@.len(),
                        other == exists|r: int|
                            0 <= r < q && (#[trigger] namers@[r]).1 == k.id && available_to(
                                self.kitties@,
                                namers@[r].0,
                                k.id,
                            ),
                    decreases namers@.len() - q,
                {
                    let (w, named) = namers[q];
                    if named == k.id && self.is_available_friend(w, k.id) {
                        other = true;
                    }
                    q = q + 1;
                }
                member = own || other;
                proof {
                    if other {
                        let r = choose|r: int|
                            0 <= r < namers@.len() && (#[trigger] namers@[r]).1 == k.id && available_to(
                                self.kitties@,
                                namers@[r].0,
                                k.id,
                            );
                        assert(namers@.contains(namers@[r]));
                        let x = choose|x: int|
                            0 <= x < n && (#[trigger] ks@[x]).id == namers@[r].0 && wet_id(
                                ks@,
                                self.elements@,
                                ks@[x].id,
                            ) && ks@[x].activity.partner_of() == Some(namers@[r].1);
                        assert(bidirectional);
                        assert(ks@[x].activity.partner_of() == Some(k.id));
                    }
                    if bidirectional && exists|x: int|
                        0 <= x < n && wet_id(ks@, self.elements@, (#[trigger] ks@[x]).id)
                            && ks@[x].activity.partner_of() == Some(k.id) && available_to(
                            ks@,
                            ks@[x].id,
                            k.id,
                        ) {
                        let x = choose|x: int|
                            0 <= x < n && wet_id(ks@, self.elements@, (#[trigger] ks@[x]).id)
                                && ks@[x].activity.partner_of() == Some(k.id) && available_to(
                                ks@,
                                ks@[x].id,
                                k.id,
                            );
                        let pair = (ks@[x].id, k.id);
                        assert(namers@.contains(pair));
                        let r = choose|r: int| 0 <= r < namers@.len() && namers@[r] == pair;
                        assert(other);
                    }
                }
            }
            assert(member == contagion_member(ks@, self.elements@, j as int, bidirectional));
            if member {
                out.push(k.id);
            }
            proof {
                assert forall|id: KittyId|
                    out@.contains(id) <==> exists|x: int|
                        0 <= x < j + 1 && (#[trigger] ks@[x]).id == id && contagion_member(
                            ks@,
                            self.elements@,
                            x,
                            bidirectional,
                        ) by {
                    if out@.contains(id) && !before.contains(id) {
                        assert(ks@[j as int].id == id);
                    }
                    if before.contains(id) {
                        let k2 = choose|k2: int| 0 <= k2 < before.len() && before[k2] == id;
                        assert(out@[k2] == id);
                    }
                    if exists|x: int|
                        0 <= x < j + 1 && (#[trigger] ks@[x]).id == id && contagion_member(
                            ks@,
                            self.elements@,
                            x,
                            bidirectional,
                        ) {
                        let x = choose|x: int|
                            0 <= x < j + 1 && (#[trigger] ks@[x]).id == id && contagion_member(
                                ks@,
                                self.elements@,
                                x,
                                bidirectional,
                            );
                        if x == j {
                            assert(out@[out@.len() - 1] == id);
                        }
                    }
                }
            }
            j = j + 1;
        }
        out
    }

    /// The refusal stamp of one apply slot: a non-idle `proposal` that
    /// validation resolved to idle is recorded on the tick it was heard,
    /// `absorbed` when duration enforcement still continued the kitty's
    /// scene. A legal proposal, or an idle one, records nothing.
    pub fn stamp_refusal(&mut self, kitty_id: KittyId, proposal: Action, validated: Action, enforced: Action)
        ensures
            final(self).refusal_log.items() == if proposal != Action::Idle && validated == Action::Idle {
                keep_last(
                    old(self).refusal_log.items().push(
                        RefusalEvent {
                            kitty_id,
                            proposed: proposal,
                            tick: old(self).tick,
                            absorbed: enforced != Action::Idle,
                        },
                    ),
                    bound(old(self).refusal_log.cap()),
                )
            } else {
                old(self).refusal_log.items()
            },
            final(self).refusal_log.cap() == old(self).refusal_log.cap(),
            final(self).kitties@ == old(self).kitties@,
            final(self).elements@ == old(self).elements@,
            final(self).tick == old(self).tick,
            final(self).width == old(self).width,
            final(self).height == old(self).height,
            final(self).next_element_id == old(self).next_element_id,
    {
        if proposal != Action::Idle && validated == Action::Idle {
            let event = RefusalEvent {
                kitty_id,
                proposed: proposal,
                tick: self.tick,
                absorbed: enforced != Action::Idle,
            };
            self.refusal_log.record(event);
        }
    }

    /// One purr-duration draw from the master generator, shared by the
    /// motor and the deliberate purr: a duration in `[min_ticks,
    /// max_ticks]`. The generator is consulted even when the bounds are
    /// equal, so configuration never changes whether a draw happens.
    pub fn draw_purr_duration(&mut self, min_ticks: u64, max_ticks: u64) -> (d: u64)
        requires
            crate::config::purr_ticks_fault(min_ticks, max_ticks) is None,
        ensures
            min_ticks <= d <= max_ticks,
            d == min_ticks + chacha_in_range(
                old(self).rng@,
                Draw::RangeU32 { low: 0, high: (max_ticks - min_ticks + 1) as u32 },
            ),
            final(self).rng@ == after(
                old(self).rng@,
                Draw::RangeU32 { low: 0, high: (max_ticks - min_ticks + 1) as u32 },
            ),
            final(self).kitties@ == old(self).kitties@,
            final(self).elements@ == old(self).elements@,
            final(self).tick == old(self).tick,
            final(self).width == old(self).width,
            final(self).height == old(self).height,
            final(self).next_element_id == old(self).next_element_id,
    {
        let span = (max_ticks - min_ticks + 1) as u32;
        min_ticks + self.rng.gen_range_u32(0, span) as u64
    }

    /// The announce-arming edge rule: a need arms at or above the announce
    /// threshold, disarms below the hysteresis band under it, and holds
    /// whatever it was inside the band, so the word mask cannot flicker
    /// across one errand. `bands` is the host's reading of each need
    /// against the threshold, one row per kitty in roster order.
    pub fn update_announce_arming(&mut self, bands: &[[ArmingBand; 6]])
        requires
            bands@.len() == old(self).kitties@.len(),
        ensures
            final(self).kitties@.len() == old(self).kitties@.len(),
            forall|i: int|
                0 <= i < old(self).kitties@.len() ==> arming_updated(
                    old(self).kitties@[i],
                    bands@[i],
                    #[trigger] final(self).kitties@[i],
                ),
            final(self).elements@ == old(self).elements@,
            final(self).tick == old(self).tick,
            final(self).width == old(self).width,
            final(self).height == old(self).height,
            final(self).next_element_id == old(self).next_element_id,
            final(self).distress.items() == old(self).distress.items(),
    {
        broadcast use vstd::array::group_array_axioms;

        let n = self.kitties.len();
        let mut i: usize = 0;
        while i < n
            invariant
                n == self.kitties@.len(),
                n == old(self).kitties@.len(),
                n == bands@.len(),
                i <= n,
                self.tick == old(self).tick,
                self.elements@ == old(self).elements@,
                self.width == old(self).width,
                self.height == old(self).height,
                self.next_element_id == old(self).next_element_id,
                self.distress == old(self).distress,
                forall|j: int| i <= j < n ==> #[trigger] self.kitties@[j] == old(self).kitties@[j],
                forall|j: int|
                    0 <= j < i ==> arming_updated(old(self).kitties@[j], bands@[j], #[trigger] self.kitties@[j]),
            decreases n - i,
        {
            let row = bands[i];
            let ghost k_old = self.kitties@[i as int];
            let mut armed = self.kitties[i].announce_armed;
            let mut s: usize = 0;
            while s < 6
                invariant
                    s <= 6,
                    armed@ == armed_after(k_old, row).subrange(0, s as int) + k_old.announce_armed@.subrange(
                        s as int,
                        6,
                    ),
                decreases 6 - s,
            {
                match row[s] {
                    ArmingBand::AtOrAbove => armed[s] = true,
                    ArmingBand::Below => armed[s] = false,
                    ArmingBand::Within => {},
                }
                assert(armed@ =~= armed_after(k_old, row).subrange(0, s + 1) + k_old.announce_armed@.subrange(
                    s + 1,
                    6,
                ));
                s = s + 1;
            }
            assert(armed@ =~= armed_after(k_old, row));
            self.kitties[i].announce_armed = armed;
            i = i + 1;
        }
    }

    /// Edge-triggered distress: a need records one event when it crosses
    /// the threshold and stays quiet until it drops back below and crosses
    /// again. `distressed` is the host's table of which needs are at or past
    /// the threshold, one row per kitty in roster order. Returns this call's
    /// events, which the distress ring also records.
    pub fn record_distress(&mut self, distressed: &[[bool; 6]]) -> (events: Vec<DistressEvent>)
        requires
            distressed@.len() == old(self).kitties@.len(),
        ensures
            events@ == all_crossings(old(self).kitties@, distressed@, old(self).tick, 0),
            final(self).kitties@.len() == old(self).kitties@.len(),
            forall|i: int|
                0 <= i < old(self).kitties@.len() ==> distress_updated(
                    old(self).kitties@[i],
                    distressed@[i],
                    old(self).tick,
                    #[trigger] final(self).kitties@[i],
                ),
            final(self).distress.items() == logged(
                old(self).distress.items(),
                old(self).distress.cap(),
                events@,
            ),
            final(self).distress.cap() == old(self).distress.cap(),
            final(self).elements@ == old(self).elements@,
            final(self).tick == old(self).tick,
            final(self).width == old(self).width,
            final(self).height == old(self).height,
            final(self).next_element_id == old(self).next_element_id,
    {
        broadcast use vstd::array::group_array_axioms;

        let tick = self.tick;
        let n = self.kitties.len();
        let ghost k0 = self.kitties@;
        let mut events: Vec<DistressEvent> = Vec::new();
        let mut i: usize = 0;
        while i < n
            invariant
                n == self.kitties@.len(),
                n == k0.len(),
                n == distressed@.len(),
                i <= n,
                tick == self.tick,
                k0 == old(self).kitties@,
                self.tick == old(self).tick,
                self.elements@ == old(self).elements@,
                self.width == old(self).width,
                self.height == old(self).height,
                self.next_element_id == old(self).next_element_id,
                self.distress == old(self).distress,
                forall|j: int| i <= j < n ==> #[trigger] self.kitties@[j] == k0[j],
                forall|j: int|
                    0 <= j < i ==> distress_updated(k0[j], distressed@[j], tick, #[trigger] self.kitties@[j]),
                events@ + all_crossings(k0, distressed@, tick, i as int) == all_crossings(
                    k0,
                    distressed@,
                    tick,
                    0,
                ),
            decreases n - i,
        {
            let row = distressed[i];
            let id = self.kitties[i].id;
            let mut flags = self.kitties[i].in_distress;
            let mut since = self.kitties[i].distress_since;
            let mut s: usize = 0;
            let ghost k_old = k0[i as int];
            while s < 6
                invariant
                    n == k0.len(),
                    n == distressed@.len(),
                    i < n,
                    s <= 6,
                    k_old == k0[i as int],
                    row == distressed@[i as int],
                    id == k_old.id,
                    flags@ == row@.subrange(0, s as int) + k_old.in_distress@.subrange(s as int, 6),
                    since@ == since_after(k_old, row, tick).subrange(0, s as int)
                        + k_old.distress_since@.subrange(s as int, 6),
                    events@ + crossings(k_old, row, tick, s as int) + all_crossings(
                        k0,
                        distressed@,
                        tick,
                        i + 1,
                    ) == all_crossings(k0, distressed@, tick, 0),
                decreases 6 - s,
            {
                let ghost before = events@;
                let ghost f0 = flags@;
                let ghost s0 = since@;
                let need = crate::needs::all_needs()[s];
                if row[s] {
                    if !flags[s] {
                        flags[s] = true;
                        since[s] = Some(tick);
                        events.push(DistressEvent { kitty_id: id, need, tick });
                    } else if since[s].is_none() {
                        since[s] = Some(tick);
                    }
                } else {
                    flags[s] = false;
                    since[s] = None;
                }
                proof {
                    assert(f0[s as int] == k_old.in_distress@[s as int]);
                    assert(s0[s as int] == k_old.distress_since@[s as int]);
                    assert(flags@ =~= row@.subrange(0, s + 1) + k_old.in_distress@.subrange(s + 1, 6));
                    assert(since@ =~= since_after(k_old, row, tick).subrange(0, s + 1)
                        + k_old.distress_since@.subrange(s + 1, 6));
                    let c = crossings(k_old, row, tick, s as int);
                    let head = if row@[s as int] && !k_old.in_distress@[s as int] {
                        seq![DistressEvent { kitty_id: k_old.id, need: crate::needs::need_order()[s as int], tick }]
                    } else {
                        Seq::empty()
                    };
                    assert(c == head + crossings(k_old, row, tick, s + 1));
                    assert(events@ == before + head);
                    assert(before + c == before + head + crossings(k_old, row, tick, s + 1));
                }
                s = s + 1;
            }
            proof {
                assert(flags@ =~= row@);
                assert(since@ =~= since_after(k_old, row, tick));
            }
            self.kitties[i].in_distress = flags;
            self.kitties[i].distress_since = since;
            proof {
                assert(distress_updated(k0[i as int], distressed@[i as int], tick, self.kitties@[i as int]));
            }
            proof {
                assert(crossings(k_old, row, tick, 6) == Seq::<DistressEvent>::empty());
                assert(events@ + Seq::<DistressEvent>::empty() == events@);
                assert(all_crossings(k0, distressed@, tick, i as int) == crossings(k_old, row, tick, 0)
                    + all_crossings(k0, distressed@, tick, i + 1));
            }
            i = i + 1;
        }
        let mut e: usize = 0;
        let ghost l0 = self.distress.items();
        let ghost cap = self.distress.cap();
        while e < events.len()
            invariant
                e <= events@.len(),
                self.distress.cap() == cap,
                self.distress.items() == logged(l0, cap, events@.subrange(0, e as int)),
                l0 == old(self).distress.items(),
                cap == old(self).distress.cap(),
                self.tick == old(self).tick,
                self.elements@ == old(self).elements@,
                self.width == old(self).width,
                self.height == old(self).height,
                self.next_element_id == old(self).next_element_id,
                self.kitties@.len() == old(self).kitties@.len(),
                forall|i: int|
                    0 <= i < old(self).kitties@.len() ==> distress_updated(
                        old(self).kitties@[i],
                        distressed@[i],
                        old(self).tick,
                        #[trigger] self.kitties@[i],
                    ),
            decreases events@.len() - e,
        {
            let ev = events[e];
            let ghost before = self.distress.items();
            self.distress.record(ev);
            proof {
                lemma_logged_concat(l0, cap, events@.subrange(0, e as int), seq![ev]);
                reveal_with_fuel(logged, 2);
                assert(logged(before, cap, seq![ev]) == crate::events::keep_last(
                    before.push(ev),
                    crate::events::bound(cap),
                ));
                assert(events@.subrange(0, e as int) + seq![ev] == events@.subrange(0, e + 1));
            }
            e = e + 1;
        }
        proof {
            assert(events@.subrange(0, events@.len() as int) == events@);
            assert(all_crossings(k0, distressed@, tick, n as int) == Seq::<DistressEvent>::empty());
            assert(events@ + Seq::<DistressEvent>::empty() == events@);
        }
        events
    }

    /// Whether the scene of the kitty at index `i` is over this tick.
    fn scene_is_over(&self, i: usize, durations: &DurationsConfig, sated: &[[bool; 6]]) -> (b: bool)
        requires
            i < self.kitties@.len(),
            sated@.len() == self.kitties@.len(),
            clocks_sane(self.kitties@, self.tick),
        ensures
            b == scene_over(self.kitties@, self.elements@, i as int, self.tick, *durations, sated@),
    {
        let k = &self.kitties[i];
        let clock = match k.activity_clock {
            Some(c) => c,
            None => {
                return false;
            },
        };
        let activity = k.activity;
        let bounds = match activity.bounds(durations) {
            Some(b) => b,
            None => {
                return false;
            },
        };
        assert(clocks_sane(self.kitties@, self.tick) ==> clock.before(self.tick) < u64::MAX) by {
            assert(self.kitties@[i as int].activity_clock == Some(clock));
        }
        let elapsed = clock.elapsed(self.tick);
        let governed_done = match activity.governing_need() {
            None => false,
            Some(need) => {
                let slot = need_index(need);
                let subject_done = match activity {
                    Activity::Grooming { target: Some(f) } => match position_of_kitty(
                        self.kitties.as_slice(),
                        f,
                    ) {
                        Some(j) => sated[j][slot],
                        None => true,
                    },
                    _ => sated[i][slot],
                };
                subject_done || match activity.duet_partner() {
                    Some(p) => match position_of_kitty(self.kitties.as_slice(), p) {
                        Some(j) => sated[j][slot],
                        None => false,
                    },
                    None => false,
                }
            },
        };
        let out_of_chow = match activity {
            Activity::Eating => self.adjacent_stocked_chow(k.pos).is_none(),
            _ => false,
        };
        elapsed >= bounds.max || (elapsed >= bounds.min && (governed_done || out_of_chow))
    }

    /// The closing step of the apply phase: every scene in progress ends
    /// when it has run its maximum, or has run its minimum with its
    /// governing need at zero (either partner's, for a duet) or its bowl
    /// empty. `sated` is the host's table of which needs sit at zero, one
    /// row per kitty in roster order.
    pub fn resolve_activity_ends(&mut self, durations: &DurationsConfig, sated: &[[bool; 6]])
        requires
            sated@.len() == old(self).kitties@.len(),
            clocks_sane(old(self).kitties@, old(self).tick),
        ensures
            final(self).kitties@ == resolved(
                old(self).kitties@,
                old(self).elements@,
                old(self).tick,
                *durations,
                sated@,
                0,
            ).0,
            final(self).pending_endings@ == old(self).pending_endings@ + resolved(
                old(self).kitties@,
                old(self).elements@,
                old(self).tick,
                *durations,
                sated@,
                0,
            ).1,
            final(self).activity_log.items() == logged(
                old(self).activity_log.items(),
                old(self).activity_log.cap(),
                resolved(old(self).kitties@, old(self).elements@, old(self).tick, *durations, sated@, 0).1,
            ),
            final(self).elements@ == old(self).elements@,
            final(self).tick == old(self).tick,
            final(self).width == old(self).width,
            final(self).height == old(self).height,
            final(self).next_element_id == old(self).next_element_id,
    {
        let ghost k0 = self.kitties@;
        let ghost p0 = self.pending_endings@;
        let ghost l0 = self.activity_log.items();
        let ghost cap = self.activity_log.cap();
        let ghost mut done: Seq<ActivityEnd> = Seq::empty();
        let n = self.kitties.len();
        let mut i: usize = 0;
        proof {
            assert(p0 + done == p0);
        }
        while i < n
            invariant
                n == self.kitties@.len(),
                n == sated@.len(),
                i <= n,
                clocks_sane(self.kitties@, self.tick),
                self.elements@ == old(self).elements@,
                self.tick == old(self).tick,
                self.width == old(self).width,
                self.height == old(self).height,
                self.next_element_id == old(self).next_element_id,
                self.activity_log.cap() == cap,
                k0 == old(self).kitties@,
                p0 == old(self).pending_endings@,
                l0 == old(self).activity_log.items(),
                cap == old(self).activity_log.cap(),
                self.pending_endings@ == p0 + done,
                self.activity_log.items() == logged(l0, cap, done),
                resolved(k0, self.elements@, self.tick, *durations, sated@, 0).0 == resolved(
                    self.kitties@,
                    self.elements@,
                    self.tick,
                    *durations,
                    sated@,
                    i as int,
                ).0,
                resolved(k0, self.elements@, self.tick, *durations, sated@, 0).1 == done + resolved(
                    self.kitties@,
                    self.elements@,
                    self.tick,
                    *durations,
                    sated@,
                    i as int,
                ).1,
            decreases n - i,
        {
            let ghost ks = self.kitties@;
            if self.scene_is_over(i, durations, sated) {
                let id = self.kitties[i].id;
                let ghost l_before = self.activity_log.items();
                self.end_activity(id);
                proof {
                    let ae = activity_ends(ks, id);
                    lemma_logged_concat(l0, cap, done, ae);
                    let rest = resolved(self.kitties@, self.elements@, self.tick, *durations, sated@, i + 1);
                    assert(done + (ae + rest.1) == (done + ae) + rest.1);
                    assert(p0 + done + ae == p0 + (done + ae));
                    done = done + ae;
                    assert forall|j: int| 0 <= j < self.kitties@.len() implies ((#[trigger] self.kitties@[j]).activity_clock
                        matches Some(c) ==> c.before(self.tick) < u64::MAX) by {
                        assert(self.kitties@[j] == ended(ks, id)[j]);
                        assert(ks[j] == ks[j]);
                    }
                }
            }
            i = i + 1;
        }
    }

    /// Ends `kitty_id`'s activity, with its duet partner's, when its
    /// counterpart is gone.
    pub fn prune_dead_activity(&mut self, kitty_id: KittyId)
        ensures
            (match found_kitty(old(self).kitties@, kitty_id) {
                Some(k) => scene_gone(k, old(self).kitties@, old(self).elements@),
                None => false,
            }) ==> {
                &&& final(self).kitties@ == ended(old(self).kitties@, kitty_id)
                &&& final(self).pending_endings@ == old(self).pending_endings@ + activity_ends(
                    old(self).kitties@,
                    kitty_id,
                )
                &&& final(self).activity_log.items() == logged(
                    old(self).activity_log.items(),
                    old(self).activity_log.cap(),
                    activity_ends(old(self).kitties@, kitty_id),
                )
            },
            !(match found_kitty(old(self).kitties@, kitty_id) {
                Some(k) => scene_gone(k, old(self).kitties@, old(self).elements@),
                None => false,
            }) ==> {
                &&& final(self).kitties@ == old(self).kitties@
                &&& final(self).pending_endings@ == old(self).pending_endings@
                &&& final(self).activity_log.items() == old(self).activity_log.items()
            },
            final(self).activity_log.cap() == old(self).activity_log.cap(),
            final(self).elements@ == old(self).elements@,
            final(self).tick == old(self).tick,
    {
        if self.counterpart_gone(kitty_id) {
            self.end_activity(kitty_id);
        }
    }

    /// Duration enforcement, mutations included: a continuation stands in
    /// for the proposal inside the scene, and an interrupting action ends
    /// the scene (for both duet partners) before it applies.
    pub fn enforce_durations(&mut self, kitty_id: KittyId, validated: Action, durations: &DurationsConfig) -> (a:
        Action)
        ensures
            a == match ruling_of(old(self).kitties@, kitty_id, validated, *durations, old(self).tick) {
                DurationRuling::Continue(c) => c,
                _ => validated,
            },
            ruling_of(old(self).kitties@, kitty_id, validated, *durations, old(self).tick)
                == DurationRuling::Interrupt ==> {
                &&& final(self).kitties@ == ended(old(self).kitties@, kitty_id)
                &&& final(self).pending_endings@ == old(self).pending_endings@ + activity_ends(
                    old(self).kitties@,
                    kitty_id,
                )
                &&& final(self).activity_log.items() == logged(
                    old(self).activity_log.items(),
                    old(self).activity_log.cap(),
                    activity_ends(old(self).kitties@, kitty_id),
                )
            },
            ruling_of(old(self).kitties@, kitty_id, validated, *durations, old(self).tick)
                != DurationRuling::Interrupt ==> {
                &&& final(self).kitties@ == old(self).kitties@
                &&& final(self).pending_endings@ == old(self).pending_endings@
                &&& final(self).activity_log.items() == old(self).activity_log.items()
            },
            final(self).activity_log.cap() == old(self).activity_log.cap(),
            final(self).elements@ == old(self).elements@,
            final(self).tick == old(self).tick,
    {
        match self.duration_ruling(kitty_id, &validated, durations) {
            DurationRuling::NotGoverned => validated,
            DurationRuling::Continue(continuation) => continuation,
            DurationRuling::Interrupt => {
                self.end_activity(kitty_id);
                validated
            },
        }
    }
}

} // verus!
