//! The joint-action seam: drive the world from outside, honestly.
//!
//! External drivers trade in proposals, the same language behaviors
//! speak. A proposal set carries at most one entry per kitty; absence and
//! malformation resolve per kitty to an idle turn inside the tick, never to
//! an error.

use std::collections::BTreeMap;

use vstd::prelude::*;

use crate::action::Action;
use crate::events::{ActivityEnd, DistressEvent};
use crate::kitty::KittyId;
use crate::meow::MessageKind;

verus! {

/// One kitty's full decision: an activity to spend the turn on and,
/// riding along, an optional message (`None` is silence).
#[derive(Debug, Clone, Copy, PartialEq, Eq, Structural)]
pub struct Decision {
    pub activity: Action,
    pub message: Option<MessageKind>,
}

/// The two-channel reading of a single-channel action: a turn-spending
/// meow becomes an idle turn carrying its message.
pub open spec fn lifted(action: Action) -> Decision {
    match action {
        Action::Meow { message } => Decision { activity: Action::Idle, message: Some(message) },
        other => Decision { activity: other, message: None },
    }
}

impl Decision {
    /// An activity with nothing to say.
    pub fn silent(activity: Action) -> (d: Decision)
        ensures
            d == (Decision { activity, message: None }),
    {
        Decision { activity, message: None }
    }

    /// Maps the turn-spending meow onto the two-channel shape: the message
    /// rides, the turn is idle; everything else is silent.
    pub fn from_legacy(action: Action) -> (d: Decision)
        ensures
            d == lifted(action),
    {
        match action {
            Action::Meow { message } => Decision { activity: Action::Idle, message: Some(message) },
            other => Decision::silent(other),
        }
    }
}

impl From<Action> for Decision {
    /// A bare activity is a silent decision.
    fn from(activity: Action) -> (d: Decision) {
        Decision::silent(activity)
    }
}

impl vstd::std_specs::convert::FromSpecImpl<Action> for Decision {
    open spec fn obeys_from_spec() -> bool {
        true
    }

    open spec fn from_spec(activity: Action) -> Decision {
        Decision { activity, message: None }
    }
}

/// How a dispatched decision came to be.
#[derive(Debug, Clone, Copy, PartialEq, Eq, Structural)]
pub enum Provenance {
    /// The kitty's own advisor produced this decision.
    PolicyMade,
    /// Dispatch fell back to the default behavior.
    FallbackTaken,
    /// No well-formed proposal was supplied, and the engine substituted
    /// idle.
    SubstitutedIdle,
}

/// One tick's dealt per-kitty decision seeds, stamped with the tick they
/// were dealt for.
#[derive(Debug)]
pub struct DealtSeeds {
    tick: u64,
    seeds: Vec<(KittyId, u64)>,
}

/// The seed dealt to `id`: the first pair naming it.
pub open spec fn seed_in(seeds: Seq<(KittyId, u64)>, id: KittyId) -> Option<u64>
    decreases seeds.len(),
{
    if seeds.len() == 0 {
        None
    } else if seeds[0].0 == id {
        Some(seeds[0].1)
    } else {
        seed_in(seeds.drop_first(), id)
    }
}

impl DealtSeeds {
    pub closed spec fn dealt_tick(&self) -> u64 {
        self.tick
    }

    pub closed spec fn pairs(&self) -> Seq<(KittyId, u64)> {
        self.seeds@
    }

    /// Mints the deal of `seeds` for `tick`.
    pub fn minted(tick: u64, seeds: Vec<(KittyId, u64)>) -> (d: DealtSeeds)
        ensures
            d.dealt_tick() == tick,
            d.pairs() == seeds@,
    {
        DealtSeeds { tick, seeds }
    }

    /// The tick this deal was dealt for.
    pub fn tick(&self) -> (t: u64)
        ensures
            t == self.dealt_tick(),
    {
        self.tick
    }

    /// The seed dealt to `kitty_id`, if it was in the roster at deal time.
    pub fn seed_for(&self, kitty_id: KittyId) -> (s: Option<u64>)
        ensures
            s == seed_in(self.pairs(), kitty_id),
    {
        let mut i: usize = 0;
        assert(self.seeds@.subrange(0, self.seeds@.len() as int) == self.seeds@);
        while i < self.seeds.len()
            invariant
                i <= self.seeds@.len(),
                seed_in(self.seeds@, kitty_id) == seed_in(self.seeds@.subrange(i as int, self.seeds@.len() as int), kitty_id),
            decreases self.seeds@.len() - i,
        {
            let (id, seed) = self.seeds[i];
            let ghost rest = self.seeds@.subrange(i as int, self.seeds@.len() as int);
            assert(rest.drop_first() == self.seeds@.subrange(i + 1, self.seeds@.len() as int));
            if id == kitty_id {
                return Some(seed);
            }
            i = i + 1;
        }
        None
    }

    /// Every (kitty, seed) pair, in the order dealt.
    pub fn iter(&self) -> (v: Vec<(KittyId, u64)>)
        ensures
            v@ == self.pairs(),
    {
        let mut v: Vec<(KittyId, u64)> = Vec::new();
        let mut i: usize = 0;
        while i < self.seeds.len()
            invariant
                i <= self.seeds@.len(),
                v@ == self.seeds@.subrange(0, i as int),
            decreases self.seeds@.len() - i,
        {
            v.push(self.seeds[i]);
            i = i + 1;
        }
        v
    }
}

/// One kitty's decision as the budgetless resolver produced it.
#[derive(Debug, Clone, Copy, PartialEq, Eq, Structural)]
pub struct ResolvedDecision {
    pub kitty_id: KittyId,
    pub decision: Decision,
    /// The seed this kitty's decision stream was built from this tick.
    pub seed: u64,
    pub provenance: Provenance,
}

/// One per-kitty entry of a joint proposal; `Malformed` records an entry
/// that arrived but failed to parse.
#[derive(Debug, Clone, Copy, PartialEq, Eq, Structural)]
pub enum ProposalEntry {
    Decision(Decision),
    Malformed,
}

/// One tick's worth of externally supplied proposals, at most one per
/// kitty (the last write wins).
#[derive(Debug, Clone, PartialEq)]
pub struct JointProposal {
    entries: BTreeMap<KittyId, ProposalEntry>,
}

/// Kitty ids order the way the map's keys are ordered.
proof fn lemma_kitty_keys_are_ordered()
    ensures
        vstd::std_specs::btree::key_obeys_cmp_spec::<KittyId>(),
{
    broadcast use vstd::std_specs::btree::axiom_key_obeys_cmp_spec_meaning;

}

/// A walk of the map's keys in increasing key order visits ids in
/// ascending numeric order.
proof fn lemma_key_walk_ascends(s: Seq<&KittyId>)
    requires
        vstd::std_specs::btree::increasing_seq(s),
    ensures
        forall|i: int, j: int| 0 <= i < j < s.len() ==> *s[i] < *s[j],
{
    broadcast use vstd::laws_cmp::group_laws_cmp;
    broadcast use vstd::std_specs::btree::axiom_increasing_seq_meaning;

    assert forall|i: int, j: int| 0 <= i < j < s.len() implies *s[i] < *s[j] by {
        assert(vstd::std_specs::cmp::OrdSpec::cmp_spec(&s[i], &s[j]) is Less);
    }
}

/// The proposal map after proposing each `(id, decision)` pair in order.
pub open spec fn proposed_all(m: Map<KittyId, ProposalEntry>, pairs: Seq<(KittyId, Decision)>) -> Map<
    KittyId,
    ProposalEntry,
>
    decreases pairs.len(),
{
    if pairs.len() == 0 {
        m
    } else {
        proposed_all(m, pairs.drop_last()).insert(
            pairs.last().0,
            ProposalEntry::Decision(pairs.last().1),
        )
    }
}

/// The decision a roster kitty acts on under `table`: its own where it
/// proposed a well-formed one, a silent idle turn otherwise.
pub open spec fn decision_under(table: Map<KittyId, ProposalEntry>, id: KittyId) -> Decision {
    if table.contains_key(id) {
        match table[id] {
            ProposalEntry::Decision(d) => d,
            ProposalEntry::Malformed => Decision { activity: Action::Idle, message: None },
        }
    } else {
        Decision { activity: Action::Idle, message: None }
    }
}

/// How that decision came to be: the kitty's own, or substituted idle.
pub open spec fn provenance_under(table: Map<KittyId, ProposalEntry>, id: KittyId) -> Provenance {
    if table.contains_key(id) && table[id] is Decision {
        Provenance::PolicyMade
    } else {
        Provenance::SubstitutedIdle
    }
}

/// A proposal is honoured exactly when it is well formed: a kitty with a
/// well-formed decision gets that very decision, marked as its own; a
/// kitty with no entry, or a malformed one, gets a silent idle turn marked
/// substituted.
pub proof fn lemma_proposals_are_honoured_or_idled(table: Map<KittyId, ProposalEntry>, id: KittyId)
    ensures
        table.contains_key(id) && table[id] is Decision ==> table[id] == ProposalEntry::Decision(
            decision_under(table, id),
        ) && provenance_under(table, id) == Provenance::PolicyMade,
        !(table.contains_key(id) && table[id] is Decision) ==> decision_under(table, id) == (Decision {
            activity: Action::Idle,
            message: None,
        }) && provenance_under(table, id) == Provenance::SubstitutedIdle,
{
}

impl JointProposal {
    /// The entries, by kitty id.
    pub closed spec fn table(&self) -> Map<KittyId, ProposalEntry> {
        self.entries@
    }

    pub fn new() -> (p: JointProposal)
        ensures
            p.table() == Map::<KittyId, ProposalEntry>::empty(),
    {
        JointProposal { entries: BTreeMap::new() }
    }

    /// Builds a proposal set from `(id, decision)` pairs, later pairs
    /// replacing earlier ones for the same kitty.
    pub fn from_actions(actions: Vec<(KittyId, Decision)>) -> (p: JointProposal)
        ensures
            p.table() == proposed_all(Map::empty(), actions@),
    {
        let mut joint = JointProposal::new();
        let mut i: usize = 0;
        while i < actions.len()
            invariant
                i <= actions@.len(),
                joint.table() == proposed_all(Map::empty(), actions@.subrange(0, i as int)),
            decreases actions@.len() - i,
        {
            let (id, decision) = actions[i];
            joint.propose(id, decision);
            assert(actions@.subrange(0, i + 1).drop_last() == actions@.subrange(0, i as int));
            i = i + 1;
        }
        assert(actions@.subrange(0, actions@.len() as int) == actions@);
        joint
    }

    /// Proposes a decision for `kitty_id`; a second proposal for the same
    /// kitty replaces the first.
    pub fn propose(&mut self, kitty_id: KittyId, decision: Decision)
        ensures
            final(self).table() == old(self).table().insert(
                kitty_id,
                ProposalEntry::Decision(decision),
            ),
    {
        self.entries.insert(kitty_id, ProposalEntry::Decision(decision));
    }

    /// Records that a proposal for `kitty_id` arrived but could not be
    /// parsed.
    pub fn propose_malformed(&mut self, kitty_id: KittyId)
        ensures
            final(self).table() == old(self).table().insert(kitty_id, ProposalEntry::Malformed),
    {
        self.entries.insert(kitty_id, ProposalEntry::Malformed);
    }

    pub fn get(&self, kitty_id: KittyId) -> (e: Option<&ProposalEntry>)
        ensures
            e matches Some(v) ==> self.table().contains_key(kitty_id) && *v == self.table()[kitty_id],
            e is None <==> !self.table().contains_key(kitty_id),
    {
        self.entries.get(&kitty_id)
    }

    /// Every kitty id with an entry, each once, in ascending order.
    pub fn ids(&self) -> (v: Vec<KittyId>)
        ensures
            v@.to_set() == self.table().dom(),
            v@.no_duplicates(),
            v@.len() == self.table().len(),
            forall|i: int, j: int| 0 <= i < j < v@.len() ==> v@[i] < v@[j],
    {
        broadcast use vstd::std_specs::btree::axiom_spec_keys_iter;

        proof {
            lemma_kitty_keys_are_ordered();
        }
        let mut v: Vec<KittyId> = Vec::new();
        for k in it: self.entries.keys()
            invariant
                v@ == it.seq().subrange(0, it.index() as int).map_values(|r: &KittyId| *r),
        {
            v.push(*k);
            assert(v@ =~= it.seq().subrange(0, it.index() as int + 1).map_values(|r: &KittyId| *r));
        }
        proof {
            let keys = vstd::std_specs::iter::IteratorSpec::remaining(
                &vstd::std_specs::btree::spec_keys_iter(&self.entries),
            );
            assert(v@ =~= keys.unref());
            lemma_key_walk_ascends(keys);
        }
        v
    }

    /// This tick's decisions over `roster`, in roster order: each kitty's
    /// own where it proposed a well-formed one, a silent idle turn marked
    /// substituted where its entry is absent or malformed; and, ascending,
    /// the proposing ids the roster does not hold, which nothing consumes.
    pub fn resolve_for(&self, roster: &[KittyId]) -> (r: (Vec<(KittyId, Decision)>, Vec<Provenance>, Vec<KittyId>))
        ensures
            r.0@.len() == roster@.len(),
            r.1@.len() == roster@.len(),
            forall|i: int|
                0 <= i < roster@.len() ==> (#[trigger] r.0@[i]) == (roster@[i], decision_under(
                    self.table(),
                    roster@[i],
                )),
            forall|i: int| 0 <= i < roster@.len() ==> (#[trigger] r.1@[i]) == provenance_under(self.table(), roster@[i]),
            forall|id: KittyId|
                r.2@.contains(id) <==> self.table().contains_key(id) && !roster@.contains(id),
            forall|i: int, j: int| 0 <= i < j < r.2@.len() ==> r.2@[i] < r.2@[j],
    {
        let mut decisions: Vec<(KittyId, Decision)> = Vec::new();
        let mut marks: Vec<Provenance> = Vec::new();
        let mut i: usize = 0;
        while i < roster.len()
            invariant
                i <= roster@.len(),
                decisions@.len() == i,
                marks@.len() == i,
                forall|k: int|
                    0 <= k < i ==> (#[trigger] decisions@[k]) == (roster@[k], decision_under(
                        self.table(),
                        roster@[k],
                    )),
                forall|k: int| 0 <= k < i ==> (#[trigger] marks@[k]) == provenance_under(self.table(), roster@[k]),
            decreases roster@.len() - i,
        {
            let id = roster[i];
            let ghost before = decisions@;
            let ghost marks_before = marks@;
            match self.get(id) {
                Some(ProposalEntry::Decision(decision)) => {
                    decisions.push((id, *decision));
                    marks.push(Provenance::PolicyMade);
                },
                _ => {
                    let idle = Decision::silent(Action::Idle);
                    assert(idle == Decision { activity: Action::Idle, message: None });
                    decisions.push((id, idle));
                    marks.push(Provenance::SubstitutedIdle);
                },
            }
            assert(decisions@[i as int] == (roster@[i as int], decision_under(self.table(), roster@[i as int])));
            assert(marks@[i as int] == provenance_under(self.table(), roster@[i as int]));
            assert(forall|k: int| 0 <= k < i ==> decisions@[k] == before[k] && marks@[k] == marks_before[k]);
            i = i + 1;
        }
        let ids = self.ids();
        let mut unconsumed: Vec<KittyId> = Vec::new();
        let mut j: usize = 0;
        while j < ids.len()
            invariant
                decisions@.len() == roster@.len(),
                marks@.len() == roster@.len(),
                forall|k: int|
                    0 <= k < roster@.len() ==> (#[trigger] decisions@[k]) == (roster@[k], decision_under(
                        self.table(),
                        roster@[k],
                    )),
                forall|k: int| 0 <= k < roster@.len() ==> (#[trigger] marks@[k]) == provenance_under(self.table(), roster@[k]),
                j <= ids@.len(),
                ids@.to_set() == self.table().dom(),
                forall|a: int, b: int| 0 <= a < b < ids@.len() ==> ids@[a] < ids@[b],
                forall|id: KittyId|
                    unconsumed@.contains(id) <==> exists|k: int|
                        0 <= k < j && ids@[k] == id && !roster@.contains(id),
                forall|a: int, b: int| 0 <= a < b < unconsumed@.len() ==> unconsumed@[a] < unconsumed@[b],
                forall|a: int|
                    0 <= a < unconsumed@.len() ==> exists|k: int| 0 <= k < j && ids@[k] == #[trigger] unconsumed@[a],
            decreases ids@.len() - j,
        {
            let id = ids[j];
            let mut held = false;
            let mut k: usize = 0;
            while k < roster.len()
                invariant
                    k <= roster@.len(),
                    held == exists|m: int| 0 <= m < k && roster@[m] == id,
                decreases roster@.len() - k,
            {
                if roster[k] == id {
                    held = true;
                }
                k = k + 1;
            }
            proof {
                if held {
                    let m = choose|m: int| 0 <= m < roster@.len() && roster@[m] == id;
                    assert(roster@.contains(id));
                } else {
                    assert forall|m: int| 0 <= m < roster@.len() implies roster@[m] != id by {}
                    assert(!roster@.contains(id));
                }
            }
            if !held {
                let ghost before = unconsumed@;
                unconsumed.push(id);
                proof {
                    assert forall|a: int| 0 <= a < before.len() implies before[a] < id by {
                        let k0 = choose|k0: int| 0 <= k0 < j && ids@[k0] == #[trigger] before[a];
                    }
                    assert forall|x: KittyId| unconsumed@.contains(x) <==> exists|k0: int|
                        0 <= k0 < j + 1 && ids@[k0] == x && !roster@.contains(x) by {
                        if unconsumed@.contains(x) {
                            let a = choose|a: int| 0 <= a < unconsumed@.len() && unconsumed@[a] == x;
                            if a < before.len() {
                                assert(before.contains(x));
                            }
                        }
                        if exists|k0: int| 0 <= k0 < j + 1 && ids@[k0] == x && !roster@.contains(x) {
                            let k0 = choose|k0: int| 0 <= k0 < j + 1 && ids@[k0] == x && !roster@.contains(x);
                            if k0 < j {
                                assert(before.contains(x));
                                let a = choose|a: int| 0 <= a < before.len() && before[a] == x;
                                assert(unconsumed@[a] == x);
                            } else {
                                assert(unconsumed@[before.len() as int] == x);
                            }
                        }
                    }
                }
            }
            j = j + 1;
        }
        proof {
            assert forall|id: KittyId| self.table().contains_key(id) implies exists|k: int|
                0 <= k < ids@.len() && ids@[k] == id by {
                assert(ids@.to_set().contains(id));
            }
            assert forall|id: KittyId| (exists|k: int| 0 <= k < ids@.len() && ids@[k] == id) implies
                self.table().contains_key(id) by {
                let k = choose|k: int| 0 <= k < ids@.len() && ids@[k] == id;
                assert(ids@.to_set().contains(ids@[k]));
            }
        }
        (decisions, marks, unconsumed)
    }

    pub fn len(&self) -> (n: usize)
        ensures
            n == self.table().len(),
    {
        self.entries.len()
    }

    pub fn is_empty(&self) -> (b: bool)
        ensures
            b == (self.table().len() == 0),
    {
        self.entries.is_empty()
    }
}

/// One kitty's row of the tick report: what was proposed, what validation
/// made of it, and what was applied, plus provenance and decision seed.
#[derive(Debug, Clone, Copy, PartialEq, Eq, Structural)]
pub struct KittyTickRecord {
    pub kitty_id: KittyId,
    pub proposed: Action,
    pub validated: Action,
    pub applied: Action,
    pub proposed_message: Option<MessageKind>,
    pub applied_message: Option<MessageKind>,
    pub provenance: Provenance,
    pub decision_seed: u64,
}

/// The honest record of one tick.
#[derive(Debug, Clone, PartialEq)]
pub struct TickReport {
    pub records: Vec<KittyTickRecord>,
    pub distress_events: Vec<DistressEvent>,
    pub activity_endings: Vec<ActivityEnd>,
    pub unconsumed: Vec<KittyId>,
}

/// The first record naming `id`.
pub open spec fn record_in(records: Seq<KittyTickRecord>, id: KittyId) -> Option<KittyTickRecord>
    decreases records.len(),
{
    if records.len() == 0 {
        None
    } else if records[0].kitty_id == id {
        Some(records[0])
    } else {
        record_in(records.drop_first(), id)
    }
}

impl TickReport {
    /// The record of `kitty_id`, if the report holds one.
    pub fn record(&self, kitty_id: KittyId) -> (r: Option<&KittyTickRecord>)
        ensures
            r matches Some(x) ==> record_in(self.records@, kitty_id) == Some(*x),
            r is None <==> record_in(self.records@, kitty_id) is None,
    {
        let mut i: usize = 0;
        assert(self.records@.subrange(0, self.records@.len() as int) == self.records@);
        while i < self.records.len()
            invariant
                i <= self.records@.len(),
                record_in(self.records@, kitty_id) == record_in(
                    self.records@.subrange(i as int, self.records@.len() as int),
                    kitty_id,
                ),
            decreases self.records@.len() - i,
        {
            let ghost rest = self.records@.subrange(i as int, self.records@.len() as int);
            assert(rest.drop_first() == self.records@.subrange(i + 1, self.records@.len() as int));
            if self.records[i].kitty_id == kitty_id {
                return Some(&self.records[i]);
            }
            i = i + 1;
        }
        None
    }
}

/// What the budgetless driver hands back: the tick report and the
/// proposals it dispatched.
#[derive(Debug, Clone)]
pub struct DrivenTick {
    pub report: TickReport,
    pub proposals: JointProposal,
}

} // verus!
