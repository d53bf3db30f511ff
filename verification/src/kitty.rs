//! Kitties' activities and the engine's bookkeeping about them.
//!
//! There is no health, no damage and no removal here: a kitty that enters
//! the world stays in it. What lives in this module is what a kitty is
//! doing and the clocks that pace it.

use vstd::prelude::*;

use crate::action::{Action, TargetRef};
use crate::config::{DurationBounds, DurationsConfig};
use crate::element::{element_order, ElementType};
use crate::grid::Position;
use crate::meow::{lemma_message_slots_distinct, message_index, message_slot, MessageKind};
use crate::needs::{need_index, need_slot, NeedKind};

verus! {

pub type KittyId = u32;

/// Reserved: no live kitty may carry this id; downstream encodings use it
/// to mean "no kitty".
pub const RESERVED_KITTY_ID: u32 = 0xffff_ffff;

/// The chase in progress: which target, since when, the best distance
/// achieved and when that best last improved.
#[derive(Debug, Clone, Copy, PartialEq, Eq, Structural)]
pub struct Pursuit {
    pub target: TargetRef,
    pub started: u64,
    pub closest: u32,
    /// Tick at which `closest` last improved; 0 means unknown.
    pub improved_at: u64,
}

impl Pursuit {
    /// The last tick this chase gained ground.
    pub open spec fn last_gain(self) -> u64 {
        if self.improved_at >= self.started {
            self.improved_at
        } else {
            self.started
        }
    }

    /// The last tick this chase gained ground: `improved_at`, never earlier
    /// than the chase's start.
    pub fn last_progress(&self) -> (t: u64)
        ensures
            t == self.last_gain(),
    {
        if self.improved_at >= self.started {
            self.improved_at
        } else {
            self.started
        }
    }
}

/// A chase target given up on, excluded from re-selection until `until`.
#[derive(Debug, Clone, Copy, PartialEq, Eq, Structural)]
pub struct AbandonedChase {
    pub target: TargetRef,
    pub until: u64,
}

/// What a kitty is currently doing.
#[derive(Debug, Clone, Copy, PartialEq, Eq, Structural)]
pub enum Activity {
    Idle,
    Resting { with_friend: Option<KittyId> },
    Sleeping { in_sunbeam: bool, with_friend: Option<KittyId> },
    Eating,
    Drinking,
    Playing { target: Option<TargetRef> },
    Grooming { target: Option<KittyId> },
}

impl Activity {
    /// The friend an activity references, if any.
    pub open spec fn partner_of(self) -> Option<KittyId> {
        match self {
            Activity::Idle | Activity::Eating | Activity::Drinking => None,
            Activity::Resting { with_friend } => with_friend,
            Activity::Sleeping { with_friend, .. } => with_friend,
            Activity::Playing { target } => match target {
                Some(TargetRef::Kitty { id }) => Some(id),
                _ => None,
            },
            Activity::Grooming { target } => target,
        }
    }

    /// The kitty bound into this activity with a shared clock: social play
    /// only.
    pub open spec fn duet_of(self) -> Option<KittyId> {
        match self {
            Activity::Playing { target: Some(TargetRef::Kitty { id }) } => Some(id),
            _ => None,
        }
    }

    /// The need whose reaching zero ends the activity.
    pub open spec fn governed_by(self) -> Option<NeedKind> {
        match self {
            Activity::Idle | Activity::Resting { with_friend: None } => None,
            Activity::Eating => Some(NeedKind::Eat),
            Activity::Drinking => Some(NeedKind::Drink),
            Activity::Playing { .. } => Some(NeedKind::Play),
            Activity::Grooming { .. } => Some(NeedKind::Bath),
            Activity::Sleeping { .. } => Some(NeedKind::Sleep),
            Activity::Resting { with_friend: Some(_) } => Some(NeedKind::Cuddle),
        }
    }

    /// The action that carries the activity on for another tick.
    pub open spec fn continued_as(self) -> Option<Action> {
        match self {
            Activity::Idle => None,
            Activity::Eating => Some(Action::Eat),
            Activity::Drinking => Some(Action::Drink),
            Activity::Playing { target } => Some(Action::Play { target }),
            Activity::Grooming { target } => Some(Action::Groom { target }),
            Activity::Sleeping { with_friend, .. } => Some(Action::Sleep { with: with_friend }),
            Activity::Resting { with_friend } => Some(Action::Rest { with: with_friend }),
        }
    }

    /// Whether `action` continues this activity rather than switching away.
    pub open spec fn continues(self, action: Action) -> bool {
        match (self, action) {
            (Activity::Idle, _) => false,
            (_, Action::Idle) => true,
            (Activity::Eating, Action::Eat) => true,
            (Activity::Drinking, Action::Drink) => true,
            (Activity::Playing { target }, Action::Play { target: proposed }) => target
                == proposed,
            (Activity::Grooming { target }, Action::Groom { target: proposed }) => target
                == proposed,
            (Activity::Sleeping { .. }, Action::Sleep { .. }) => true,
            (Activity::Resting { .. }, Action::Rest { .. }) => true,
            _ => false,
        }
    }

    /// Which configured duration bounds govern this activity.
    pub open spec fn bounds_in(self, durations: DurationsConfig) -> Option<DurationBounds> {
        match self {
            Activity::Idle => None,
            Activity::Eating => Some(durations.eat),
            Activity::Drinking => Some(durations.drink),
            Activity::Playing { .. } => Some(durations.play),
            Activity::Grooming { .. } => Some(durations.bath),
            Activity::Sleeping { .. } => Some(durations.sleep),
            Activity::Resting { .. } => Some(durations.cuddle),
        }
    }

    pub fn is_sleeping(&self) -> (b: bool)
        ensures
            b == (*self matches Activity::Sleeping { .. }),
    {
        match self {
            Activity::Sleeping { .. } => true,
            _ => false,
        }
    }

    pub fn is_in_progress(&self) -> (b: bool)
        ensures
            b == (*self != Activity::Idle),
    {
        match self {
            Activity::Idle => false,
            _ => true,
        }
    }

    pub fn partner(&self) -> (p: Option<KittyId>)
        ensures
            p == self.partner_of(),
    {
        match self {
            Activity::Idle | Activity::Eating | Activity::Drinking => None,
            Activity::Resting { with_friend } => *with_friend,
            Activity::Sleeping { with_friend, .. } => *with_friend,
            Activity::Playing { target } => match target {
                Some(TargetRef::Kitty { id }) => Some(*id),
                _ => None,
            },
            Activity::Grooming { target } => *target,
        }
    }

    /// The kitty bound into this activity with a shared clock.
    pub fn duet_partner(&self) -> (p: Option<KittyId>)
        ensures
            p == self.duet_of(),
    {
        match self {
            Activity::Playing { target: Some(TargetRef::Kitty { id }) } => Some(*id),
            _ => None,
        }
    }

    /// Which configured duration bounds govern this activity.
    pub fn bounds(&self, durations: &DurationsConfig) -> (b: Option<DurationBounds>)
        ensures
            b == self.bounds_in(*durations),
    {
        match self {
            Activity::Idle => None,
            Activity::Eating => Some(durations.eat),
            Activity::Drinking => Some(durations.drink),
            Activity::Playing { .. } => Some(durations.play),
            Activity::Grooming { .. } => Some(durations.bath),
            Activity::Sleeping { .. } => Some(durations.sleep),
            Activity::Resting { .. } => Some(durations.cuddle),
        }
    }

    /// The need whose reaching 0 ends this activity, or `None` for an
    /// activity with no governing need (solo rest, idleness).
    pub fn governing_need(&self) -> (n: Option<NeedKind>)
        ensures
            n == self.governed_by(),
    {
        match self {
            Activity::Idle | Activity::Resting { with_friend: None } => None,
            Activity::Eating => Some(NeedKind::Eat),
            Activity::Drinking => Some(NeedKind::Drink),
            Activity::Playing { .. } => Some(NeedKind::Play),
            Activity::Grooming { .. } => Some(NeedKind::Bath),
            Activity::Sleeping { .. } => Some(NeedKind::Sleep),
            Activity::Resting { with_friend: Some(_) } => Some(NeedKind::Cuddle),
        }
    }

    /// The action that carries this activity for another tick; `None` only
    /// for `Idle`.
    pub fn continuation(&self) -> (a: Option<Action>)
        ensures
            a == self.continued_as(),
    {
        match *self {
            Activity::Idle => None,
            Activity::Eating => Some(Action::Eat),
            Activity::Drinking => Some(Action::Drink),
            Activity::Playing { target } => Some(Action::Play { target }),
            Activity::Grooming { target } => Some(Action::Groom { target }),
            Activity::Sleeping { with_friend, .. } => Some(Action::Sleep { with: with_friend }),
            Activity::Resting { with_friend } => Some(Action::Rest { with: with_friend }),
        }
    }

    /// Whether `action` continues this activity rather than switching away:
    /// `Idle` continues anything in progress, and a targeted activity only
    /// continues under the same target.
    pub fn is_continued_by(&self, action: &Action) -> (b: bool)
        ensures
            b == self.continues(*action),
    {
        match (self, action) {
            (Activity::Idle, _) => false,
            (_, Action::Idle) => true,
            (Activity::Eating, Action::Eat) => true,
            (Activity::Drinking, Action::Drink) => true,
            (Activity::Playing { target }, Action::Play { target: proposed }) => {
                same_target(target, proposed)
            },
            (Activity::Grooming { target }, Action::Groom { target: proposed }) => {
                same_kitty(target, proposed)
            },
            (Activity::Sleeping { .. }, Action::Sleep { .. }) => true,
            (Activity::Resting { .. }, Action::Rest { .. }) => true,
            _ => false,
        }
    }
}

fn same_target(a: &Option<TargetRef>, b: &Option<TargetRef>) -> (r: bool)
    ensures
        r == (*a == *b),
{
    match (a, b) {
        (None, None) => true,
        (Some(x), Some(y)) => *x == *y,
        _ => false,
    }
}

fn same_kitty(a: &Option<KittyId>, b: &Option<KittyId>) -> (r: bool)
    ensures
        r == (*a == *b),
{
    match (a, b) {
        (None, None) => true,
        (Some(x), Some(y)) => *x == *y,
        _ => false,
    }
}

/// Every in-progress activity is continued by its own continuation, and a
/// continuation exists exactly for the activities in progress.
pub proof fn lemma_continuation_continues(a: Activity)
    ensures
        (a.continued_as() is Some) == (a != Activity::Idle),
        a != Activity::Idle ==> a.continues(a.continued_as().unwrap()),
        a != Activity::Idle ==> a.continues(Action::Idle),
        a.duet_of() is Some ==> a.partner_of() == a.duet_of(),
        a.governed_by() is None ==> (a == Activity::Idle || a == (Activity::Resting {
            with_friend: None,
        })),
{
}

/// Engine bookkeeping pacing the ongoing activity.
#[derive(Debug, Clone, Copy, PartialEq, Eq, Structural)]
pub struct ActivityClock {
    pub started: u64,
    pub applied: u64,
    pub mutual_ticks: u32,
    pub drip_ticks: u32,
}

impl ActivityClock {
    pub fn start(tick: u64) -> (c: ActivityClock)
        ensures
            c == (ActivityClock { started: tick, applied: tick, mutual_ticks: 0, drip_ticks: 0 }),
    {
        ActivityClock { started: tick, applied: tick, mutual_ticks: 0, drip_ticks: 0 }
    }

    /// Ticks already serviced before `tick`.
    pub open spec fn before(self, tick: u64) -> int {
        if tick >= self.started {
            tick - self.started
        } else {
            0
        }
    }

    /// Inclusive tick count, counting `tick` itself as serviced.
    pub fn elapsed(&self, tick: u64) -> (n: u64)
        requires
            self.before(tick) < u64::MAX,
        ensures
            n == self.before(tick) + 1,
    {
        let before = if tick >= self.started {
            tick - self.started
        } else {
            0
        };
        before + 1
    }

    /// Ticks already serviced before `tick`: the "minimum met?" measure.
    pub fn serviced_before(&self, tick: u64) -> (n: u64)
        ensures
            n == self.before(tick),
    {
        if tick >= self.started {
            tick - self.started
        } else {
            0
        }
    }
}

/// One remembered tile: where an element kind was last seen and when.
#[derive(Debug, Clone, Copy, PartialEq, Eq, Structural)]
pub struct MemorySlot {
    pub pos: Position,
    pub last_seen: u64,
}

/// An element kind's memory slot.
pub open spec fn memory_slot(kind: ElementType) -> int {
    match kind {
        ElementType::Water => 0,
        ElementType::Chow => 1,
        ElementType::Bug => 2,
        ElementType::Greeble => 3,
        ElementType::Sunbeam => 4,
    }
}

/// The per-kind memory, one slot per element type in its canonical order.
pub type ElementMemory = [Option<MemorySlot>; 5];

/// The memory slot of an element kind: its position in the canonical
/// element order.
pub fn memory_index(kind: ElementType) -> (i: usize)
    ensures
        i == memory_slot(kind),
        i < 5,
        element_order()[i as int] == kind,
{
    match kind {
        ElementType::Water => 0,
        ElementType::Chow => 1,
        ElementType::Bug => 2,
        ElementType::Greeble => 3,
        ElementType::Sunbeam => 4,
    }
}

/// The earliest tick at which each message kind may be used again.
#[derive(Debug, Clone, PartialEq)]
pub struct MeowCooldowns {
    ready: Vec<Option<u64>>,
}

impl MeowCooldowns {
    pub closed spec fn wf(&self) -> bool {
        self.ready@.len() == 16
    }

    /// The stamped cooldowns, by message kind.
    pub closed spec fn stamps(&self) -> Map<MessageKind, u64> {
        Map::new(
            |k: MessageKind| self.ready@[message_slot(k)] is Some,
            |k: MessageKind| self.ready@[message_slot(k)].unwrap(),
        )
    }

    /// Whether `kind` may be used at `tick`.
    pub open spec fn ready_at(&self, kind: MessageKind, tick: u64) -> bool {
        !self.stamps().contains_key(kind) || tick >= self.stamps()[kind]
    }

    /// No cooldown stamped.
    pub fn new() -> (c: MeowCooldowns)
        ensures
            c.wf(),
            c.stamps() == Map::<MessageKind, u64>::empty(),
    {
        let mut ready: Vec<Option<u64>> = Vec::new();
        let mut i: usize = 0;
        while i < 16
            invariant
                i <= 16,
                ready@.len() == i,
                forall|j: int| 0 <= j < i ==> ready@[j] is None,
            decreases 16 - i,
        {
            ready.push(None);
            i = i + 1;
        }
        let c = MeowCooldowns { ready };
        assert(c.stamps() =~= Map::<MessageKind, u64>::empty()) by {
            assert forall|k: MessageKind| !c.stamps().contains_key(k) by {
                lemma_message_slots_distinct(k, k);
            }
        }
        c
    }

    /// The stamp slots themselves, one per message slot.
    pub closed spec fn slots(&self) -> Seq<Option<u64>> {
        self.ready@
    }

    /// A copy holding the same stamps.
    pub fn duplicate(&self) -> (c: MeowCooldowns)
        ensures
            c.slots() == self.slots(),
            c.wf() == self.wf(),
            c.stamps() == self.stamps(),
    {
        let mut ready: Vec<Option<u64>> = Vec::new();
        let mut i: usize = 0;
        while i < self.ready.len()
            invariant
                i <= self.ready@.len(),
                ready@ == self.ready@.subrange(0, i as int),
            decreases self.ready@.len() - i,
        {
            ready.push(self.ready[i]);
            i = i + 1;
        }
        assert(ready@ =~= self.ready@);
        MeowCooldowns { ready }
    }

    /// Whether a cooldown is stamped for `kind`.
    pub fn contains_key(&self, kind: &MessageKind) -> (b: bool)
        requires
            self.wf(),
        ensures
            b == self.stamps().contains_key(*kind),
    {
        self.ready[message_index(*kind)].is_some()
    }

    /// Whether repeating `kind` at `tick` would be courteous: no stamp, or
    /// the stamp has come due.
    pub fn can_meow(&self, kind: MessageKind, tick: u64) -> (b: bool)
        requires
            self.wf(),
        ensures
            b == self.ready_at(kind, tick),
    {
        match self.ready[message_index(kind)] {
            Some(ready_at) => tick >= ready_at,
            None => true,
        }
    }

    /// Stamps `kind` as usable again from `ready_at_tick`.
    pub fn set_meow_cooldown(&mut self, kind: MessageKind, ready_at_tick: u64)
        requires
            old(self).wf(),
        ensures
            final(self).wf(),
            final(self).stamps() == old(self).stamps().insert(kind, ready_at_tick),
    {
        let i = message_index(kind);
        self.ready.set(i, Some(ready_at_tick));
        proof {
            assert forall|k: MessageKind| #![auto]
                message_slot(k) == i implies k == kind by {
                lemma_message_slots_distinct(k, kind);
            }
            assert(self.stamps() =~= old(self).stamps().insert(kind, ready_at_tick)) by {
                assert forall|k: MessageKind| #![auto]
                    self.stamps().contains_key(k) == old(self).stamps().insert(
                        kind,
                        ready_at_tick,
                    ).contains_key(k) by {
                    lemma_message_slots_distinct(k, kind);
                    lemma_message_slots_distinct(k, k);
                }
            }
        }
    }

    /// Drops every stamp that has already come due at `tick`.
    pub fn prune_meow_cooldowns(&mut self, tick: u64)
        requires
            old(self).wf(),
        ensures
            final(self).wf(),
            final(self).stamps() == old(self).stamps().restrict(
                old(self).stamps().dom().filter(|k: MessageKind| old(self).stamps()[k] > tick),
            ),
    {
        let ghost before = self.ready@;
        let mut i: usize = 0;
        while i < 16
            invariant
                i <= 16,
                self.ready@.len() == 16,
                before.len() == 16,
                forall|j: int|
                    0 <= j < 16 ==> #[trigger] self.ready@[j] == if j < i {
                        match before[j] {
                            Some(t) => if t > tick {
                                Some(t)
                            } else {
                                None
                            },
                            None => None,
                        }
                    } else {
                        before[j]
                    },
            decreases 16 - i,
        {
            let keep = match self.ready[i] {
                Some(t) => t > tick,
                None => false,
            };
            if !keep {
                self.ready.set(i, None);
            }
            i = i + 1;
        }
        proof {
            let want = old(self).stamps().restrict(
                old(self).stamps().dom().filter(|k: MessageKind| old(self).stamps()[k] > tick),
            );
            assert forall|k: MessageKind| #![auto]
                self.stamps().contains_key(k) == want.contains_key(k) by {
                lemma_message_slots_distinct(k, k);
            }
            assert(self.stamps() =~= want);
        }
    }
}

/// A kitty as the rules see it: who and where it is, what it is doing, and
/// the engine's bookkeeping about it. Need pressures and happiness are real
/// numbers kept beside this record by the host.
#[derive(Debug, Clone)]
pub struct Kitty {
    pub id: KittyId,
    pub name: String,
    pub pos: Position,
    pub behavior: String,
    /// What drives this kitty, in words, for whoever is watching; stamped
    /// by the host and never read by the rules.
    pub behavior_description: Option<String>,
    pub activity: Activity,
    /// The action the engine applied last tick; `None` before the first.
    pub last_action: Option<Action>,
    /// The chase in progress, if any.
    pub pursuit: Option<Pursuit>,
    /// Targets recently given up on, each excluded until its `until` tick.
    pub abandoned_chases: Vec<AbandonedChase>,
    /// The tick each need last received relief, by need slot.
    pub last_relief: [Option<u64>; 6],
    /// The needs currently in distress, by need slot.
    pub in_distress: [bool; 6],
    /// The tick each current distress began, by need slot.
    pub distress_since: [Option<u64>; 6],
    /// Pacing of the ongoing activity; present exactly while one is in
    /// progress.
    pub activity_clock: Option<ActivityClock>,
    pub meow_cooldowns: MeowCooldowns,
    /// Needs currently armed for announcement, by need slot.
    pub announce_armed: [bool; 6],
    /// Where each element kind was last seen, by memory slot.
    pub memory: ElementMemory,
    /// Position in the exploration tour.
    pub explore_waypoint: u32,
    /// The tick a purr in progress ends.
    pub purring_until: Option<u64>,
    /// How long the purr in progress was drawn to last.
    pub purring_duration: Option<u64>,
    /// No new purr may begin before this tick.
    pub purr_cooldown_until: u64,
}

/// The two rulings the word law reads off a kitty's real-valued needs and
/// happiness, made by the host where those numbers live: which need presses
/// hardest, and whether a purr has been earned.
#[derive(Debug, Clone, Copy, PartialEq, Eq, Structural)]
pub struct Mood {
    pub top_need: NeedKind,
    pub purr_earned: bool,
}

impl Kitty {
    pub open spec fn wf(&self) -> bool {
        self.meow_cooldowns.wf()
    }

    /// Whether `kind` may be used at `tick` under the kitty's cooldowns.
    pub open spec fn ready(&self, kind: MessageKind, tick: u64) -> bool {
        self.meow_cooldowns.ready_at(kind, tick)
    }

    /// Whether `need` is armed for announcement.
    pub open spec fn armed(&self, need: NeedKind) -> bool {
        self.announce_armed@[need_slot(need)]
    }

    /// Whether the kitty remembers where an element of `kind` was.
    pub open spec fn remembers(&self, kind: ElementType) -> bool {
        self.memory@[memory_slot(kind)] is Some
    }

    /// The tick `need` last got relief, 0 when never.
    pub open spec fn relief_at(&self, need: NeedKind) -> u64 {
        match self.last_relief@[need_slot(need)] {
            Some(t) => t,
            None => 0,
        }
    }

    /// `target` is excluded at `tick` by an abandoned chase.
    pub open spec fn excluded(&self, target: TargetRef, tick: u64) -> bool {
        exists|i: int|
            0 <= i < self.abandoned_chases@.len() && (#[trigger] self.abandoned_chases@[i]).target
                == target && self.abandoned_chases@[i].until > tick
    }

    /// A newcomer: idle, unbookkept, remembering nothing.
    pub fn new(id: KittyId, name: &str, pos: Position, behavior: &str) -> (k: Kitty)
        ensures
            k.wf(),
            k.id == id,
            k.name@ == name@,
            k.pos == pos,
            k.behavior@ == behavior@,
            k.activity == Activity::Idle,
            k.last_action is None,
            k.pursuit is None,
            k.abandoned_chases@.len() == 0,
            forall|n: NeedKind| k.last_relief@[need_slot(n)] is None,
            forall|n: NeedKind| !k.in_distress@[need_slot(n)] && k.distress_since@[need_slot(n)] is None,
            k.activity_clock is None,
            k.meow_cooldowns.stamps() == Map::<MessageKind, u64>::empty(),
            forall|n: NeedKind| !k.armed(n),
            forall|e: ElementType| !k.remembers(e),
            k.explore_waypoint == 0,
            k.purring_until is None,
            k.purring_duration is None,
            k.purr_cooldown_until == 0,
            k.behavior_description is None,
    {
        Kitty {
            id,
            name: name.to_owned(),
            pos,
            behavior: behavior.to_owned(),
            behavior_description: None,
            activity: Activity::Idle,
            last_action: None,
            pursuit: None,
            abandoned_chases: Vec::new(),
            last_relief: [None, None, None, None, None, None],
            in_distress: [false, false, false, false, false, false],
            distress_since: [None, None, None, None, None, None],
            activity_clock: None,
            meow_cooldowns: MeowCooldowns::new(),
            announce_armed: [false, false, false, false, false, false],
            memory: [None, None, None, None, None],
            explore_waypoint: 0,
            purring_until: None,
            purring_duration: None,
            purr_cooldown_until: 0,
        }
    }

    /// `self` and `other` hold the same record, field for field.
    pub open spec fn same_as(&self, other: Kitty) -> bool {
        &&& self.id == other.id
        &&& self.name@ == other.name@
        &&& self.pos == other.pos
        &&& self.behavior@ == other.behavior@
        &&& self.activity == other.activity
        &&& self.last_action == other.last_action
        &&& self.pursuit == other.pursuit
        &&& self.abandoned_chases@ == other.abandoned_chases@
        &&& self.last_relief == other.last_relief
        &&& self.in_distress == other.in_distress
        &&& self.distress_since == other.distress_since
        &&& self.activity_clock == other.activity_clock
        &&& self.meow_cooldowns.slots() == other.meow_cooldowns.slots()
        &&& self.meow_cooldowns.stamps() == other.meow_cooldowns.stamps()
        &&& self.meow_cooldowns.wf() == other.meow_cooldowns.wf()
        &&& self.announce_armed == other.announce_armed
        &&& self.memory == other.memory
        &&& self.explore_waypoint == other.explore_waypoint
        &&& self.purring_until == other.purring_until
        &&& self.purr_cooldown_until == other.purr_cooldown_until
        &&& self.behavior_description == other.behavior_description
        &&& self.purring_duration == other.purring_duration
    }

    /// A field-for-field copy of this kitty.
    pub fn duplicate(&self) -> (k: Kitty)
        ensures
            k.same_as(*self),
    {
        let mut chases: Vec<AbandonedChase> = Vec::new();
        let mut i: usize = 0;
        while i < self.abandoned_chases.len()
            invariant
                i <= self.abandoned_chases@.len(),
                chases@ == self.abandoned_chases@.subrange(0, i as int),
            decreases self.abandoned_chases@.len() - i,
        {
            chases.push(self.abandoned_chases[i]);
            i = i + 1;
        }
        assert(chases@ =~= self.abandoned_chases@);
        Kitty {
            id: self.id,
            name: self.name.clone(),
            pos: self.pos,
            behavior: self.behavior.clone(),
            behavior_description: match &self.behavior_description {
                Some(text) => Some(text.clone()),
                None => None,
            },
            activity: self.activity,
            last_action: self.last_action,
            pursuit: self.pursuit,
            abandoned_chases: chases,
            last_relief: self.last_relief,
            in_distress: self.in_distress,
            distress_since: self.distress_since,
            activity_clock: self.activity_clock,
            meow_cooldowns: self.meow_cooldowns.duplicate(),
            announce_armed: self.announce_armed,
            memory: self.memory,
            explore_waypoint: self.explore_waypoint,
            purring_until: self.purring_until,
            purring_duration: self.purring_duration,
            purr_cooldown_until: self.purr_cooldown_until,
        }
    }

    /// `self` and `other` agree on everything but the chase books.
    pub open spec fn same_but_chase(&self, other: Kitty) -> bool {
        &&& self.id == other.id
        &&& self.name == other.name
        &&& self.pos == other.pos
        &&& self.behavior == other.behavior
        &&& self.activity == other.activity
        &&& self.last_action == other.last_action
        &&& self.last_relief == other.last_relief
        &&& self.in_distress == other.in_distress
        &&& self.distress_since == other.distress_since
        &&& self.activity_clock == other.activity_clock
        &&& self.meow_cooldowns == other.meow_cooldowns
        &&& self.announce_armed == other.announce_armed
        &&& self.memory == other.memory
        &&& self.explore_waypoint == other.explore_waypoint
        &&& self.purring_until == other.purring_until
        &&& self.purr_cooldown_until == other.purr_cooldown_until
        &&& self.behavior_description == other.behavior_description
        &&& self.purring_duration == other.purring_duration
    }

    /// `self` and `other` agree on everything but the announce arming.
    pub open spec fn same_but_arming(&self, other: Kitty) -> bool {
        &&& self.id == other.id
        &&& self.name == other.name
        &&& self.pos == other.pos
        &&& self.behavior == other.behavior
        &&& self.activity == other.activity
        &&& self.last_action == other.last_action
        &&& self.pursuit == other.pursuit
        &&& self.abandoned_chases == other.abandoned_chases
        &&& self.last_relief == other.last_relief
        &&& self.in_distress == other.in_distress
        &&& self.distress_since == other.distress_since
        &&& self.activity_clock == other.activity_clock
        &&& self.meow_cooldowns == other.meow_cooldowns
        &&& self.memory == other.memory
        &&& self.explore_waypoint == other.explore_waypoint
        &&& self.purring_until == other.purring_until
        &&& self.purr_cooldown_until == other.purr_cooldown_until
        &&& self.behavior_description == other.behavior_description
        &&& self.purring_duration == other.purring_duration
    }

    /// `self` and `other` agree on everything but the distress books.
    pub open spec fn same_but_distress(&self, other: Kitty) -> bool {
        &&& self.id == other.id
        &&& self.name == other.name
        &&& self.pos == other.pos
        &&& self.behavior == other.behavior
        &&& self.activity == other.activity
        &&& self.last_action == other.last_action
        &&& self.pursuit == other.pursuit
        &&& self.abandoned_chases == other.abandoned_chases
        &&& self.last_relief == other.last_relief
        &&& self.activity_clock == other.activity_clock
        &&& self.meow_cooldowns == other.meow_cooldowns
        &&& self.announce_armed == other.announce_armed
        &&& self.memory == other.memory
        &&& self.explore_waypoint == other.explore_waypoint
        &&& self.purring_until == other.purring_until
        &&& self.purr_cooldown_until == other.purr_cooldown_until
        &&& self.behavior_description == other.behavior_description
        &&& self.purring_duration == other.purring_duration
    }

    /// `self` and `other` agree on everything but the activity and its
    /// clock.
    pub open spec fn same_but_activity(&self, other: Kitty) -> bool {
        &&& self.id == other.id
        &&& self.name == other.name
        &&& self.pos == other.pos
        &&& self.behavior == other.behavior
        &&& self.last_action == other.last_action
        &&& self.pursuit == other.pursuit
        &&& self.abandoned_chases == other.abandoned_chases
        &&& self.last_relief == other.last_relief
        &&& self.in_distress == other.in_distress
        &&& self.distress_since == other.distress_since
        &&& self.meow_cooldowns == other.meow_cooldowns
        &&& self.announce_armed == other.announce_armed
        &&& self.memory == other.memory
        &&& self.explore_waypoint == other.explore_waypoint
        &&& self.purring_until == other.purring_until
        &&& self.purr_cooldown_until == other.purr_cooldown_until
        &&& self.behavior_description == other.behavior_description
        &&& self.purring_duration == other.purring_duration
    }

    /// Ends whatever this kitty is doing: activity and clock together.
    pub fn clear_activity(&mut self)
        ensures
            final(self).activity == Activity::Idle,
            final(self).activity_clock is None,
            final(self).same_but_activity(*old(self)),
    {
        self.activity = Activity::Idle;
        self.activity_clock = None;
    }

    /// Whether repeating `kind` at `tick` would be courteous.
    pub fn can_meow(&self, kind: MessageKind, tick: u64) -> (b: bool)
        requires
            self.wf(),
        ensures
            b == self.ready(kind, tick),
    {
        self.meow_cooldowns.can_meow(kind, tick)
    }

    /// When `kind` last got relief; 0 when it never has, so an untouched
    /// need wins selection ties.
    pub fn last_relief_tick(&self, kind: NeedKind) -> (t: u64)
        ensures
            t == self.relief_at(kind),
    {
        match self.last_relief[need_index(kind)] {
            Some(t) => t,
            None => 0,
        }
    }

    /// Whether `target` is currently excluded after an abandoned chase; the
    /// exclusion ends at its `until` tick.
    pub fn is_chase_excluded(&self, target: TargetRef, tick: u64) -> (b: bool)
        ensures
            b == self.excluded(target, tick),
    {
        let mut i: usize = 0;
        while i < self.abandoned_chases.len()
            invariant
                i <= self.abandoned_chases@.len(),
                forall|j: int|
                    0 <= j < i ==> !((#[trigger] self.abandoned_chases@[j]).target == target
                        && self.abandoned_chases@[j].until > tick),
            decreases self.abandoned_chases@.len() - i,
        {
            let a = self.abandoned_chases[i];
            if a.target == target && a.until > tick {
                return true;
            }
            i = i + 1;
        }
        false
    }

    /// Stamps `kind` as usable again from `ready_at_tick`.
    pub fn set_meow_cooldown(&mut self, kind: MessageKind, ready_at_tick: u64)
        requires
            old(self).wf(),
        ensures
            final(self).wf(),
            final(self).meow_cooldowns.stamps() == old(self).meow_cooldowns.stamps().insert(
                kind,
                ready_at_tick,
            ),
            final(self).id == old(self).id,
            final(self).pos == old(self).pos,
            final(self).activity == old(self).activity,
    {
        self.meow_cooldowns.set_meow_cooldown(kind, ready_at_tick);
    }

    /// Drops cooldown stamps that have already come due at `tick`.
    pub fn prune_meow_cooldowns(&mut self, tick: u64)
        requires
            old(self).wf(),
        ensures
            final(self).wf(),
            final(self).meow_cooldowns.stamps() == old(self).meow_cooldowns.stamps().restrict(
                old(self).meow_cooldowns.stamps().dom().filter(
                    |k: MessageKind| old(self).meow_cooldowns.stamps()[k] > tick,
                ),
            ),
            *final(self) == (Kitty { meow_cooldowns: final(self).meow_cooldowns, ..*old(self) }),
    {
        self.meow_cooldowns.prune_meow_cooldowns(tick);
    }
}

/// Pruning never changes a courtesy answer at or after the pruning tick,
/// and stamping a kind leaves every other kind's answer alone.
pub proof fn lemma_cooldown_bookkeeping(
    before: Map<MessageKind, u64>,
    tick: u64,
    later: u64,
    kind: MessageKind,
    other: MessageKind,
    stamp: u64,
)
    requires
        later >= tick,
        other != kind,
    ensures
        ({
            let pruned = before.restrict(before.dom().filter(|k: MessageKind| before[k] > tick));
            (!pruned.contains_key(kind) || later >= pruned[kind]) == (!before.contains_key(kind)
                || later >= before[kind])
        }),
        ({
            let stamped = before.insert(kind, stamp);
            &&& (!stamped.contains_key(other) || later >= stamped[other]) == (!before.contains_key(
                other,
            ) || later >= before[other])
            &&& (!stamped.contains_key(kind) || later >= stamped[kind]) == (later >= stamp)
        }),
{
}

} // verus!
