//! Engine events, kept in bounded rings for whoever is watching.
//!
//! Distress is a signal, never a punishment: nothing in the engine reads it
//! to make a kitty's life worse. Every activity that ends records one event
//! carrying its true, inclusive span.

use std::collections::VecDeque;

use vstd::prelude::*;
use vstd::std_specs::iter::IteratorSpec;
use vstd::std_specs::vecdeque::*;

use crate::action::Action;
use crate::kitty::{Activity, KittyId};
use crate::needs::NeedKind;

verus! {

broadcast use group_vec_dequeue_axioms;

#[derive(Debug, Clone, Copy, PartialEq, Eq, Structural)]
pub struct DistressEvent {
    pub kitty_id: KittyId,
    pub need: NeedKind,
    pub tick: u64,
}

/// An activity that ran its course: who, what, and the inclusive tick span
/// it covered. `ended` is the last tick the activity was serviced.
#[derive(Debug, Clone, Copy, PartialEq, Eq, Structural)]
pub struct ActivityEnd {
    pub kitty_id: KittyId,
    pub activity: Activity,
    pub started: u64,
    pub ended: u64,
    /// Serviced ticks the scene's partner was itself settled.
    pub mutual_ticks: u32,
    /// Serviced ticks the partner was merely present.
    pub drip_ticks: u32,
}

/// Whether a tier counter is zero (a zero counter stays off the wire).
pub fn tier_count_is_zero(n: &u32) -> (b: bool)
    ensures
        b == (*n == 0),
{
    *n == 0
}

/// A non-idle proposal that validation resolved to idle, on the tick it was
/// heard. `absorbed` tells whether the kitty's ongoing scene continued.
#[derive(Debug, Clone, Copy, PartialEq, Eq, Structural)]
pub struct RefusalEvent {
    pub kitty_id: KittyId,
    pub proposed: Action,
    pub tick: u64,
    pub absorbed: bool,
}

impl ActivityEnd {
    /// Ticks from start to end, zero when the end precedes the start.
    pub open spec fn gap(&self) -> int {
        if self.ended >= self.started {
            self.ended - self.started
        } else {
            0
        }
    }

    /// How many ticks the activity was serviced, inclusive of both ends.
    pub fn span(&self) -> (n: u64)
        requires
            self.gap() < u64::MAX,
        ensures
            n == self.gap() + 1,
    {
        let gap = if self.ended >= self.started {
            self.ended - self.started
        } else {
            0
        };
        gap + 1
    }
}

/// The last `c` items of `q` (all of them when there are fewer).
pub open spec fn keep_last<T>(q: Seq<T>, c: nat) -> Seq<T> {
    if q.len() <= c {
        q
    } else {
        q.subrange(q.len() - c, q.len() as int)
    }
}

/// A ring's effective bound: capacity zero behaves as one.
pub open spec fn bound(c: nat) -> nat {
    if c >= 1 {
        c
    } else {
        1
    }
}

/// A bounded ring of the most recent events, oldest first.
#[derive(Debug, Clone)]
pub struct EventLog<T> {
    events: VecDeque<T>,
    capacity: usize,
}

/// The distress ring.
pub type DistressLog = EventLog<DistressEvent>;

/// The activity-end ring.
pub type ActivityLog = EventLog<ActivityEnd>;

/// The refusal ring.
pub type RefusalLog = EventLog<RefusalEvent>;

impl<T> Default for EventLog<T> {
    /// A defaulted log has capacity 0, which recording treats as 1.
    fn default() -> (log: Self)
        ensures
            log.items() == Seq::<T>::empty(),
            log.cap() == 0,
    {
        EventLog { events: VecDeque::new(), capacity: 0 }
    }
}

impl<T> EventLog<T> {
    /// The retained events, oldest first.
    pub closed spec fn items(&self) -> Seq<T> {
        self.events@
    }

    /// The configured capacity.
    pub closed spec fn cap(&self) -> nat {
        self.capacity as nat
    }

    pub fn new(capacity: usize) -> (log: Self)
        ensures
            log.items() == Seq::<T>::empty(),
            log.cap() == bound(capacity as nat),
    {
        EventLog { events: VecDeque::new(), capacity: if capacity >= 1 { capacity } else { 1 } }
    }

    /// Appends `event`, dropping the oldest events first so that at most
    /// `max(capacity, 1)` remain.
    pub fn record(&mut self, event: T)
        ensures
            final(self).items() == keep_last(old(self).items().push(event), bound(old(self).cap())),
            final(self).cap() == old(self).cap(),
    {
        let limit: usize = if self.capacity >= 1 {
            self.capacity
        } else {
            1
        };
        let ghost s0 = self.events@;
        let ghost mut removed: int = 0;
        while self.events.len() >= limit
            invariant
                limit == bound(self.capacity as nat),
                self.capacity == old(self).capacity,
                s0 == old(self).events@,
                0 <= removed <= s0.len(),
                self.events@ == s0.subrange(removed, s0.len() as int),
                removed == 0 || s0.len() - removed >= limit - 1,
            decreases self.events@.len(),
        {
            let _ = self.events.pop_front();
            proof {
                removed = removed + 1;
            }
        }
        self.events.push_back(event);
        proof {
            let q = s0.push(event);
            if removed == 0 {
                assert(s0.subrange(0, s0.len() as int) == s0);
            } else {
                assert(self.events@ == q.subrange(q.len() - limit, q.len() as int));
            }
        }
    }

    /// Re-stamps the capacity (floored at 1), dropping the oldest events
    /// when the ring holds more than the new bound.
    pub fn set_capacity(&mut self, capacity: usize)
        ensures
            final(self).cap() == bound(capacity as nat),
            final(self).items() == keep_last(old(self).items(), bound(capacity as nat)),
    {
        self.capacity = if capacity >= 1 {
            capacity
        } else {
            1
        };
        let ghost s0 = self.events@;
        let ghost mut removed: int = 0;
        while self.events.len() > self.capacity
            invariant
                self.capacity >= 1,
                self.capacity == bound(capacity as nat),
                s0 == old(self).events@,
                0 <= removed <= s0.len(),
                self.events@ == s0.subrange(removed, s0.len() as int),
                removed == 0 || s0.len() - removed >= self.capacity,
            decreases self.events@.len(),
        {
            let _ = self.events.pop_front();
            proof {
                removed = removed + 1;
            }
        }
        proof {
            if removed == 0 {
                assert(s0.subrange(0, s0.len() as int) == s0);
            }
        }
    }

    /// The ring's own bound.
    pub fn capacity(&self) -> (c: usize)
        ensures
            c == self.cap(),
    {
        self.capacity
    }

    /// The events, oldest first.
    pub fn events(&self) -> (it: std::collections::vec_deque::Iter<'_, T>)
        ensures
            it.remaining() == self.items().map_values(|t: T| &t),
    {
        let it = self.events.iter();
        assert(self.items().map_values(|t: T| &t) =~= self.events@.as_ref());
        it
    }

    /// The most recent event, if any.
    pub fn newest(&self) -> (n: Option<&T>)
        ensures
            n matches Some(e) ==> self.items().len() > 0 && *e == self.items().last(),
            n is None <==> self.items().len() == 0,
    {
        let len = self.events.len();
        if len == 0 {
            None
        } else {
            Some(&self.events[len - 1])
        }
    }

    pub fn len(&self) -> (n: usize)
        ensures
            n == self.items().len(),
    {
        self.events.len()
    }

    pub fn is_empty(&self) -> (b: bool)
        ensures
            b == (self.items().len() == 0),
    {
        self.events.len() == 0
    }
}

impl<T: Copy> EventLog<T> {
    /// The events as a vector, oldest first.
    pub fn to_vec(&self) -> (v: Vec<T>)
        ensures
            v@ == self.items(),
    {
        let mut v: Vec<T> = Vec::new();
        let n = self.events.len();
        let mut i: usize = 0;
        while i < n
            invariant
                n == self.items().len(),
                i <= n,
                v@ == self.items().subrange(0, i as int),
            decreases n - i,
        {
            v.push(self.events[i]);
            i = i + 1;
        }
        v
    }
}

/// Recording into a ring is appending to the whole history and keeping the
/// newest: a ring that holds the last `c` events of a history, recording
/// one more, holds the last `c` events of the longer history.
pub proof fn lemma_ring_is_a_window<T>(history: Seq<T>, event: T, c: nat)
    requires
        c >= 1,
    ensures
        keep_last(keep_last(history, c).push(event), c) == keep_last(history.push(event), c),
{
    let h = history.push(event);
    if history.len() > c {
        let w = keep_last(history, c);
        assert(keep_last(w.push(event), c) =~= h.subrange(h.len() - c, h.len() as int));
    } else if history.len() == c {
        assert(keep_last(history.push(event), c) =~= history.push(event).subrange(1, c as int + 1));
    }
}

/// A ring never holds more than its bound, always ends with the newest
/// event, and only ever drops its oldest events.
pub proof fn lemma_ring_keeps_the_newest<T>(items: Seq<T>, event: T, c: nat)
    requires
        c >= 1,
    ensures
        keep_last(items.push(event), c).len() <= c,
        keep_last(items.push(event), c).last() == event,
        keep_last(items.push(event), c).len() == (if items.len() + 1 <= c {
            items.len() + 1
        } else {
            c
        }),
        items.len() < c ==> keep_last(items.push(event), c) == items.push(event),
{
}

/// Growing a ring's capacity never loses an event.
pub proof fn lemma_growing_keeps_everything<T>(items: Seq<T>, c: nat)
    requires
        items.len() <= c,
    ensures
        keep_last(items, c) == items,
{
}

} // verus!
