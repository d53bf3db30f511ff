//! The six needs a kitty feels.
//!
//! Need pressures themselves are real numbers the engine keeps outside this
//! library; here live the need kinds every rule is keyed by.

use vstd::prelude::*;

verus! {

#[derive(Debug, Clone, Copy, PartialEq, Eq, Hash, PartialOrd, Ord, Structural)]
pub enum NeedKind {
    Eat,
    Drink,
    Sleep,
    Play,
    Cuddle,
    Bath,
}

/// Where a need's pressure stands against the announce threshold, as the
/// host that keeps the pressures reads it: at or above the threshold,
/// inside the hysteresis band just below it, or below the band.
#[derive(Debug, Clone, Copy, PartialEq, Eq, Structural)]
pub enum ArmingBand {
    AtOrAbove,
    Within,
    Below,
}

/// Every need, in the order Eat, Drink, Sleep, Play, Cuddle, Bath.
pub open spec fn need_order() -> Seq<NeedKind> {
    seq![
        NeedKind::Eat,
        NeedKind::Drink,
        NeedKind::Sleep,
        NeedKind::Play,
        NeedKind::Cuddle,
        NeedKind::Bath,
    ]
}

/// Every need kind, in its canonical order.
pub fn all_needs() -> (r: [NeedKind; 6])
    ensures
        r@ == need_order(),
{
    [
        NeedKind::Eat,
        NeedKind::Drink,
        NeedKind::Sleep,
        NeedKind::Play,
        NeedKind::Cuddle,
        NeedKind::Bath,
    ]
}

/// A need's position in the canonical order.
pub open spec fn need_slot(kind: NeedKind) -> int {
    match kind {
        NeedKind::Eat => 0,
        NeedKind::Drink => 1,
        NeedKind::Sleep => 2,
        NeedKind::Play => 3,
        NeedKind::Cuddle => 4,
        NeedKind::Bath => 5,
    }
}

/// A need's position in the canonical order, the index of its per-need
/// bookkeeping slots.
pub fn need_index(kind: NeedKind) -> (i: usize)
    ensures
        i == need_slot(kind),
        i < 6,
        need_order()[i as int] == kind,
{
    match kind {
        NeedKind::Eat => 0,
        NeedKind::Drink => 1,
        NeedKind::Sleep => 2,
        NeedKind::Play => 3,
        NeedKind::Cuddle => 4,
        NeedKind::Bath => 5,
    }
}

/// Distinct needs sit in distinct slots.
pub proof fn lemma_need_slots_distinct(a: NeedKind, b: NeedKind)
    ensures
        need_slot(a) == need_slot(b) ==> a == b,
        0 <= need_slot(a) < 6,
{
}

impl NeedKind {
    /// The wire spelling of a need.
    pub open spec fn name(self) -> Seq<char> {
        match self {
            NeedKind::Eat => "eat"@,
            NeedKind::Drink => "drink"@,
            NeedKind::Sleep => "sleep"@,
            NeedKind::Play => "play"@,
            NeedKind::Cuddle => "cuddle"@,
            NeedKind::Bath => "bath"@,
        }
    }

    pub fn as_str(&self) -> (s: &'static str)
        ensures
            s@ == self.name(),
    {
        match self {
            NeedKind::Eat => "eat",
            NeedKind::Drink => "drink",
            NeedKind::Sleep => "sleep",
            NeedKind::Play => "play",
            NeedKind::Cuddle => "cuddle",
            NeedKind::Bath => "bath",
        }
    }
}

} // verus!
