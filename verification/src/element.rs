//! Environment elements: the things kitties eat, drink, chase and nap in.
//!
//! Expiry applies to elements only; nothing here has an analogue for
//! kitties.

use vstd::prelude::*;

use crate::grid::{Direction, Position};
use crate::needs::NeedKind;

verus! {

pub type ElementId = u32;

/// Reserved: the element allocator never issues this id; downstream
/// encodings use it to mean "no element".
pub const RESERVED_ELEMENT_ID: u32 = 0xffff_ffff;

#[derive(Debug, Clone, Copy, PartialEq, Eq, Hash, PartialOrd, Ord, Structural)]
pub enum ElementType {
    Water,
    Chow,
    Bug,
    Greeble,
    Sunbeam,
}

/// Every element type, in the order Water, Chow, Bug, Greeble, Sunbeam.
pub open spec fn element_order() -> Seq<ElementType> {
    seq![
        ElementType::Water,
        ElementType::Chow,
        ElementType::Bug,
        ElementType::Greeble,
        ElementType::Sunbeam,
    ]
}

impl ElementType {
    pub const ALL: [ElementType; 5] = [
        ElementType::Water,
        ElementType::Chow,
        ElementType::Bug,
        ElementType::Greeble,
        ElementType::Sunbeam,
    ];

    /// The wire spelling of an element type.
    pub open spec fn name(self) -> Seq<char> {
        match self {
            ElementType::Water => "water"@,
            ElementType::Chow => "chow"@,
            ElementType::Bug => "bug"@,
            ElementType::Greeble => "greeble"@,
            ElementType::Sunbeam => "sunbeam"@,
        }
    }

    pub fn as_str(&self) -> (s: &'static str)
        ensures
            s@ == self.name(),
    {
        match self {
            ElementType::Water => "water",
            ElementType::Chow => "chow",
            ElementType::Bug => "bug",
            ElementType::Greeble => "greeble",
            ElementType::Sunbeam => "sunbeam",
        }
    }

    /// Critters are the element types a kitty can play with.
    pub open spec fn critter(self) -> bool {
        self == ElementType::Bug || self == ElementType::Greeble
    }

    pub fn is_critter(&self) -> (b: bool)
        ensures
            b == self.critter(),
    {
        match self {
            ElementType::Bug | ElementType::Greeble => true,
            _ => false,
        }
    }

    /// The scarce resource that relieves a need, if relief needs one.
    pub open spec fn resource_for(need: NeedKind) -> Option<ElementType> {
        match need {
            NeedKind::Eat => Some(ElementType::Chow),
            NeedKind::Drink => Some(ElementType::Water),
            _ => None,
        }
    }

    /// The element type that relieves `need`, when relief requires an
    /// element: only eating and drinking depend on a scarce resource.
    pub fn for_need(need: NeedKind) -> (r: Option<ElementType>)
        ensures
            r == ElementType::resource_for(need),
    {
        match need {
            NeedKind::Eat => Some(ElementType::Chow),
            NeedKind::Drink => Some(ElementType::Water),
            _ => None,
        }
    }
}

/// Per-kind payload of an element.
#[derive(Debug, Clone, Copy, PartialEq, Eq, Structural)]
pub enum ElementKind {
    Water,
    Chow { servings: u32 },
    Bug,
    Greeble { heading: Direction },
    Sunbeam,
}

impl ElementKind {
    pub open spec fn kind_type(self) -> ElementType {
        match self {
            ElementKind::Water => ElementType::Water,
            ElementKind::Chow { .. } => ElementType::Chow,
            ElementKind::Bug => ElementType::Bug,
            ElementKind::Greeble { .. } => ElementType::Greeble,
            ElementKind::Sunbeam => ElementType::Sunbeam,
        }
    }

    pub fn element_type(&self) -> (t: ElementType)
        ensures
            t == self.kind_type(),
    {
        match self {
            ElementKind::Water => ElementType::Water,
            ElementKind::Chow { .. } => ElementType::Chow,
            ElementKind::Bug => ElementType::Bug,
            ElementKind::Greeble { .. } => ElementType::Greeble,
            ElementKind::Sunbeam => ElementType::Sunbeam,
        }
    }

    /// A bowl that still holds at least one serving.
    pub open spec fn stocked(self) -> bool {
        match self {
            ElementKind::Chow { servings } => servings > 0,
            _ => false,
        }
    }
}

#[derive(Debug, Clone, Copy, PartialEq, Eq, Structural)]
pub struct Element {
    pub id: ElementId,
    pub kind: ElementKind,
    pub pos: Position,
    /// Ticks remaining before expiry; `None` means permanent.
    pub ttl: Option<u64>,
}

impl Element {
    pub open spec fn kind_type(self) -> ElementType {
        self.kind.kind_type()
    }

    /// Expired: a timed element that ran out, or a bowl with no servings.
    pub open spec fn expired(self) -> bool {
        (self.kind matches ElementKind::Chow { servings } && servings == 0) || self.ttl == Some(
            0u64,
        )
    }

    pub fn element_type(&self) -> (t: ElementType)
        ensures
            t == self.kind_type(),
    {
        self.kind.element_type()
    }

    /// True once a timed element has run out, or a chow has no servings
    /// left.
    pub fn is_expired(&self) -> (b: bool)
        ensures
            b == self.expired(),
    {
        if let ElementKind::Chow { servings } = self.kind {
            if servings == 0 {
                return true;
            }
        }
        match self.ttl {
            Some(t) => t == 0,
            None => false,
        }
    }

    /// Counts a timed element down by one tick, stopping at zero.
    pub fn tick_ttl(&mut self)
        ensures
            final(self).id == old(self).id,
            final(self).kind == old(self).kind,
            final(self).pos == old(self).pos,
            final(self).ttl == match old(self).ttl {
                Some(t) => Some(if t > 0 { (t - 1) as u64 } else { 0u64 }),
                None => None,
            },
    {
        if let Some(t) = self.ttl {
            self.ttl = Some(if t > 0 { t - 1 } else { 0 });
        }
    }

    /// The critter rest-tick schedule: moves on every second tick, staggered
    /// by id, as `(tick + id) mod 2^64` is even.
    pub open spec fn moves_at(self, tick: u64) -> bool {
        let sum = tick as int + self.id as int;
        let wrapped = if sum > u64::MAX {
            sum - 0x1_0000_0000_0000_0000
        } else {
            sum
        };
        wrapped % 2 == 0
    }

    pub fn critter_moves_this_tick(&self, tick: u64) -> (b: bool)
        ensures
            b == self.moves_at(tick),
    {
        let sum = tick.wrapping_add(self.id as u64);
        sum % 2 == 0
    }
}

/// An element's expiry is monotone under ticking: an expired element stays
/// expired, and a permanent element never expires by ticking.
pub proof fn lemma_expiry_is_final(e: Element, f: Element)
    requires
        f.id == e.id,
        f.kind == e.kind,
        f.pos == e.pos,
        f.ttl == match e.ttl {
            Some(t) => Some(if t > 0 { (t - 1) as u64 } else { 0u64 }),
            None => None,
        },
    ensures
        e.expired() ==> f.expired(),
        e.ttl is None ==> f.expired() == e.expired(),
{
}

} // verus!
