//! What a kitty proposes to do with its turn.
//!
//! Proposals are only proposals: the engine validates every one before it
//! applies anything. This module holds the vocabulary of proposals.

use vstd::prelude::*;

use crate::element::ElementId;
use crate::grid::Direction;
use crate::kitty::KittyId;
use crate::meow::MessageKind;

verus! {

/// Something a kitty can aim an action at.
#[derive(Debug, Clone, Copy, PartialEq, Eq, Hash, PartialOrd, Ord, Structural)]
pub enum TargetRef {
    Kitty { id: KittyId },
    Element { id: ElementId },
}

/// One turn's proposal.
#[derive(Debug, Clone, Copy, PartialEq, Eq, Structural)]
pub enum Action {
    Idle,
    Move { direction: Direction },
    Eat,
    Drink,
    Sleep { with: Option<KittyId> },
    Rest { with: Option<KittyId> },
    Play { target: Option<TargetRef> },
    Groom { target: Option<KittyId> },
    Chase(TargetRef),
    Purr,
    Meow { message: MessageKind },
}

impl Action {
    /// A step in `direction`.
    pub fn move_to(direction: Direction) -> (a: Action)
        ensures
            a == (Action::Move { direction }),
    {
        Action::Move { direction }
    }

    /// Play with nobody in particular.
    pub fn play_solo() -> (a: Action)
        ensures
            a == (Action::Play { target: None }),
    {
        Action::Play { target: None }
    }

    /// Play aimed at `target`.
    pub fn play_with(target: TargetRef) -> (a: Action)
        ensures
            a == (Action::Play { target: Some(target) }),
    {
        Action::Play { target: Some(target) }
    }
}

} // verus!
