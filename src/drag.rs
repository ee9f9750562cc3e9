//! The grip of a single pointer: which card, if any, is held.
use vstd::prelude::*;
use crate::hand::CardId;

verus! {

/// The card held by the pointer, if any. Holding is a transient mark: it
/// never changes the order of the hand.
#[derive(PartialEq, Eq, Structural, Clone, Copy, Debug)]
pub struct Grip {
    pub held: Option<CardId>,
}

impl Grip {
    /// A grip that holds nothing.
    pub fn new() -> (r: Grip)
        ensures
            r.held is None,
    {
        Grip { held: None }
    }

    /// Whether `card` is the held card.
    pub fn is_held(&self, card: CardId) -> (r: bool)
        ensures
            r == (self.held == Some(card)),
    {
        match self.held {
            Some(c) => c == card,
            None => false,
        }
    }
}

} // verus!
