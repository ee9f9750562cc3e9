//! The table: the hand and the grip together, with the reactions to card
//! lifecycle events and pointer events, and the per-frame placement of cards.
use vstd::prelude::*;
use crate::drag::Grip;
use crate::hand::{
    CardId,
    Hand,
    attached,
    detached,
    lemma_attached_wf,
    lemma_detached_wf,
    lemma_slot_of_contains,
    slot_of,
};
use crate::motion::{
    BLEND_SCALE,
    MAX_SLOT,
    Position,
    follow_pointer,
    follow_spec,
    settle,
    settle_spec,
    slot_position,
    slot_target,
};

verus! {

/// A card and its position after the frame's follow step: the held card
/// goes under the pointer, every other card stays.
pub open spec fn followed(
    held: Option<CardId>,
    e: (CardId, Position),
    pointer: Option<(i64, i64)>,
) -> (CardId, Position) {
    if held == Some(e.0) {
        (e.0, follow_spec(e.1, pointer))
    } else {
        e
    }
}

/// A card and its position after the frame's settling step: a card that is
/// not held takes one smoothing step toward the resting position of its slot.
pub open spec fn moved(
    hand: Seq<CardId>,
    held: Option<CardId>,
    e: (CardId, Position),
    blend: int,
) -> (CardId, Position) {
    if held == Some(e.0) {
        e
    } else {
        (e.0, settle_spec(e.1, slot_position(slot_of(hand, e.0).unwrap()), blend))
    }
}

/// The held card after a press on `card`: a card of the hand is picked up
/// when nothing is held; otherwise the grip stays as it was.
pub open spec fn pressed(hand: Seq<CardId>, held: Option<CardId>, card: CardId) -> Option<CardId> {
    if held is None && hand.contains(card) {
        Some(card)
    } else {
        held
    }
}

/// The held card after a release on `card`: the held card is let go; a
/// release on any other card changes nothing.
pub open spec fn released(held: Option<CardId>, card: CardId) -> Option<CardId> {
    if held == Some(card) {
        None
    } else {
        held
    }
}

/// A press while a card is held, on that card or on any other, neither moves
/// the grip to the pressed card nor holds a second one: the held card stays
/// the one held.
pub proof fn lemma_press_while_held(hand: Seq<CardId>, held: CardId, card: CardId)
    ensures
        pressed(hand, Some(held), card) == Some(held),
{
}

/// A press followed by a release on the same card of the hand, from an empty
/// grip, leaves the grip empty again.
pub proof fn lemma_press_release(hand: Seq<CardId>, card: CardId)
    requires
        hand.contains(card),
    ensures
        pressed(hand, None, card) == Some(card),
        released(pressed(hand, None, card), card) is None,
{
}

/// The shared state of the cards in play.
pub struct Table {
    pub hand: Hand,
    pub grip: Grip,
}

impl Table {
    /// The hand has no duplicates, and a held card is in the hand.
    pub open spec fn wf(&self) -> bool {
        &&& self.hand.wf()
        &&& (self.grip.held matches Some(c) ==> self.hand@.contains(c))
    }

    /// A table with an empty hand and nothing held.
    pub fn new() -> (r: Table)
        ensures
            r.wf(),
            r.hand@ == Seq::<CardId>::empty(),
            r.grip.held is None,
    {
        Table { hand: Hand::new(), grip: Grip::new() }
    }

    /// A card identity was attached: the card takes the rightmost slot.
    pub fn on_card_added(&mut self, card: CardId)
        requires
            old(self).wf(),
        ensures
            final(self).wf(),
            final(self).hand@ == attached(old(self).hand@, card),
            final(self).grip == old(self).grip,
    {
        proof {
            lemma_attached_wf(self.hand@, card);
        }
        self.hand.insert(card);
    }

    /// A card identity was detached: the card leaves the hand, and the grip
    /// lets go of it if it was held.
    pub fn on_card_removed(&mut self, card: CardId)
        requires
            old(self).wf(),
        ensures
            final(self).wf(),
            final(self).hand@ == detached(old(self).hand@, card),
            final(self).grip.held == released(old(self).grip.held, card),
    {
        proof {
            lemma_detached_wf(self.hand@, card);
        }
        self.hand.remove(card);
        if self.grip.is_held(card) {
            self.grip.held = None;
        }
    }

    /// The pointer was pressed on `card`. A card of the hand is picked up
    /// when nothing is held; otherwise nothing changes. Returns whether the
    /// card was picked up.
    pub fn hold_card(&mut self, card: CardId) -> (r: bool)
        requires
            old(self).wf(),
        ensures
            final(self).wf(),
            r == (old(self).grip.held is None && old(self).hand@.contains(card)),
            final(self).grip.held == pressed(old(self).hand@, old(self).grip.held, card),
            final(self).hand@ == old(self).hand@,
    {
        if self.grip.held.is_none() {
            match self.hand.offset_of(card) {
                Some(_) => {
                    proof {
                        lemma_slot_of_contains(self.hand@, card);
                    }
                    self.grip.held = Some(card);
                    true
                },
                None => {
                    proof {
                        lemma_slot_of_contains(self.hand@, card);
                    }
                    false
                },
            }
        } else {
            false
        }
    }

    /// The pointer was released on `card`. The held card is let go; a
    /// release on any other card changes nothing. Returns whether the card
    /// was let go.
    pub fn drop_card(&mut self, card: CardId) -> (r: bool)
        requires
            old(self).wf(),
        ensures
            final(self).wf(),
            r == (old(self).grip.held == Some(card)),
            final(self).grip.held == released(old(self).grip.held, card),
            final(self).hand@ == old(self).hand@,
    {
        if self.grip.is_held(card) {
            self.grip.held = None;
            true
        } else {
            false
        }
    }

    /// Puts the held card, if it is among `cards`, under the pointer; the
    /// other cards keep their positions.
    pub fn card_follow_mouse(&self, cards: &mut Vec<(CardId, Position)>, pointer: Option<(i64, i64)>)
        ensures
            final(cards)@.len() == old(cards)@.len(),
            forall|i: int|
                0 <= i < old(cards)@.len() ==> #[trigger] final(cards)@[i] == followed(
                    self.grip.held,
                    old(cards)@[i],
                    pointer,
                ),
    {
        let n = cards.len();
        let mut i: usize = 0;
        while i < n
            invariant
                n == old(cards)@.len(),
                cards@.len() == n,
                0 <= i <= n,
                forall|j: int| 0 <= j < i ==> #[trigger] cards@[j] == followed(self.grip.held, old(cards)@[j], pointer),
                forall|j: int| i <= j < n ==> #[trigger] cards@[j] == old(cards)@[j],
            decreases n - i,
        {
            let (card, pos) = cards[i];
            if self.grip.is_held(card) {
                cards.set(i, (card, follow_pointer(pos, pointer)));
            }
            i = i + 1;
        }
    }

    /// Eases every card of `cards` that is not held one smoothing step toward
    /// the resting position of its slot; the held card keeps its position.
    /// Every card that is not held must be in the hand.
    pub fn move_cards(&self, cards: &mut Vec<(CardId, Position)>, blend: u32)
        requires
            self.wf(),
            blend <= BLEND_SCALE,
            self.hand@.len() <= MAX_SLOT as int + 1,
            forall|i: int|
                0 <= i < old(cards)@.len() && self.grip.held != Some(#[trigger] old(cards)@[i].0)
                    ==> self.hand@.contains(old(cards)@[i].0),
        ensures
            final(cards)@.len() == old(cards)@.len(),
            forall|i: int|
                0 <= i < old(cards)@.len() ==> #[trigger] final(cards)@[i] == moved(
                    self.hand@,
                    self.grip.held,
                    old(cards)@[i],
                    blend as int,
                ),
    {
        let n = cards.len();
        let mut i: usize = 0;
        while i < n
            invariant
                self.wf(),
                blend <= BLEND_SCALE,
                self.hand@.len() <= MAX_SLOT as int + 1,
                n == old(cards)@.len(),
                cards@.len() == n,
                0 <= i <= n,
                forall|j: int|
                    0 <= j < n && self.grip.held != Some(#[trigger] old(cards)@[j].0)
                        ==> self.hand@.contains(old(cards)@[j].0),
                forall|j: int| 0 <= j < i ==> #[trigger] cards@[j] == moved(self.hand@, self.grip.held, old(cards)@[j], blend as int),
                forall|j: int| i <= j < n ==> #[trigger] cards@[j] == old(cards)@[j],
            decreases n - i,
        {
            let (card, pos) = cards[i];
            if !self.grip.is_held(card) {
                assert(old(cards)@[i as int].0 == card);
                match self.hand.offset_of(card) {
                    Some(slot) => {
                        proof {
                            lemma_slot_of_contains(self.hand@, card);
                        }
                        let target = slot_target(slot);
                        cards.set(i, (card, settle(pos, target, blend)));
                    },
                    None => {
                        proof {
                            lemma_slot_of_contains(self.hand@, card);
                        }
                    },
                }
            }
            i = i + 1;
        }
    }
}

} // verus!
