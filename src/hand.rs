//! The hand: an ordered registry of card identities whose order gives each
//! card its slot, leftmost first.
use vstd::prelude::*;

verus! {

/// An opaque card identity, compared by value.
#[derive(PartialEq, Eq, Structural, Clone, Copy, Debug, Hash)]
pub struct CardId(pub u64);

/// The slot of `c` in `s`: the position at which it stands, if it stands there.
pub open spec fn slot_of(s: Seq<CardId>, c: CardId) -> Option<int> {
    if s.contains(c) {
        Some(choose|i: int| 0 <= i < s.len() && s[i] == c)
    } else {
        None
    }
}

/// The registry after `c` is attached: appended at the end, unless present.
pub open spec fn attached(s: Seq<CardId>, c: CardId) -> Seq<CardId> {
    if s.contains(c) {
        s
    } else {
        s.push(c)
    }
}

/// The registry after `c` is detached: later cards move one slot left.
pub open spec fn detached(s: Seq<CardId>, c: CardId) -> Seq<CardId> {
    match slot_of(s, c) {
        Some(i) => s.remove(i),
        None => s,
    }
}

/// In a registry without duplicates, the slot of the card at `i` is `i`.
pub proof fn lemma_slot_of_index(s: Seq<CardId>, i: int)
    requires
        s.no_duplicates(),
        0 <= i < s.len(),
    ensures
        slot_of(s, s[i]) == Some(i),
{
    assert(s.contains(s[i]));
    let j = choose|j: int| 0 <= j < s.len() && s[j] == s[i];
    assert(j == i);
}

/// Attaching keeps a registry free of duplicates and keeps every card that
/// was there, beside the attached one.
pub proof fn lemma_attached_wf(s: Seq<CardId>, c: CardId)
    requires
        s.no_duplicates(),
    ensures
        attached(s, c).no_duplicates(),
        attached(s, c).contains(c),
        forall|x: CardId| s.contains(x) ==> #[trigger] attached(s, c).contains(x),
{
    let t = attached(s, c);
    if !s.contains(c) {
        assert(t[s.len() as int] == c);
        assert forall|x: CardId| s.contains(x) implies #[trigger] t.contains(x) by {
            let k = choose|k: int| 0 <= k < s.len() && s[k] == x;
            assert(t[k] == x);
        }
    }
    assert forall|a: int, b: int| 0 <= a < b < t.len() implies t[a] != t[b] by {
        if !s.contains(c) && b == s.len() {
            assert(t[a] == s[a]);
        }
    }
}

/// Detaching keeps a registry free of duplicates, leaves the detached card
/// out, and shifts each card to the right of it one slot left.
pub proof fn lemma_detached_wf(s: Seq<CardId>, c: CardId)
    requires
        s.no_duplicates(),
    ensures
        detached(s, c).no_duplicates(),
        !detached(s, c).contains(c),
        forall|x: CardId| x != c ==> (detached(s, c).contains(x) <==> s.contains(x)),
        forall|j: int| 0 <= j < detached(s, c).len() ==> #[trigger] detached(s, c)[j] == (
        match slot_of(s, c) {
            Some(i) => if j < i { s[j] } else { s[j + 1] },
            None => s[j],
        }),
{
    let t = detached(s, c);
    match slot_of(s, c) {
        Some(i) => {
            lemma_slot_of_contains(s, c);
            s.remove_ensures(i);
            assert forall|a: int, b: int| 0 <= a < b < t.len() implies t[a] != t[b] by {
                let a0 = if a < i { a } else { a + 1 };
                let b0 = if b < i { b } else { b + 1 };
                assert(t[a] == s[a0]);
                assert(t[b] == s[b0]);
            }
            assert forall|x: CardId| x != c implies (t.contains(x) <==> s.contains(x)) by {
                if s.contains(x) {
                    let k = choose|k: int| 0 <= k < s.len() && s[k] == x;
                    assert(k != i);
                    let k1 = if k < i { k } else { k - 1 };
                    assert(t[k1] == x);
                }
            }
            assert(!t.contains(c)) by {
                if t.contains(c) {
                    let k = choose|k: int| 0 <= k < t.len() && t[k] == c;
                    let k0 = if k < i { k } else { k + 1 };
                    assert(s[k0] == c);
                }
            }
        },
        None => {},
    }
}

/// Where `slot_of` gives a slot, the card stands in it.
pub proof fn lemma_slot_of_contains(s: Seq<CardId>, c: CardId)
    ensures
        slot_of(s, c) matches Some(i) ==> 0 <= i < s.len() && s[i] == c,
        slot_of(s, c) is None <==> !s.contains(c),
{
}

/// The registry that attaching the cards of `ids`, one after another, builds
/// from an empty hand.
pub open spec fn attach_all(ids: Seq<CardId>) -> Seq<CardId>
    decreases ids.len(),
{
    if ids.len() == 0 {
        Seq::empty()
    } else {
        attached(attach_all(ids.drop_last()), ids.last())
    }
}

/// Attaching N distinct cards gives a registry of exactly those N cards in
/// attach order, the card attached k-th (from zero) standing in slot k.
pub proof fn lemma_attach_in_order(ids: Seq<CardId>)
    requires
        ids.no_duplicates(),
    ensures
        attach_all(ids) == ids,
        attach_all(ids).len() == ids.len(),
        forall|k: int| 0 <= k < ids.len() ==> slot_of(attach_all(ids), #[trigger] ids[k]) == Some(k),
    decreases ids.len(),
{
    if ids.len() > 0 {
        let p = ids.drop_last();
        assert(p.no_duplicates());
        lemma_attach_in_order(p);
        assert(!p.contains(ids.last()));
        assert(p.push(ids.last()) =~= ids);
    }
    assert forall|k: int| 0 <= k < ids.len() implies slot_of(attach_all(ids), #[trigger] ids[k]) == Some(k) by {
        lemma_slot_of_index(ids, k);
    }
}

/// Detaching a card right after attaching it leaves it without a slot.
pub proof fn lemma_detach_after_attach(s: Seq<CardId>, c: CardId)
    requires
        s.no_duplicates(),
    ensures
        slot_of(detached(attached(s, c), c), c) is None,
{
    lemma_attached_wf(s, c);
    lemma_detached_wf(attached(s, c), c);
}

/// Detaching a card that is not in the registry changes nothing, its size
/// included.
pub proof fn lemma_detach_absent(s: Seq<CardId>, c: CardId)
    requires
        !s.contains(c),
    ensures
        detached(s, c) == s,
        detached(s, c).len() == s.len(),
{
}

/// Detaching `c` keeps the slot of every card to its left and moves every
/// card to its right one slot left.
pub proof fn lemma_detach_shifts(s: Seq<CardId>, c: CardId, x: CardId)
    requires
        s.no_duplicates(),
        s.contains(c),
        s.contains(x),
        x != c,
    ensures
        slot_of(s, x) matches Some(j) && slot_of(s, c) matches Some(i) && slot_of(
            detached(s, c),
            x,
        ) == Some(if j < i { j } else { j - 1 }),
{
    lemma_detached_wf(s, c);
    let i = slot_of(s, c).unwrap();
    let j = slot_of(s, x).unwrap();
    lemma_slot_of_contains(s, c);
    lemma_slot_of_contains(s, x);
    let t = detached(s, c);
    let k = if j < i { j } else { j - 1 };
    assert(j != i);
    assert(t[k] == x);
    lemma_slot_of_index(t, k);
}

/// The ordered registry of the cards in play.
pub struct Hand {
    cards: Vec<CardId>,
}

impl View for Hand {
    type V = Seq<CardId>;

    closed spec fn view(&self) -> Seq<CardId> {
        self.cards@
    }
}

impl Hand {
    /// A card appears at most once.
    pub open spec fn wf(&self) -> bool {
        self@.no_duplicates()
    }

    /// An empty hand.
    pub fn new() -> (r: Hand)
        ensures
            r.wf(),
            r@ == Seq::<CardId>::empty(),
    {
        Hand { cards: Vec::new() }
    }

    /// The number of cards in the hand.
    pub fn len(&self) -> (r: usize)
        ensures
            r == self@.len(),
    {
        self.cards.len()
    }

    /// The card in slot `i`, if there is one.
    pub fn get(&self, i: usize) -> (r: Option<CardId>)
        ensures
            r == (if i < self@.len() { Some(self@[i as int]) } else { None::<CardId> }),
    {
        if i < self.cards.len() {
            Some(self.cards[i])
        } else {
            None
        }
    }

    /// The slot of `entity`: its zero-based position in insertion order.
    pub fn offset_of(&self, entity: CardId) -> (r: Option<usize>)
        requires
            self.wf(),
        ensures
            r matches Some(i) ==> slot_of(self@, entity) == Some(i as int),
            r is None ==> slot_of(self@, entity) is None,
    {
        let mut i: usize = 0;
        while i < self.cards.len()
            invariant
                self.wf(),
                0 <= i <= self@.len(),
                forall|j: int| 0 <= j < i ==> self@[j] != entity,
            decreases self@.len() - i,
        {
            if self.cards[i] == entity {
                proof {
                    lemma_slot_of_index(self@, i as int);
                }
                return Some(i);
            }
            i = i + 1;
        }
        None
    }

    /// Appends `entity` as the rightmost card; a card already present keeps
    /// its slot and is not added twice.
    pub fn insert(&mut self, entity: CardId)
        requires
            old(self).wf(),
        ensures
            final(self).wf(),
            final(self)@ == attached(old(self)@, entity),
    {
        proof {
            lemma_attached_wf(old(self)@, entity);
        }
        if self.offset_of(entity).is_none() {
            self.cards.push(entity);
        }
    }

    /// Takes `entity` out of the hand; the cards to its right move one slot
    /// left. Removing a card that is absent changes nothing.
    pub fn remove(&mut self, entity: CardId)
        requires
            old(self).wf(),
        ensures
            final(self).wf(),
            final(self)@ == detached(old(self)@, entity),
    {
        proof {
            lemma_detached_wf(old(self)@, entity);
        }
        match self.offset_of(entity) {
            Some(i) => {
                self.cards.remove(i);
            },
            None => {},
        }
    }
}

impl Default for Hand {
    fn default() -> (r: Hand)
        ensures
            r.wf(),
            r@ == Seq::<CardId>::empty(),
    {
        Hand::new()
    }
}

} // verus!
