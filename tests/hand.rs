use card_table::hand::{CardId, Hand};

fn ids(n: u64) -> Vec<CardId> {
    (0..n).map(|i| CardId(10 + i * 7)).collect()
}

#[test]
fn attach_in_order_gives_contiguous_slots() {
    for n in 0..6u64 {
        let mut hand = Hand::new();
        for c in ids(n) {
            hand.insert(c);
        }
        assert_eq!(hand.len(), n as usize);
        for (k, c) in ids(n).into_iter().enumerate() {
            assert_eq!(hand.get(k), Some(c));
            assert_eq!(hand.offset_of(c), Some(k));
        }
        assert_eq!(hand.get(n as usize), None);
    }
}

#[test]
fn insert_twice_keeps_one_entry() {
    let mut hand = Hand::new();
    hand.insert(CardId(1));
    hand.insert(CardId(2));
    hand.insert(CardId(1));
    assert_eq!(hand.len(), 2);
    assert_eq!(hand.offset_of(CardId(1)), Some(0));
    assert_eq!(hand.offset_of(CardId(2)), Some(1));
}

#[test]
fn detach_after_attach_leaves_no_slot() {
    let mut hand = Hand::new();
    hand.insert(CardId(4));
    hand.insert(CardId(5));
    hand.remove(CardId(5));
    assert_eq!(hand.offset_of(CardId(5)), None);
    assert_eq!(hand.offset_of(CardId(4)), Some(0));
    assert_eq!(hand.len(), 1);
}

#[test]
fn detach_absent_changes_nothing() {
    let mut hand = Hand::new();
    hand.remove(CardId(3));
    assert_eq!(hand.len(), 0);
    hand.insert(CardId(1));
    hand.insert(CardId(2));
    hand.remove(CardId(3));
    hand.remove(CardId(3));
    assert_eq!(hand.len(), 2);
    assert_eq!(hand.get(0), Some(CardId(1)));
    assert_eq!(hand.get(1), Some(CardId(2)));
}

#[test]
fn detach_middle_shifts_right_cards_left() {
    let (a, b, c) = (CardId(100), CardId(200), CardId(300));
    let mut hand = Hand::default();
    hand.insert(a);
    hand.insert(b);
    hand.insert(c);
    hand.remove(b);
    assert_eq!(hand.offset_of(b), None);
    assert_eq!(hand.offset_of(a), Some(0));
    assert_eq!(hand.offset_of(c), Some(1));
    assert_eq!(hand.len(), 2);
}

#[test]
fn offset_of_empty_hand_is_none() {
    let hand = Hand::new();
    assert_eq!(hand.offset_of(CardId(0)), None);
}
