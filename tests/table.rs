use card_table::hand::CardId;
use card_table::motion::{Position, BLEND_SCALE};
use card_table::table::Table;

const A: CardId = CardId(1);
const B: CardId = CardId(2);
const C: CardId = CardId(3);

fn p(x: i64, y: i64, z: i64) -> Position {
    Position { x, y, z }
}

fn dealt() -> Table {
    let mut t = Table::new();
    t.on_card_added(A);
    t.on_card_added(B);
    t.on_card_added(C);
    t
}

#[test]
fn three_cards_take_slots_in_attach_order() {
    let t = dealt();
    assert_eq!(t.hand.len(), 3);
    assert_eq!(t.hand.offset_of(A), Some(0));
    assert_eq!(t.hand.offset_of(B), Some(1));
    assert_eq!(t.hand.offset_of(C), Some(2));
    let mut cards = vec![(A, p(0, 0, 0)), (B, p(0, 0, 0)), (C, p(0, 0, 0))];
    for _ in 0..2000 {
        t.move_cards(&mut cards, 5);
    }
    assert_eq!(cards, vec![(A, p(0, -500, 0)), (B, p(100, -500, 0)), (C, p(200, -500, 0))]);
}

#[test]
fn held_card_follows_pointer_while_others_settle() {
    let mut t = dealt();
    assert!(t.hold_card(B));
    assert_eq!(t.grip.held, Some(B));
    let mut cards = vec![(A, p(0, 0, 0)), (B, p(0, 0, 3)), (C, p(0, 0, 0))];
    t.card_follow_mouse(&mut cards, Some((37, 41)));
    t.move_cards(&mut cards, 500);
    assert_eq!(cards, vec![(A, p(0, -250, 0)), (B, p(37, 41, 3)), (C, p(100, -250, 0))]);
    t.card_follow_mouse(&mut cards, Some((-12, 8)));
    t.move_cards(&mut cards, 500);
    assert_eq!(cards, vec![(A, p(0, -375, 0)), (B, p(-12, 8, 3)), (C, p(150, -375, 0))]);
    t.card_follow_mouse(&mut cards, None);
    assert_eq!(cards[1], (B, p(-12, 8, 3)));
}

#[test]
fn released_card_settles_back_to_its_slot() {
    let mut t = dealt();
    assert!(t.hold_card(B));
    let mut cards = vec![(B, p(0, 0, 0))];
    t.card_follow_mouse(&mut cards, Some((300, 20)));
    assert!(t.drop_card(B));
    assert_eq!(t.grip.held, None);
    t.card_follow_mouse(&mut cards, Some((900, 900)));
    assert_eq!(cards[0], (B, p(300, 20, 0)));
    t.move_cards(&mut cards, 500);
    assert_eq!(cards[0], (B, p(200, -240, 0)));
    for _ in 0..100 {
        t.move_cards(&mut cards, 500);
    }
    assert_eq!(cards[0], (B, p(100, -500, 0)));
}

#[test]
fn detaching_middle_card_shifts_right_card_left() {
    let mut t = dealt();
    t.on_card_removed(B);
    assert_eq!(t.hand.offset_of(B), None);
    assert_eq!(t.hand.offset_of(A), Some(0));
    assert_eq!(t.hand.offset_of(C), Some(1));
    let mut cards = vec![(A, p(0, -500, 0)), (C, p(200, -500, 0))];
    t.move_cards(&mut cards, BLEND_SCALE);
    assert_eq!(cards, vec![(A, p(0, -500, 0)), (C, p(100, -500, 0))]);
}

#[test]
fn second_press_does_not_move_the_grip() {
    let mut t = dealt();
    assert!(t.hold_card(A));
    assert!(!t.hold_card(B));
    assert!(!t.hold_card(A));
    assert_eq!(t.grip.held, Some(A));
    assert!(!t.drop_card(B));
    assert_eq!(t.grip.held, Some(A));
    assert!(t.drop_card(A));
    assert!(!t.drop_card(A));
    assert_eq!(t.grip.held, None);
}

#[test]
fn press_on_unknown_card_is_ignored() {
    let mut t = dealt();
    assert!(!t.hold_card(CardId(99)));
    assert_eq!(t.grip.held, None);
}

#[test]
fn removing_held_card_lets_go() {
    let mut t = dealt();
    assert!(t.hold_card(C));
    t.on_card_removed(C);
    assert_eq!(t.grip.held, None);
    assert_eq!(t.hand.len(), 2);
}

#[test]
fn held_card_does_not_settle() {
    let mut t = dealt();
    assert!(t.hold_card(A));
    let mut cards = vec![(A, p(9, 9, 9))];
    t.move_cards(&mut cards, BLEND_SCALE);
    assert_eq!(cards[0], (A, p(9, 9, 9)));
}
