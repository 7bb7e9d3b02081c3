use poker::{Card, Suit, Value};
use std::cmp::Ordering;

#[test]
fn valueordering() {
    let ace = Value::Ace;
    let king = Value::King;
    assert!(ace > king);
}

#[test]
fn value_ranks_run_from_two_to_ace() {
    assert_eq!(Value::Two.rank(), 2);
    assert_eq!(Value::Ten.rank(), 10);
    assert_eq!(Value::Jack.rank(), 11);
    assert_eq!(Value::Ace.rank(), 14);
    assert_eq!(Value::from_rank(12), Value::Queen);
    assert_eq!(Value::from_rank(5), Value::Five);
}

#[test]
fn value_compare_puts_ace_on_top() {
    assert_eq!(Value::Ace.compare(&Value::King), Ordering::Greater);
    assert_eq!(Value::Two.compare(&Value::Ace), Ordering::Less);
    assert_eq!(Value::Nine.compare(&Value::Nine), Ordering::Equal);
}

#[test]
fn card_compare_ignores_suit() {
    let a = Card::new(Suit::Hearts, Value::Seven);
    let b = Card::new(Suit::Clubs, Value::Seven);
    let c = Card::new(Suit::Hearts, Value::Eight);
    assert_eq!(a.compare(&b), Ordering::Equal);
    assert_ne!(a, b);
    assert_eq!(a.compare(&c), Ordering::Less);
    assert_eq!(c.compare(&b), Ordering::Greater);
}
