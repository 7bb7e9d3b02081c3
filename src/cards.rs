use std::cmp::Ordering;
use vstd::prelude::*;

verus! {

/// The four suits. They carry no order: a suit only ever matters through equality.
#[derive(Debug, Copy, Clone, PartialEq, Eq, Structural, Hash)]
pub enum Suit {
    Hearts,
    Spades,
    Diamonds,
    Clubs,
}

/// The thirteen card values, declared from lowest to highest so that the derived
/// order is the poker order, Ace strictly on top.
#[derive(Debug, Copy, Clone, PartialEq, Eq, Structural, PartialOrd, Ord, Hash)]
pub enum Value {
    Two,
    Three,
    Four,
    Five,
    Six,
    Seven,
    Eight,
    Nine,
    Ten,
    Jack,
    Queen,
    King,
    Ace,
}

/// The numeric rank of a value: Two is 2, ..., Ten is 10, Jack 11, Queen 12,
/// King 13 and Ace 14.
pub open spec fn rank(v: Value) -> int {
    match v {
        Value::Two => 2,
        Value::Three => 3,
        Value::Four => 4,
        Value::Five => 5,
        Value::Six => 6,
        Value::Seven => 7,
        Value::Eight => 8,
        Value::Nine => 9,
        Value::Ten => 10,
        Value::Jack => 11,
        Value::Queen => 12,
        Value::King => 13,
        Value::Ace => 14,
    }
}

/// The value whose rank is `r`; ranks outside 2..=14 map to Two.
pub open spec fn value_of(r: int) -> Value {
    if r == 14 {
        Value::Ace
    } else if r == 13 {
        Value::King
    } else if r == 12 {
        Value::Queen
    } else if r == 11 {
        Value::Jack
    } else if r == 10 {
        Value::Ten
    } else if r == 9 {
        Value::Nine
    } else if r == 8 {
        Value::Eight
    } else if r == 7 {
        Value::Seven
    } else if r == 6 {
        Value::Six
    } else if r == 5 {
        Value::Five
    } else if r == 4 {
        Value::Four
    } else if r == 3 {
        Value::Three
    } else {
        Value::Two
    }
}

/// The order of ranks as an `Ordering`.
pub open spec fn int_cmp(a: int, b: int) -> Ordering {
    if a < b {
        Ordering::Less
    } else if a > b {
        Ordering::Greater
    } else {
        Ordering::Equal
    }
}

pub proof fn lemma_rank_bounds(v: Value)
    ensures
        2 <= rank(v) <= 14,
        value_of(rank(v)) == v,
{
}

impl Value {
    /// The rank of this value (Two is 2, Ace is 14).
    pub fn rank(&self) -> (r: u8)
        ensures
            r == rank(*self),
    {
        match self {
            Value::Two => 2,
            Value::Three => 3,
            Value::Four => 4,
            Value::Five => 5,
            Value::Six => 6,
            Value::Seven => 7,
            Value::Eight => 8,
            Value::Nine => 9,
            Value::Ten => 10,
            Value::Jack => 11,
            Value::Queen => 12,
            Value::King => 13,
            Value::Ace => 14,
        }
    }

    /// The value of rank `r`.
    pub fn from_rank(r: u8) -> (v: Value)
        requires
            2 <= r <= 14,
        ensures
            rank(v) == r,
            v == value_of(r as int),
    {
        if r == 14 {
            Value::Ace
        } else if r == 13 {
            Value::King
        } else if r == 12 {
            Value::Queen
        } else if r == 11 {
            Value::Jack
        } else if r == 10 {
            Value::Ten
        } else if r == 9 {
            Value::Nine
        } else if r == 8 {
            Value::Eight
        } else if r == 7 {
            Value::Seven
        } else if r == 6 {
            Value::Six
        } else if r == 5 {
            Value::Five
        } else if r == 4 {
            Value::Four
        } else if r == 3 {
            Value::Three
        } else {
            Value::Two
        }
    }

    /// Compares two values by rank, Ace highest.
    pub fn compare(&self, other: &Value) -> (r: Ordering)
        ensures
            r == int_cmp(rank(*self), rank(*other)),
    {
        let a = self.rank();
        let b = other.rank();
        if a < b {
            Ordering::Less
        } else if a > b {
            Ordering::Greater
        } else {
            Ordering::Equal
        }
    }
}

/// One playing card. Two cards are equal when both suit and value match.
#[derive(Debug, Copy, Clone, PartialEq, Eq, Structural, Hash)]
pub struct Card {
    pub suit: Suit,
    pub value: Value,
}

impl Card {
    pub fn new(suit: Suit, value: Value) -> (c: Card)
        ensures
            c.suit == suit,
            c.value == value,
    {
        Card { suit, value }
    }

    /// Compares two cards by value alone; the suit plays no part.
    pub fn compare(&self, other: &Card) -> (r: Ordering)
        ensures
            r == int_cmp(rank(self.value), rank(other.value)),
    {
        self.value.compare(&other.value)
    }
}

} // verus!
