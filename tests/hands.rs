use poker::{
    is_pair, is_three_of_a_kind, same_value, Card, FlushScore, FullHouseScore, HandCategory,
    HandError, HandScore, HighCardScore, PairScore, Pokerhand, QuadsScore, StraightScore, Suit,
    TripsScore, TwoPairScore, Value,
};
use std::cmp::Ordering;

fn card(suit: Suit, value: Value) -> Card {
    Card::new(suit, value)
}

/// A hand of the given values, each repeated value in a new suit, and never a flush.
fn mixed(values: [Value; 5]) -> Pokerhand {
    let suits = [Suit::Hearts, Suit::Spades, Suit::Diamonds, Suit::Clubs];
    let mut cards: Vec<Card> = Vec::new();
    for i in 0..5 {
        let seen = values[..i].iter().filter(|v| **v == values[i]).count();
        cards.push(card(suits[seen], values[i]));
    }
    if cards.iter().all(|c| c.suit == Suit::Hearts) {
        cards[0] = card(Suit::Spades, values[0]);
    }
    Pokerhand::new(&cards).unwrap()
}

fn suited(suit: Suit, values: [Value; 5]) -> Pokerhand {
    let cards: Vec<Card> = values.iter().map(|v| card(suit, *v)).collect();
    Pokerhand::new(&cards).unwrap()
}

fn from_cards(cards: &[Card]) -> Pokerhand {
    Pokerhand::new(cards).unwrap()
}

use Value::{Ace, Eight, Five, Four, Jack, King, Nine, Queen, Seven, Six, Ten, Three, Two};

#[test]
fn new_rejects_four_cards() {
    let cards = [
        card(Suit::Hearts, Two),
        card(Suit::Hearts, Three),
        card(Suit::Hearts, Four),
        card(Suit::Hearts, Five),
    ];
    assert_eq!(Pokerhand::new(&cards).unwrap_err(), HandError::InvalidHandSize);
}

#[test]
fn new_rejects_six_cards() {
    let cards = [
        card(Suit::Hearts, Two),
        card(Suit::Hearts, Three),
        card(Suit::Hearts, Four),
        card(Suit::Hearts, Five),
        card(Suit::Hearts, Six),
        card(Suit::Hearts, Seven),
    ];
    assert_eq!(Pokerhand::new(&cards).unwrap_err(), HandError::InvalidHandSize);
}

#[test]
fn new_rejects_empty_input() {
    assert_eq!(Pokerhand::new(&[]).unwrap_err(), HandError::InvalidHandSize);
}

#[test]
fn new_rejects_duplicate_card() {
    let cards = [
        card(Suit::Hearts, Two),
        card(Suit::Spades, Nine),
        card(Suit::Hearts, Four),
        card(Suit::Spades, Nine),
        card(Suit::Clubs, Six),
    ];
    assert_eq!(Pokerhand::new(&cards).unwrap_err(), HandError::DuplicateCard);
}

#[test]
fn new_accepts_same_value_in_other_suits() {
    let cards = [
        card(Suit::Hearts, Nine),
        card(Suit::Spades, Nine),
        card(Suit::Diamonds, Nine),
        card(Suit::Clubs, Nine),
        card(Suit::Clubs, Six),
    ];
    let h = Pokerhand::new(&cards).unwrap();
    assert_eq!(h.cards(), cards);
}

#[test]
fn classify_high_card() {
    let h = mixed([Two, Five, Seven, Nine, Jack]);
    assert_eq!(h.classify(), HandCategory::HighCard);
    assert_eq!(
        h.score(),
        HandScore::HighCard(HighCardScore { top: Jack, hi: Nine, mid: Seven, low: Five, bot: Two })
    );
}

#[test]
fn classify_one_pair() {
    let h = mixed([Four, King, Four, Two, Nine]);
    assert_eq!(h.classify(), HandCategory::OnePair);
    assert_eq!(
        h.score(),
        HandScore::OnePair(PairScore {
            pair: Four,
            top_kicker: King,
            mid_kicker: Nine,
            low_kicker: Two
        })
    );
}

#[test]
fn classify_two_pair() {
    let h = mixed([Ace, Ace, King, King, Two]);
    assert_eq!(h.classify(), HandCategory::TwoPair);
    assert_eq!(h.score(), HandScore::TwoPair(TwoPairScore { high: Ace, low: King, kicker: Two }));
}

#[test]
fn classify_three_of_a_kind() {
    let h = mixed([Eight, Three, Eight, Queen, Eight]);
    assert_eq!(h.classify(), HandCategory::ThreeOfAKind);
    assert_eq!(
        h.score(),
        HandScore::ThreeOfAKind(TripsScore { triplet: Eight, top_kicker: Queen, low_kicker: Three })
    );
}

#[test]
fn classify_straight() {
    let h = mixed([Nine, Five, Seven, Eight, Six]);
    assert_eq!(h.classify(), HandCategory::Straight);
    assert_eq!(h.score(), HandScore::Straight(StraightScore { top: Nine }));
    assert!(h.is_straight());
    assert!(!h.is_flush());
}

#[test]
fn classify_broadway_straight() {
    let h = mixed([Ace, King, Queen, Jack, Ten]);
    assert_eq!(h.score(), HandScore::Straight(StraightScore { top: Ace }));
}

#[test]
fn ace_does_not_wrap_around() {
    let h = mixed([Queen, King, Ace, Two, Three]);
    assert!(!h.is_straight());
    assert_eq!(h.classify(), HandCategory::HighCard);
}

#[test]
fn classify_flush() {
    let h = suited(Suit::Diamonds, [Two, Four, Six, Eight, Ten]);
    assert_eq!(h.classify(), HandCategory::Flush);
    assert_eq!(
        h.score(),
        HandScore::Flush(FlushScore { top: Ten, hi: Eight, mid: Six, low: Four, bot: Two })
    );
    assert!(h.is_flush());
    assert!(!h.is_straight());
}

#[test]
fn classify_full_house() {
    let h = mixed([Three, Jack, Jack, Three, Jack]);
    assert_eq!(h.classify(), HandCategory::FullHouse);
    assert_eq!(h.score(), HandScore::FullHouse(FullHouseScore { triplet: Jack, pair: Three }));
}

#[test]
fn classify_four_of_a_kind() {
    let h = mixed([Five, Five, Ace, Five, Five]);
    assert_eq!(h.classify(), HandCategory::FourOfAKind);
    assert_eq!(h.score(), HandScore::FourOfAKind(QuadsScore { quad: Five, kicker: Ace }));
}

#[test]
fn classify_straight_flush() {
    let h = suited(Suit::Spades, [Six, Seven, Eight, Nine, Ten]);
    assert_eq!(h.classify(), HandCategory::StraightFlush);
    assert_eq!(h.score(), HandScore::StraightFlush(StraightScore { top: Ten }));
}

#[test]
fn wheel_is_lowest_straight() {
    let wheel = mixed([Ace, Two, Three, Four, Five]);
    assert_eq!(wheel.classify(), HandCategory::Straight);
    assert_eq!(wheel.score(), HandScore::Straight(StraightScore { top: Five }));
    let six_high = mixed([Two, Three, Four, Five, Six]);
    assert_eq!(wheel.score().compare(&six_high.score()), Ordering::Less);
    assert!(wheel.score() < six_high.score());
}

#[test]
fn flush_beats_straight() {
    let flush = suited(Suit::Hearts, [Two, Four, Six, Eight, Ten]);
    let straight = mixed([Five, Six, Seven, Eight, Nine]);
    assert_eq!(flush.score().compare(&straight.score()), Ordering::Greater);
    assert!(flush.score() > straight.score());
}

#[test]
fn higher_pair_beats_better_kicker() {
    let aces_kings = mixed([Ace, Ace, King, King, Two]);
    let queens_jacks = mixed([Queen, Queen, Jack, Jack, Ace]);
    assert_eq!(aces_kings.score(), HandScore::TwoPair(TwoPairScore { high: Ace, low: King, kicker: Two }));
    assert_eq!(
        queens_jacks.score(),
        HandScore::TwoPair(TwoPairScore { high: Queen, low: Jack, kicker: Ace })
    );
    assert_eq!(aces_kings.score().compare(&queens_jacks.score()), Ordering::Greater);
}

#[test]
fn kicker_decides_between_equal_pairs() {
    let a = mixed([Nine, Nine, Four, Four, King]);
    let b = mixed([Four, Nine, Nine, Queen, Four]);
    assert_eq!(a.score().compare(&b.score()), Ordering::Greater);
    assert_eq!(b.score().compare(&a.score()), Ordering::Less);
}

#[test]
fn same_values_in_other_suits_tie() {
    let a = mixed([Two, Five, Seven, Nine, Jack]);
    let b = from_cards(&[
        card(Suit::Clubs, Two),
        card(Suit::Clubs, Five),
        card(Suit::Hearts, Seven),
        card(Suit::Diamonds, Nine),
        card(Suit::Spades, Jack),
    ]);
    assert_eq!(a.score(), b.score());
    assert_eq!(a.score().compare(&b.score()), Ordering::Equal);
}

#[test]
fn category_order_beats_values() {
    let straight_flush = suited(Suit::Clubs, [Two, Three, Four, Five, Six]);
    let quads = mixed([Ace, Ace, Ace, Ace, King]);
    let full_house = mixed([Ace, Ace, Ace, King, King]);
    let high = mixed([Ace, King, Queen, Jack, Nine]);
    let pair = mixed([Two, Two, Three, Four, Five]);
    assert_eq!(straight_flush.score().compare(&quads.score()), Ordering::Greater);
    assert_eq!(quads.score().compare(&full_house.score()), Ordering::Greater);
    assert_eq!(full_house.score().compare(&straight_flush.score()), Ordering::Less);
    assert_eq!(high.score().compare(&pair.score()), Ordering::Less);
}

#[test]
fn compare_is_reflexive_antisymmetric_transitive() {
    let hands = [
        mixed([Two, Five, Seven, Nine, Jack]),
        mixed([Ace, Ace, King, King, Two]),
        mixed([Ace, Two, Three, Four, Five]),
        suited(Suit::Hearts, [Two, Four, Six, Eight, Ten]),
        mixed([Three, Jack, Jack, Three, Jack]),
    ];
    for a in hands.iter() {
        assert_eq!(a.score().compare(&a.score()), Ordering::Equal);
        for b in hands.iter() {
            let ab = a.score().compare(&b.score());
            assert_eq!(ab, b.score().compare(&a.score()).reverse());
            assert_eq!(ab, a.score().cmp(&b.score()));
            for c in hands.iter() {
                if ab == Ordering::Less && b.score().compare(&c.score()) == Ordering::Less {
                    assert_eq!(a.score().compare(&c.score()), Ordering::Less);
                }
            }
        }
    }
}

#[test]
fn score_category_matches_classify() {
    let h = mixed([Eight, Three, Eight, Queen, Eight]);
    assert_eq!(h.score().category(), h.classify());
}

#[test]
fn two_pair_score_orders_its_pairs() {
    assert_eq!(
        TwoPairScore::new(Three, Jack, Ace),
        Ok(TwoPairScore { high: Jack, low: Three, kicker: Ace })
    );
    assert_eq!(
        TwoPairScore::new(King, Four, Two),
        Ok(TwoPairScore { high: King, low: Four, kicker: Two })
    );
    assert_eq!(TwoPairScore::new(Six, Six, Two), Err(()));
}

#[test]
fn straight_score_needs_a_run() {
    assert_eq!(
        StraightScore::new(mixed([Ace, Two, Three, Four, Five])),
        Ok(StraightScore { top: Five })
    );
    assert_eq!(StraightScore::new(mixed([Ace, Two, Three, Four, Six])), Err(()));
}

#[test]
fn flush_score_needs_one_suit() {
    assert_eq!(
        FlushScore::new(suited(Suit::Clubs, [King, Two, Nine, Four, Seven])),
        Ok(FlushScore { top: King, hi: Nine, mid: Seven, low: Four, bot: Two })
    );
    assert_eq!(FlushScore::new(mixed([King, Two, Nine, Four, Seven])), Err(()));
}

#[test]
fn full_house_score_needs_trips_and_pair() {
    assert_eq!(
        FullHouseScore::new(mixed([Two, Two, Nine, Nine, Nine])),
        Ok(FullHouseScore { triplet: Nine, pair: Two })
    );
    assert_eq!(FullHouseScore::new(mixed([Two, Two, Nine, Nine, Four])), Err(()));
    assert_eq!(FullHouseScore::new(mixed([Two, Nine, Nine, Nine, Nine])), Err(()));
}

#[test]
fn group_helpers() {
    let nines = [card(Suit::Hearts, Nine), card(Suit::Clubs, Nine), card(Suit::Spades, Nine)];
    assert!(is_three_of_a_kind(&nines));
    assert!(!is_three_of_a_kind(&nines[..2]));
    assert!(is_pair(&nines[..2]));
    assert!(!is_pair(&nines));
    assert!(same_value(&nines));
    assert!(same_value(&[]));
    let mixed_values = [card(Suit::Hearts, Nine), card(Suit::Clubs, Ten)];
    assert!(!is_pair(&mixed_values));
    assert!(!same_value(&mixed_values));
}
