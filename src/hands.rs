use crate::cards::{lemma_rank_bounds, rank, value_of, Card, Value};
use crate::model::{
    all_distinct, count_rank, groups_from, groups_of, grouped_values, is_flush, is_straight,
    has_hand_shape, lemma_count_le_len, lemma_flush_shape, lemma_hand_shape, lemma_straight_shape, lemma_straight_top_range, run_at, run_slot, straight_top, values_with_count,
};
use crate::score::{
    FlushScore, FullHouseScore, HandCategory, HandScore, HighCardScore, PairScore, QuadsScore,
    StraightScore, TripsScore, TwoPairScore,
};
use vstd::prelude::*;

verus! {

/// Why a hand could not be built.
#[derive(Debug, Copy, Clone, PartialEq, Eq, Structural, Hash)]
pub enum HandError {
    /// The number of cards given was not five.
    InvalidHandSize,
    /// Two of the cards given have both the same suit and the same value.
    DuplicateCard,
}

/// Five pairwise different cards.
#[derive(Debug, Clone, Copy)]
pub struct Pokerhand {
    cards: [Card; 5],
}

impl View for Pokerhand {
    type V = Seq<Card>;

    closed spec fn view(&self) -> Seq<Card> {
        self.cards@
    }
}

/// The category of five cards: the group shape decides first, then straight and flush.
pub open spec fn category(cards: Seq<Card>) -> HandCategory {
    if groups_of(cards, 4) == 1 {
        HandCategory::FourOfAKind
    } else if groups_of(cards, 3) == 1 && groups_of(cards, 2) == 1 {
        HandCategory::FullHouse
    } else if groups_of(cards, 3) == 1 {
        HandCategory::ThreeOfAKind
    } else if groups_of(cards, 2) == 2 {
        HandCategory::TwoPair
    } else if groups_of(cards, 2) == 1 {
        HandCategory::OnePair
    } else if is_straight(cards) && is_flush(cards) {
        HandCategory::StraightFlush
    } else if is_flush(cards) {
        HandCategory::Flush
    } else if is_straight(cards) {
        HandCategory::Straight
    } else {
        HandCategory::HighCard
    }
}

/// The score of five cards: the category, with the grouped values as tie-break
/// (or the top of the run for a straight).
pub open spec fn hand_score(cards: Seq<Card>) -> HandScore {
    let g = grouped_values(cards);
    let top = value_of(straight_top(cards, 14));
    match category(cards) {
        HandCategory::HighCard => HandScore::HighCard(
            HighCardScore { top: g[0], hi: g[1], mid: g[2], low: g[3], bot: g[4] },
        ),
        HandCategory::OnePair => HandScore::OnePair(
            PairScore { pair: g[0], top_kicker: g[1], mid_kicker: g[2], low_kicker: g[3] },
        ),
        HandCategory::TwoPair => HandScore::TwoPair(
            TwoPairScore { high: g[0], low: g[1], kicker: g[2] },
        ),
        HandCategory::ThreeOfAKind => HandScore::ThreeOfAKind(
            TripsScore { triplet: g[0], top_kicker: g[1], low_kicker: g[2] },
        ),
        HandCategory::Straight => HandScore::Straight(StraightScore { top }),
        HandCategory::Flush => HandScore::Flush(
            FlushScore { top: g[0], hi: g[1], mid: g[2], low: g[3], bot: g[4] },
        ),
        HandCategory::FullHouse => HandScore::FullHouse(
            FullHouseScore { triplet: g[0], pair: g[1] },
        ),
        HandCategory::FourOfAKind => HandScore::FourOfAKind(QuadsScore { quad: g[0], kicker: g[1] }),
        HandCategory::StraightFlush => HandScore::StraightFlush(StraightScore { top }),
    }
}

impl Pokerhand {
    #[verifier::type_invariant]
    spec fn well_formed(self) -> bool {
        all_distinct(self.cards@)
    }

    /// `counts` holds, at each rank 0 ..= 14, how many cards of the hand have it.
    pub open spec fn counts_match(self, counts: Seq<u8>) -> bool {
        &&& counts.len() == 15
        &&& forall|r: int| 0 <= r < 15 ==> #[trigger] counts[r] == count_rank(self@, r)
    }

    /// Builds a hand from exactly five pairwise different cards.
    pub fn new(cards: &[Card]) -> (r: Result<Pokerhand, HandError>)
        ensures
            match r {
                Ok(h) => cards@.len() == 5 && all_distinct(cards@) && h@ == cards@,
                Err(HandError::InvalidHandSize) => cards@.len() != 5,
                Err(HandError::DuplicateCard) => cards@.len() == 5 && !all_distinct(cards@),
            },
    {
        if cards.len() != 5 {
            return Err(HandError::InvalidHandSize);
        }
        let mut i: usize = 0;
        while i < 5
            invariant
                cards@.len() == 5,
                i <= 5,
                forall|p: int, q: int| 0 <= p < q < 5 && p < i ==> cards@[p] != cards@[q],
            decreases 5 - i,
        {
            let mut j: usize = i + 1;
            while j < 5
                invariant
                    cards@.len() == 5,
                    i < 5,
                    i < j <= 5,
                    forall|p: int, q: int| 0 <= p < q < 5 && p < i ==> cards@[p] != cards@[q],
                    forall|q: int| i < q < j ==> cards@[i as int] != cards@[q],
                decreases 5 - j,
            {
                if cards[i] == cards[j] {
                    return Err(HandError::DuplicateCard);
                }
                j = j + 1;
            }
            i = i + 1;
        }
        let arr: [Card; 5] = [cards[0], cards[1], cards[2], cards[3], cards[4]];
        assert(arr@ =~= cards@);
        Ok(Pokerhand { cards: arr })
    }

    /// The five cards, in the order they were given.
    pub fn cards(&self) -> (r: [Card; 5])
        ensures
            r@ == self@,
    {
        self.cards
    }

    /// How many cards hold each rank, indexed by rank.
    fn rank_counts(&self) -> (counts: Vec<u8>)
        ensures
            self.counts_match(counts@),
    {
        let mut counts: Vec<u8> = Vec::new();
        let mut i: usize = 0;
        while i < 15
            invariant
                i <= 15,
                counts@.len() == i,
                forall|r: int| 0 <= r < i ==> counts@[r] == 0,
            decreases 15 - i,
        {
            counts.push(0);
            i = i + 1;
        }
        let mut k: usize = 0;
        assert(self@.subrange(0, 0).len() == 0);
        while k < 5
            invariant
                k <= 5,
                self@.len() == 5,
                counts@.len() == 15,
                forall|r: int| 0 <= r < 15 ==> counts@[r] == count_rank(self@.subrange(0, k as int), r),
            decreases 5 - k,
        {
            proof {
                assert(self@.subrange(0, k + 1).drop_last() =~= self@.subrange(0, k as int));
                assert(self@.subrange(0, k + 1).last() == self@[k as int]);
                lemma_rank_bounds(self@[k as int].value);
            }
            let r = self.cards[k].value.rank() as usize;
            proof {
                lemma_count_le_len(self@.subrange(0, k as int), r as int);
            }
            let n = counts[r];
            counts.set(r, n + 1);
            k = k + 1;
        }
        assert(self@.subrange(0, 5) =~= self@);
        counts
    }

    /// The values of rank at most 14 that the hand holds exactly `c` times,
    /// highest first.
    fn values_held(&self, counts: &Vec<u8>, c: u8) -> (v: Vec<Value>)
        requires
            self.counts_match(counts@),
        ensures
            v@ == values_with_count(self@, c as nat, 14),
    {
        let mut v: Vec<Value> = Vec::new();
        let mut r: u8 = 14;
        while r >= 2
            invariant
                1 <= r <= 14,
                self.counts_match(counts@),
                v@ + values_with_count(self@, c as nat, r as int) == values_with_count(self@, c as nat, 14),
            decreases r,
        {
            let ghost old_v = v@;
            if counts[r as usize] == c {
                let x = Value::from_rank(r);
                v.push(x);
                assert(old_v + values_with_count(self@, c as nat, r as int) =~= v@
                    + values_with_count(self@, c as nat, r - 1));
            }
            r = r - 1;
        }
        assert(v@ + values_with_count(self@, c as nat, r as int) =~= v@);
        v
    }

    /// Whether the five ranks `top - 4 ..= top` are each held once, the Ace
    /// standing below Two when `top` is 5.
    fn has_run(&self, counts: &Vec<u8>, top: u8) -> (b: bool)
        requires
            self.counts_match(counts@),
            5 <= top <= 14,
        ensures
            b == run_at(self@, top as int),
    {
        let low: usize = if top == 5 {
            14
        } else {
            (top - 4) as usize
        };
        let t = top as usize;
        let b = counts[low] == 1 && counts[t - 3] == 1 && counts[t - 2] == 1 && counts[t - 1] == 1
            && counts[t] == 1;
        proof {
            let tp = top as int;
            assert(run_slot(tp - 4) == low as int);
            assert(run_slot(tp - 3) == tp - 3);
            assert(run_slot(tp - 2) == tp - 2);
            assert(run_slot(tp - 1) == tp - 1);
            assert(run_slot(tp) == tp);
        }
        b
    }

    /// The top rank of the hand's straight, or 0 when it has none.
    fn run_top(&self, counts: &Vec<u8>) -> (t: u8)
        requires
            self.counts_match(counts@),
        ensures
            t == straight_top(self@, 14),
    {
        let mut top: u8 = 14;
        while top >= 5
            invariant
                4 <= top <= 14,
                self.counts_match(counts@),
                straight_top(self@, 14) == straight_top(self@, top as int),
            decreases top,
        {
            if self.has_run(counts, top) {
                return top;
            }
            top = top - 1;
        }
        0
    }

    /// Whether all five cards share one suit.
    pub fn is_flush(&self) -> (b: bool)
        ensures
            b == is_flush(self@),
    {
        let mut i: usize = 1;
        while i < 5
            invariant
                1 <= i <= 5,
                self@.len() == 5,
                forall|j: int| 0 <= j < i ==> #[trigger] self@[j].suit == self@[0].suit,
            decreases 5 - i,
        {
            if self.cards[i].suit != self.cards[0].suit {
                return false;
            }
            i = i + 1;
        }
        true
    }

    /// Whether the five values form a run, Ace to Five included.
    pub fn is_straight(&self) -> (b: bool)
        ensures
            b == is_straight(self@),
    {
        let counts = self.rank_counts();
        self.run_top(&counts) != 0
    }

    /// The score of the hand: its category and the tie-break values.
    pub fn score(&self) -> (r: HandScore)
        ensures
            r == hand_score(self@),
    {
        proof {
            use_type_invariant(self);
            lemma_hand_shape(self@);
            reveal_with_fuel(groups_from, 5);
        }
        let counts = self.rank_counts();
        let quads = self.values_held(&counts, 4);
        let trips = self.values_held(&counts, 3);
        let pairs = self.values_held(&counts, 2);
        let singles = self.values_held(&counts, 1);
        let ghost g = grouped_values(self@);
        assert(g =~= quads@ + (trips@ + (pairs@ + (singles@ + seq![]))));
        if quads.len() == 1 {
            HandScore::FourOfAKind(QuadsScore { quad: quads[0], kicker: singles[0] })
        } else if trips.len() == 1 && pairs.len() == 1 {
            HandScore::FullHouse(FullHouseScore { triplet: trips[0], pair: pairs[0] })
        } else if trips.len() == 1 {
            HandScore::ThreeOfAKind(
                TripsScore { triplet: trips[0], top_kicker: singles[0], low_kicker: singles[1] },
            )
        } else if pairs.len() == 2 {
            HandScore::TwoPair(TwoPairScore { high: pairs[0], low: pairs[1], kicker: singles[0] })
        } else if pairs.len() == 1 {
            HandScore::OnePair(
                PairScore {
                    pair: pairs[0],
                    top_kicker: singles[0],
                    mid_kicker: singles[1],
                    low_kicker: singles[2],
                },
            )
        } else {
            let top = self.run_top(&counts);
            let flush = self.is_flush();
            if top != 0 {
                proof {
                    lemma_straight_top_range(self@, 14);
                }
                let top = Value::from_rank(top);
                if flush {
                    HandScore::StraightFlush(StraightScore { top })
                } else {
                    HandScore::Straight(StraightScore { top })
                }
            } else if flush {
                HandScore::Flush(
                    FlushScore {
                        top: singles[0],
                        hi: singles[1],
                        mid: singles[2],
                        low: singles[3],
                        bot: singles[4],
                    },
                )
            } else {
                HandScore::HighCard(
                    HighCardScore {
                        top: singles[0],
                        hi: singles[1],
                        mid: singles[2],
                        low: singles[3],
                        bot: singles[4],
                    },
                )
            }
        }
    }

    /// The category of the hand.
    pub fn classify(&self) -> (c: HandCategory)
        ensures
            c == category(self@),
            c == hand_score(self@).category_spec(),
    {
        self.score().category()
    }
}

/// Every hand of five distinct cards falls under exactly one category: its values
/// group into one of the six shapes [4,1], [3,2], [3,1,1], [2,2,1], [2,1,1,1] and
/// [1,1,1,1,1], and a flush or a straight always holds five different values, so
/// straight and flush only ever refine the shape [1,1,1,1,1].
pub proof fn lemma_classification_total(cards: Seq<Card>)
    requires
        cards.len() == 5,
        all_distinct(cards),
    ensures
        has_hand_shape(cards),
        is_flush(cards) ==> groups_of(cards, 1) == 5 && groups_of(cards, 2) == 0
            && groups_of(cards, 3) == 0 && groups_of(cards, 4) == 0,
        is_straight(cards) ==> groups_of(cards, 1) == 5 && groups_of(cards, 2) == 0
            && groups_of(cards, 3) == 0 && groups_of(cards, 4) == 0,
        hand_score(cards).category_spec() == category(cards),
{
    lemma_hand_shape(cards);
    if is_flush(cards) {
        lemma_flush_shape(cards);
    }
    if is_straight(cards) {
        lemma_straight_shape(cards);
    }
}

proof fn lemma_same_counts_groups(a: Seq<Card>, b: Seq<Card>, c: nat, r: int)
    requires
        forall|q: int| count_rank(a, q) == count_rank(b, q),
    ensures
        values_with_count(a, c, r) == values_with_count(b, c, r),
    decreases r,
{
    if r >= 2 {
        lemma_same_counts_groups(a, b, c, r - 1);
        assert(count_rank(a, r) == count_rank(b, r));
    }
}

proof fn lemma_same_counts_straight(a: Seq<Card>, b: Seq<Card>, top: int)
    requires
        forall|q: int| count_rank(a, q) == count_rank(b, q),
    ensures
        straight_top(a, top) == straight_top(b, top),
    decreases top,
{
    if top >= 5 {
        lemma_same_counts_straight(a, b, top - 1);
        assert(run_at(a, top) == run_at(b, top));
    }
}

/// Suits matter only through the flush: two hands that hold each value equally
/// often, and are both flushes or both not, have the same score.
pub proof fn lemma_suits_do_not_matter(a: Seq<Card>, b: Seq<Card>)
    requires
        forall|q: int| count_rank(a, q) == count_rank(b, q),
        is_flush(a) == is_flush(b),
    ensures
        hand_score(a) == hand_score(b),
{
    reveal_with_fuel(groups_from, 5);
    lemma_same_counts_groups(a, b, 1, 14);
    lemma_same_counts_groups(a, b, 2, 14);
    lemma_same_counts_groups(a, b, 3, 14);
    lemma_same_counts_groups(a, b, 4, 14);
    lemma_same_counts_straight(a, b, 14);
    assert(grouped_values(a) == grouped_values(b));
}

impl TwoPairScore {
    /// The two-pair score of two different paired values and a kicker; the
    /// higher pair goes first. Fails when the two paired values are the same.
    pub fn new(c1: Value, c2: Value, kicker: Value) -> (r: Result<TwoPairScore, ()>)
        ensures
            match r {
                Ok(s) => {
                    &&& c1 != c2
                    &&& s.kicker == kicker
                    &&& rank(s.high) > rank(s.low)
                    &&& (s.high == c1 && s.low == c2 || s.high == c2 && s.low == c1)
                },
                Err(_) => c1 == c2,
            },
    {
        if c1 == c2 {
            return Err(());
        }
        proof {
            lemma_rank_bounds(c1);
            lemma_rank_bounds(c2);
        }
        if c1.rank() > c2.rank() {
            Ok(TwoPairScore { high: c1, low: c2, kicker })
        } else {
            Ok(TwoPairScore { high: c2, low: c1, kicker })
        }
    }
}

impl StraightScore {
    /// The straight score of a hand, or an error when its values form no run.
    pub fn new(hand: Pokerhand) -> (r: Result<StraightScore, ()>)
        ensures
            match r {
                Ok(s) => is_straight(hand@) && s.top == value_of(straight_top(hand@, 14)),
                Err(_) => !is_straight(hand@),
            },
    {
        let counts = hand.rank_counts();
        let top = hand.run_top(&counts);
        if top == 0 {
            return Err(());
        }
        proof {
            lemma_straight_top_range(hand@, 14);
        }
        Ok(StraightScore { top: Value::from_rank(top) })
    }
}

impl FlushScore {
    /// The flush score of a hand, its five values highest first, or an error when
    /// its cards do not share a suit.
    pub fn new(hand: Pokerhand) -> (r: Result<FlushScore, ()>)
        ensures
            match r {
                Ok(s) => {
                    let g = grouped_values(hand@);
                    &&& is_flush(hand@)
                    &&& g.len() == 5
                    &&& s == FlushScore { top: g[0], hi: g[1], mid: g[2], low: g[3], bot: g[4] }
                },
                Err(_) => !is_flush(hand@),
            },
    {
        if !hand.is_flush() {
            return Err(());
        }
        proof {
            use_type_invariant(&hand);
            lemma_flush_shape(hand@);
            reveal_with_fuel(groups_from, 5);
        }
        let counts = hand.rank_counts();
        let quads = hand.values_held(&counts, 4);
        let trips = hand.values_held(&counts, 3);
        let pairs = hand.values_held(&counts, 2);
        let singles = hand.values_held(&counts, 1);
        assert(grouped_values(hand@) =~= singles@);
        Ok(
            FlushScore {
                top: singles[0],
                hi: singles[1],
                mid: singles[2],
                low: singles[3],
                bot: singles[4],
            },
        )
    }
}

impl FullHouseScore {
    /// The full-house score of a hand, or an error when it does not hold one
    /// value three times and another twice.
    pub fn new(hand: Pokerhand) -> (r: Result<FullHouseScore, ()>)
        ensures
            match r {
                Ok(s) => category(hand@) == HandCategory::FullHouse && HandScore::FullHouse(s)
                    == hand_score(hand@),
                Err(_) => category(hand@) != HandCategory::FullHouse,
            },
    {
        proof {
            use_type_invariant(&hand);
            lemma_hand_shape(hand@);
            reveal_with_fuel(groups_from, 5);
        }
        let counts = hand.rank_counts();
        let quads = hand.values_held(&counts, 4);
        let trips = hand.values_held(&counts, 3);
        let pairs = hand.values_held(&counts, 2);
        let singles = hand.values_held(&counts, 1);
        assert(grouped_values(hand@) =~= quads@ + (trips@ + (pairs@ + (singles@ + seq![]))));
        if quads.len() == 0 && trips.len() == 1 && pairs.len() == 1 {
            Ok(FullHouseScore { triplet: trips[0], pair: pairs[0] })
        } else {
            Err(())
        }
    }
}

/// Whether the cards hold exactly three cards, all of one value.
pub fn is_three_of_a_kind(cards: &[Card]) -> (b: bool)
    ensures
        b == (cards@.len() == 3 && cards@[0].value == cards@[1].value && cards@[1].value
            == cards@[2].value),
{
    if cards.len() != 3 {
        return false;
    }
    cards[0].value == cards[1].value && cards[1].value == cards[2].value
}

/// Whether the cards hold exactly two cards, of one value.
pub fn is_pair(cards: &[Card]) -> (b: bool)
    ensures
        b == (cards@.len() == 2 && cards@[0].value == cards@[1].value),
{
    if cards.len() != 2 {
        return false;
    }
    cards[0].value == cards[1].value
}

/// Whether all the cards have one value (true of fewer than two cards).
pub fn same_value(cards: &[Card]) -> (b: bool)
    ensures
        b == (forall|i: int, j: int|
            0 <= i < cards@.len() && 0 <= j < cards@.len() ==> cards@[i].value == cards@[j].value),
{
    let mut i: usize = 1;
    while i < cards.len()
        invariant
            1 <= i,
            cards@.len() == 0 || i <= cards@.len(),
            forall|j: int| 0 <= j < i && j < cards@.len() ==> #[trigger] cards@[j].value == cards@[0].value,
        decreases cards.len() - i,
    {
        if cards[i].value != cards[0].value {
            return false;
        }
        i = i + 1;
    }
    true
}

} // verus!
