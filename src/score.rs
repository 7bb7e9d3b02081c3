use crate::cards::{lemma_rank_bounds, rank, Value};
use std::cmp::Ordering;
use vstd::prelude::*;

verus! {

/// The hand categories, declared from weakest to strongest.
#[derive(Debug, Copy, Clone, PartialEq, Eq, Structural, PartialOrd, Ord, Hash)]
pub enum HandCategory {
    HighCard,
    OnePair,
    TwoPair,
    ThreeOfAKind,
    Straight,
    Flush,
    FullHouse,
    FourOfAKind,
    StraightFlush,
}

/// The strength of a category: HighCard is 0, StraightFlush is 8.
pub open spec fn strength(c: HandCategory) -> int {
    match c {
        HandCategory::HighCard => 0,
        HandCategory::OnePair => 1,
        HandCategory::TwoPair => 2,
        HandCategory::ThreeOfAKind => 3,
        HandCategory::Straight => 4,
        HandCategory::Flush => 5,
        HandCategory::FullHouse => 6,
        HandCategory::FourOfAKind => 7,
        HandCategory::StraightFlush => 8,
    }
}

/// Five values without a group, highest first.
#[derive(Debug, Copy, Clone, PartialEq, Eq, Structural, PartialOrd, Ord, Hash)]
pub struct HighCardScore {
    pub top: Value,
    pub hi: Value,
    pub mid: Value,
    pub low: Value,
    pub bot: Value,
}

/// The paired value, then the three kickers, highest first.
#[derive(Debug, Copy, Clone, PartialEq, Eq, Structural, PartialOrd, Ord, Hash)]
pub struct PairScore {
    pub pair: Value,
    pub top_kicker: Value,
    pub mid_kicker: Value,
    pub low_kicker: Value,
}

/// The higher pair, the lower pair, then the kicker.
#[derive(Debug, Copy, Clone, PartialEq, Eq, Structural, PartialOrd, Ord, Hash)]
pub struct TwoPairScore {
    pub high: Value,
    pub low: Value,
    pub kicker: Value,
}

/// The value held three times, then the two kickers, highest first.
#[derive(Debug, Copy, Clone, PartialEq, Eq, Structural, PartialOrd, Ord, Hash)]
pub struct TripsScore {
    pub triplet: Value,
    pub top_kicker: Value,
    pub low_kicker: Value,
}

/// The top value of the run; Five for the wheel (Ace to Five).
#[derive(Debug, Copy, Clone, PartialEq, Eq, Structural, PartialOrd, Ord, Hash)]
pub struct StraightScore {
    pub top: Value,
}

/// The five values of a flush, highest first.
#[derive(Debug, Copy, Clone, PartialEq, Eq, Structural, PartialOrd, Ord, Hash)]
pub struct FlushScore {
    pub top: Value,
    pub hi: Value,
    pub mid: Value,
    pub low: Value,
    pub bot: Value,
}

/// The value held three times, then the paired value.
#[derive(Debug, Copy, Clone, PartialEq, Eq, Structural, PartialOrd, Ord, Hash)]
pub struct FullHouseScore {
    pub triplet: Value,
    pub pair: Value,
}

/// The value held four times, then the kicker.
#[derive(Debug, Copy, Clone, PartialEq, Eq, Structural, PartialOrd, Ord, Hash)]
pub struct QuadsScore {
    pub quad: Value,
    pub kicker: Value,
}

/// A hand's category with the tie-break data that ranks hands of that category.
/// Variants stand from weakest to strongest and each payload lists its most
/// significant value first, so the derived order agrees with `compare`.
#[derive(Debug, Copy, Clone, PartialEq, Eq, Structural, PartialOrd, Ord, Hash)]
pub enum HandScore {
    HighCard(HighCardScore),
    OnePair(PairScore),
    TwoPair(TwoPairScore),
    ThreeOfAKind(TripsScore),
    Straight(StraightScore),
    Flush(FlushScore),
    FullHouse(FullHouseScore),
    FourOfAKind(QuadsScore),
    StraightFlush(StraightScore),
}

/// Lexicographic order on sequences of ranks; a proper prefix comes first.
pub open spec fn lex_cmp(a: Seq<int>, b: Seq<int>) -> Ordering
    decreases a.len(),
{
    if a.len() == 0 {
        if b.len() == 0 {
            Ordering::Equal
        } else {
            Ordering::Less
        }
    } else if b.len() == 0 {
        Ordering::Greater
    } else if a[0] < b[0] {
        Ordering::Less
    } else if a[0] > b[0] {
        Ordering::Greater
    } else {
        lex_cmp(a.drop_first(), b.drop_first())
    }
}

/// The opposite outcome of a comparison.
pub open spec fn flip(o: Ordering) -> Ordering {
    match o {
        Ordering::Less => Ordering::Greater,
        Ordering::Greater => Ordering::Less,
        Ordering::Equal => Ordering::Equal,
    }
}

pub open spec fn widen(s: Seq<u8>) -> Seq<int> {
    s.map_values(|x: u8| x as int)
}

impl HandScore {
    pub open spec fn category_spec(self) -> HandCategory {
        match self {
            HandScore::HighCard(_) => HandCategory::HighCard,
            HandScore::OnePair(_) => HandCategory::OnePair,
            HandScore::TwoPair(_) => HandCategory::TwoPair,
            HandScore::ThreeOfAKind(_) => HandCategory::ThreeOfAKind,
            HandScore::Straight(_) => HandCategory::Straight,
            HandScore::Flush(_) => HandCategory::Flush,
            HandScore::FullHouse(_) => HandCategory::FullHouse,
            HandScore::FourOfAKind(_) => HandCategory::FourOfAKind,
            HandScore::StraightFlush(_) => HandCategory::StraightFlush,
        }
    }

    /// The tie-break tuple as ranks, most significant first.
    pub open spec fn tie_break(self) -> Seq<int> {
        match self {
            HandScore::HighCard(s) => seq![rank(s.top), rank(s.hi), rank(s.mid), rank(s.low), rank(s.bot)],
            HandScore::OnePair(s) => seq![rank(s.pair), rank(s.top_kicker), rank(s.mid_kicker), rank(s.low_kicker)],
            HandScore::TwoPair(s) => seq![rank(s.high), rank(s.low), rank(s.kicker)],
            HandScore::ThreeOfAKind(s) => seq![rank(s.triplet), rank(s.top_kicker), rank(s.low_kicker)],
            HandScore::Straight(s) => seq![rank(s.top)],
            HandScore::Flush(s) => seq![rank(s.top), rank(s.hi), rank(s.mid), rank(s.low), rank(s.bot)],
            HandScore::FullHouse(s) => seq![rank(s.triplet), rank(s.pair)],
            HandScore::FourOfAKind(s) => seq![rank(s.quad), rank(s.kicker)],
            HandScore::StraightFlush(s) => seq![rank(s.top)],
        }
    }

    /// The composite score: category strength, then the tie-break tuple.
    pub open spec fn key(self) -> Seq<int> {
        seq![strength(self.category_spec())] + self.tie_break()
    }

    /// The category of this score.
    pub fn category(&self) -> (c: HandCategory)
        ensures
            c == self.category_spec(),
    {
        match self {
            HandScore::HighCard(_) => HandCategory::HighCard,
            HandScore::OnePair(_) => HandCategory::OnePair,
            HandScore::TwoPair(_) => HandCategory::TwoPair,
            HandScore::ThreeOfAKind(_) => HandCategory::ThreeOfAKind,
            HandScore::Straight(_) => HandCategory::Straight,
            HandScore::Flush(_) => HandCategory::Flush,
            HandScore::FullHouse(_) => HandCategory::FullHouse,
            HandScore::FourOfAKind(_) => HandCategory::FourOfAKind,
            HandScore::StraightFlush(_) => HandCategory::StraightFlush,
        }
    }

    fn key_ranks(&self) -> (v: Vec<u8>)
        ensures
            widen(v@) == self.key(),
    {
        let mut v: Vec<u8> = Vec::new();
        match self {
            HandScore::HighCard(s) => {
                v.push(0);
                v.push(s.top.rank());
                v.push(s.hi.rank());
                v.push(s.mid.rank());
                v.push(s.low.rank());
                v.push(s.bot.rank());
            },
            HandScore::OnePair(s) => {
                v.push(1);
                v.push(s.pair.rank());
                v.push(s.top_kicker.rank());
                v.push(s.mid_kicker.rank());
                v.push(s.low_kicker.rank());
            },
            HandScore::TwoPair(s) => {
                v.push(2);
                v.push(s.high.rank());
                v.push(s.low.rank());
                v.push(s.kicker.rank());
            },
            HandScore::ThreeOfAKind(s) => {
                v.push(3);
                v.push(s.triplet.rank());
                v.push(s.top_kicker.rank());
                v.push(s.low_kicker.rank());
            },
            HandScore::Straight(s) => {
                v.push(4);
                v.push(s.top.rank());
            },
            HandScore::Flush(s) => {
                v.push(5);
                v.push(s.top.rank());
                v.push(s.hi.rank());
                v.push(s.mid.rank());
                v.push(s.low.rank());
                v.push(s.bot.rank());
            },
            HandScore::FullHouse(s) => {
                v.push(6);
                v.push(s.triplet.rank());
                v.push(s.pair.rank());
            },
            HandScore::FourOfAKind(s) => {
                v.push(7);
                v.push(s.quad.rank());
                v.push(s.kicker.rank());
            },
            HandScore::StraightFlush(s) => {
                v.push(8);
                v.push(s.top.rank());
            },
        }
        assert(widen(v@) =~= self.key());
        v
    }

    /// Compares two scores: by category strength first, then by the tie-break
    /// tuples element by element. `Equal` means the hands tie.
    pub fn compare(&self, other: &HandScore) -> (r: Ordering)
        ensures
            r == lex_cmp(self.key(), other.key()),
    {
        let a = self.key_ranks();
        let b = other.key_ranks();
        lex_compare(&a, &b)
    }
}

fn lex_compare(a: &Vec<u8>, b: &Vec<u8>) -> (r: Ordering)
    ensures
        r == lex_cmp(widen(a@), widen(b@)),
{
    let mut i: usize = 0;
    assert(widen(a@).skip(0) =~= widen(a@));
    assert(widen(b@).skip(0) =~= widen(b@));
    while i < a.len() && i < b.len()
        invariant
            i <= a.len(),
            i <= b.len(),
            lex_cmp(widen(a@), widen(b@)) == lex_cmp(widen(a@).skip(i as int), widen(b@).skip(i as int)),
        decreases a.len() - i,
    {
        let (x, y) = (a[i], b[i]);
        assert(widen(a@).skip(i as int)[0] == x as int);
        assert(widen(b@).skip(i as int)[0] == y as int);
        if x < y {
            return Ordering::Less;
        } else if x > y {
            return Ordering::Greater;
        }
        assert(widen(a@).skip(i as int).drop_first() =~= widen(a@).skip(i + 1));
        assert(widen(b@).skip(i as int).drop_first() =~= widen(b@).skip(i + 1));
        i = i + 1;
    }
    if a.len() == b.len() {
        Ordering::Equal
    } else if i == a.len() {
        Ordering::Less
    } else {
        Ordering::Greater
    }
}

proof fn lemma_lex_reflexive(a: Seq<int>)
    ensures
        lex_cmp(a, a) == Ordering::Equal,
    decreases a.len(),
{
    if a.len() > 0 {
        lemma_lex_reflexive(a.drop_first());
    }
}

proof fn lemma_lex_flip(a: Seq<int>, b: Seq<int>)
    ensures
        lex_cmp(a, b) == flip(lex_cmp(b, a)),
    decreases a.len(),
{
    if a.len() > 0 && b.len() > 0 {
        lemma_lex_flip(a.drop_first(), b.drop_first());
    }
}

proof fn lemma_lex_equal(a: Seq<int>, b: Seq<int>)
    requires
        lex_cmp(a, b) == Ordering::Equal,
    ensures
        a == b,
    decreases a.len(),
{
    if a.len() > 0 && b.len() > 0 {
        lemma_lex_equal(a.drop_first(), b.drop_first());
        assert(a =~= seq![a[0]] + a.drop_first());
        assert(b =~= seq![b[0]] + b.drop_first());
    }
}

proof fn lemma_lex_transitive(a: Seq<int>, b: Seq<int>, c: Seq<int>)
    ensures
        lex_cmp(a, b) != Ordering::Greater && lex_cmp(b, c) != Ordering::Greater ==> lex_cmp(a, c)
            != Ordering::Greater,
        lex_cmp(a, b) == Ordering::Less && lex_cmp(b, c) != Ordering::Greater ==> lex_cmp(a, c)
            == Ordering::Less,
        lex_cmp(a, b) != Ordering::Greater && lex_cmp(b, c) == Ordering::Less ==> lex_cmp(a, c)
            == Ordering::Less,
    decreases a.len(),
{
    if a.len() > 0 && b.len() > 0 && c.len() > 0 {
        lemma_lex_transitive(a.drop_first(), b.drop_first(), c.drop_first());
    }
}

proof fn lemma_key_injective(a: HandScore, b: HandScore)
    requires
        a.key() == b.key(),
    ensures
        a == b,
{
    assert(a.key()[0] == strength(a.category_spec()));
    assert(b.key()[0] == strength(b.category_spec()));
    assert(a.category_spec() == b.category_spec());
    assert(a.tie_break() =~= a.key().drop_first());
    assert(b.tie_break() =~= b.key().drop_first());
    let (ta, tb) = (a.tie_break(), b.tie_break());
    assert(ta.len() == tb.len());
    assert forall|i: int| 0 <= i < ta.len() implies ta[i] == tb[i] by {
        assert(ta[i] == a.key()[i + 1]);
    }
    assert forall|x: Value, y: Value| rank(x) == rank(y) implies x == y by {
        lemma_rank_bounds(x);
        lemma_rank_bounds(y);
    }
    if ta.len() > 0 {
        assert(ta[0] == tb[0]);
    }
    if ta.len() > 1 {
        assert(ta[1] == tb[1]);
    }
    if ta.len() > 2 {
        assert(ta[2] == tb[2]);
    }
    if ta.len() > 3 {
        assert(ta[3] == tb[3]);
    }
    if ta.len() > 4 {
        assert(ta[4] == tb[4]);
    }
}

/// A score compares equal to itself.
pub proof fn lemma_compare_reflexive(a: HandScore)
    ensures
        lex_cmp(a.key(), a.key()) == Ordering::Equal,
{
    lemma_lex_reflexive(a.key());
}

/// Swapping the two scores flips the outcome, and only equal scores compare equal.
pub proof fn lemma_compare_antisymmetric(a: HandScore, b: HandScore)
    ensures
        lex_cmp(a.key(), b.key()) == flip(lex_cmp(b.key(), a.key())),
        lex_cmp(a.key(), b.key()) == Ordering::Equal <==> a == b,
{
    lemma_lex_flip(a.key(), b.key());
    lemma_lex_reflexive(a.key());
    if lex_cmp(a.key(), b.key()) == Ordering::Equal {
        lemma_lex_equal(a.key(), b.key());
        lemma_key_injective(a, b);
    }
}

/// The order on scores is transitive, for "at most" and for "below".
pub proof fn lemma_compare_transitive(a: HandScore, b: HandScore, c: HandScore)
    ensures
        lex_cmp(a.key(), b.key()) != Ordering::Greater && lex_cmp(b.key(), c.key())
            != Ordering::Greater ==> lex_cmp(a.key(), c.key()) != Ordering::Greater,
        lex_cmp(a.key(), b.key()) == Ordering::Less && lex_cmp(b.key(), c.key())
            == Ordering::Less ==> lex_cmp(a.key(), c.key()) == Ordering::Less,
{
    lemma_lex_transitive(a.key(), b.key(), c.key());
}

/// A stronger category wins whatever the values in either hand.
pub proof fn lemma_category_decides(a: HandScore, b: HandScore)
    requires
        strength(a.category_spec()) < strength(b.category_spec()),
    ensures
        lex_cmp(a.key(), b.key()) == Ordering::Less,
{
}

} // verus!
