use crate::cards::{lemma_rank_bounds, rank, value_of, Card, Value};
use vstd::prelude::*;

verus! {

/// All cards of the sequence are pairwise different (suit and value).
pub open spec fn all_distinct(cards: Seq<Card>) -> bool {
    forall|i: int, j: int| 0 <= i < j < cards.len() ==> cards[i] != cards[j]
}

/// How many cards of the sequence have a value of rank `r`.
pub open spec fn count_rank(cards: Seq<Card>, r: int) -> nat
    decreases cards.len(),
{
    if cards.len() == 0 {
        0
    } else {
        count_rank(cards.drop_last(), r) + if rank(cards.last().value) == r {
            1nat
        } else {
            0nat
        }
    }
}

/// The values of rank at most `r` that the cards hold exactly `c` times, highest first.
pub open spec fn values_with_count(cards: Seq<Card>, c: nat, r: int) -> Seq<Value>
    decreases r,
{
    if r < 2 {
        seq![]
    } else if count_rank(cards, r) == c {
        seq![value_of(r)] + values_with_count(cards, c, r - 1)
    } else {
        values_with_count(cards, c, r - 1)
    }
}

/// How many distinct values the cards hold exactly `c` times.
pub open spec fn groups_of(cards: Seq<Card>, c: nat) -> nat {
    values_with_count(cards, c, 14).len()
}

/// The values held `c` times, then those held `c - 1` times, and so on down to
/// once; highest value first within each group.
pub open spec fn groups_from(cards: Seq<Card>, c: nat) -> Seq<Value>
    decreases c,
{
    if c == 0 {
        seq![]
    } else {
        values_with_count(cards, c, 14) + groups_from(cards, (c - 1) as nat)
    }
}

/// The tie-break order of a hand's values: each distinct value once, larger groups
/// first, and the higher value first among groups of one size.
pub open spec fn grouped_values(cards: Seq<Card>) -> Seq<Value> {
    groups_from(cards, 4)
}

/// All cards share the suit of the first.
pub open spec fn is_flush(cards: Seq<Card>) -> bool {
    forall|i: int| 0 <= i < cards.len() ==> #[trigger] cards[i].suit == cards[0].suit
}

/// Where rank `r` of a run is counted: rank 1 is the Ace below Two.
pub open spec fn run_slot(r: int) -> int {
    if r == 1 {
        14
    } else {
        r
    }
}

/// The five ranks `top - 4 ..= top` are each held exactly once, where rank 1
/// stands for the Ace (the wheel, Ace to Five).
pub open spec fn run_at(cards: Seq<Card>, top: int) -> bool {
    forall|r: int| top - 4 <= r <= top ==> count_rank(cards, #[trigger] run_slot(r)) == 1
}

/// The top rank of the highest run of five ending at or below `top`, or 0 when
/// there is none. A wheel's top rank is Five.
pub open spec fn straight_top(cards: Seq<Card>, top: int) -> int
    decreases top,
{
    if top < 5 {
        0
    } else if run_at(cards, top) {
        top
    } else {
        straight_top(cards, top - 1)
    }
}

pub proof fn lemma_straight_top_range(cards: Seq<Card>, top: int)
    ensures
        straight_top(cards, top) == 0 || 5 <= straight_top(cards, top) <= top,
    decreases top,
{
    if top >= 5 {
        lemma_straight_top_range(cards, top - 1);
    }
}

proof fn lemma_straight_top_run(cards: Seq<Card>, top: int)
    requires
        straight_top(cards, top) != 0,
    ensures
        run_at(cards, straight_top(cards, top)),
    decreases top,
{
    if top >= 5 && !run_at(cards, top) {
        lemma_straight_top_run(cards, top - 1);
    }
}

/// How many of the five ranks of the run ending at `top` lie in 2 ..= r.
pub open spec fn run_slots_upto(top: int, r: int) -> int {
    (if run_slot(top - 4) <= r { 1int } else { 0int }) + (if top - 3 <= r { 1int } else { 0int })
        + (if top - 2 <= r { 1int } else { 0int }) + (if top - 1 <= r { 1int } else { 0int }) + (
    if top <= r { 1int } else { 0int })
}

proof fn lemma_singles_cover_run(cards: Seq<Card>, top: int, r: int)
    requires
        5 <= top <= 14,
        run_at(cards, top),
    ensures
        values_with_count(cards, 1, r).len() >= run_slots_upto(top, r),
    decreases r,
{
    if r >= 2 {
        lemma_singles_cover_run(cards, top, r - 1);
        assert(run_slot(top) == top);
        assert(run_slot(top - 1) == top - 1);
        assert(run_slot(top - 2) == top - 2);
        assert(run_slot(top - 3) == top - 3);
        if r == run_slot(top - 4) || top - 3 <= r <= top {
            assert(count_rank(cards, run_slot(top - 4)) == 1);
            assert(count_rank(cards, run_slot(top - 3)) == 1);
            assert(count_rank(cards, run_slot(top - 2)) == 1);
            assert(count_rank(cards, run_slot(top - 1)) == 1);
            assert(count_rank(cards, run_slot(top)) == 1);
        }
    }
}

/// A straight of five distinct cards holds five different values.
pub proof fn lemma_straight_shape(cards: Seq<Card>)
    requires
        cards.len() == 5,
        all_distinct(cards),
        is_straight(cards),
    ensures
        groups_of(cards, 1) == 5,
        groups_of(cards, 2) == 0,
        groups_of(cards, 3) == 0,
        groups_of(cards, 4) == 0,
{
    let top = straight_top(cards, 14);
    lemma_straight_top_range(cards, 14);
    lemma_straight_top_run(cards, 14);
    lemma_singles_cover_run(cards, top, 14);
    lemma_hand_shape(cards);
}

/// The cards form a straight.
pub open spec fn is_straight(cards: Seq<Card>) -> bool {
    straight_top(cards, 14) != 0
}

/// Sum of `count_rank` over the ranks 2 ..= r.
pub open spec fn count_total(cards: Seq<Card>, r: int) -> int
    decreases r,
{
    if r < 2 {
        0
    } else {
        count_total(cards, r - 1) + count_rank(cards, r)
    }
}

/// The same sum, counted group by group for the ranks 2 ..= r.
pub open spec fn weighted_groups(cards: Seq<Card>, r: int) -> int {
    (5 * values_with_count(cards, 5, r).len() + 4 * values_with_count(cards, 4, r).len() + 3
        * values_with_count(cards, 3, r).len() + 2 * values_with_count(cards, 2, r).len()
        + values_with_count(cards, 1, r).len()) as int
}

pub proof fn lemma_count_le_len(cards: Seq<Card>, r: int)
    ensures
        count_rank(cards, r) <= cards.len(),
    decreases cards.len(),
{
    if cards.len() > 0 {
        lemma_count_le_len(cards.drop_last(), r);
    }
}

proof fn lemma_count_full(cards: Seq<Card>, r: int)
    requires
        count_rank(cards, r) == cards.len(),
    ensures
        forall|i: int| 0 <= i < cards.len() ==> rank(#[trigger] cards[i].value) == r,
    decreases cards.len(),
{
    if cards.len() > 0 {
        lemma_count_le_len(cards.drop_last(), r);
        lemma_count_full(cards.drop_last(), r);
        assert forall|i: int| 0 <= i < cards.len() implies rank(#[trigger] cards[i].value) == r by {
            if i < cards.len() - 1 {
                assert(cards[i] == cards.drop_last()[i]);
            }
        }
    }
}

/// Five distinct cards hold no value more than four times: there are four suits.
pub proof fn lemma_count_at_most_four(cards: Seq<Card>, r: int)
    requires
        cards.len() == 5,
        all_distinct(cards),
    ensures
        count_rank(cards, r) <= 4,
{
    lemma_count_le_len(cards, r);
    if count_rank(cards, r) == 5 {
        lemma_count_full(cards, r);
        let (a, b, c, d, e) = (cards[0], cards[1], cards[2], cards[3], cards[4]);
        assert(rank(a.value) == r && rank(b.value) == r && rank(c.value) == r && rank(d.value)
            == r && rank(e.value) == r);
        assert(a.value == b.value && a.value == c.value && a.value == d.value && a.value
            == e.value);
        assert(a != b && a != c && a != d && a != e && b != c && b != d && b != e && c != d
            && c != e && d != e);
        assert(false);
    }
}

proof fn lemma_count_witness(cards: Seq<Card>, r: int)
    requires
        count_rank(cards, r) >= 1,
    ensures
        exists|i: int| 0 <= i < cards.len() && rank(#[trigger] cards[i].value) == r,
    decreases cards.len(),
{
    if rank(cards.last().value) != r {
        lemma_count_witness(cards.drop_last(), r);
        let i = choose|i: int|
            0 <= i < cards.drop_last().len() && rank(#[trigger] cards.drop_last()[i].value) == r;
        assert(cards[i] == cards.drop_last()[i]);
    }
}

proof fn lemma_count_two_witnesses(cards: Seq<Card>, r: int)
    requires
        count_rank(cards, r) >= 2,
    ensures
        exists|i: int, j: int|
            0 <= i < j < cards.len() && rank(#[trigger] cards[i].value) == r && rank(
                #[trigger] cards[j].value,
            ) == r,
    decreases cards.len(),
{
    let init = cards.drop_last();
    if rank(cards.last().value) != r {
        lemma_count_two_witnesses(init, r);
        let (i, j) = choose|i: int, j: int|
            0 <= i < j < init.len() && rank(#[trigger] init[i].value) == r && rank(
                #[trigger] init[j].value,
            ) == r;
        assert(cards[i] == init[i] && cards[j] == init[j]);
    } else {
        lemma_count_witness(init, r);
        let i = choose|i: int| 0 <= i < init.len() && rank(#[trigger] init[i].value) == r;
        assert(cards[i] == init[i]);
        assert(rank(cards[cards.len() - 1].value) == r);
    }
}

/// In a flush of distinct cards no value is held twice.
pub proof fn lemma_flush_values_distinct(cards: Seq<Card>, r: int)
    requires
        all_distinct(cards),
        is_flush(cards),
    ensures
        count_rank(cards, r) <= 1,
{
    if count_rank(cards, r) >= 2 {
        lemma_count_two_witnesses(cards, r);
        let (i, j) = choose|i: int, j: int|
            0 <= i < j < cards.len() && rank(#[trigger] cards[i].value) == r && rank(
                #[trigger] cards[j].value,
            ) == r;
        lemma_rank_bounds(cards[i].value);
        lemma_rank_bounds(cards[j].value);
        assert(cards[i].suit == cards[0].suit && cards[j].suit == cards[0].suit);
        assert(cards[i] == cards[j]);
    }
}

proof fn lemma_count_total_step(cards: Seq<Card>, r: int)
    requires
        cards.len() > 0,
    ensures
        count_total(cards, r) == count_total(cards.drop_last(), r) + if 2 <= rank(
            cards.last().value,
        ) <= r {
            1int
        } else {
            0int
        },
    decreases r,
{
    if r >= 2 {
        lemma_count_total_step(cards, r - 1);
    }
}

proof fn lemma_count_total_empty(cards: Seq<Card>, r: int)
    requires
        cards.len() == 0,
    ensures
        count_total(cards, r) == 0,
    decreases r,
{
    if r >= 2 {
        lemma_count_total_empty(cards, r - 1);
    }
}

/// Every card is counted under exactly one rank.
pub proof fn lemma_count_total(cards: Seq<Card>)
    ensures
        count_total(cards, 14) == cards.len(),
    decreases cards.len(),
{
    if cards.len() > 0 {
        lemma_count_total_step(cards, 14);
        lemma_count_total(cards.drop_last());
        lemma_rank_bounds(cards.last().value);
    } else {
        lemma_count_total_empty(cards, 14);
    }
}

proof fn lemma_weighted_groups(cards: Seq<Card>, r: int)
    requires
        forall|q: int| count_rank(cards, q) <= 5,
    ensures
        count_total(cards, r) == weighted_groups(cards, r),
    decreases r,
{
    if r >= 2 {
        lemma_weighted_groups(cards, r - 1);
        assert(count_rank(cards, r) <= 5);
    }
}

proof fn lemma_no_group_above(cards: Seq<Card>, c: nat, r: int)
    requires
        forall|q: int| count_rank(cards, q) != c,
    ensures
        values_with_count(cards, c, r).len() == 0,
    decreases r,
{
    if r >= 2 {
        lemma_no_group_above(cards, c, r - 1);
    }
}

/// The shapes of a hand: for five distinct cards the numbers of quads, trips,
/// pairs and single values are one of exactly six combinations.
pub open spec fn has_hand_shape(cards: Seq<Card>) -> bool {
    let (n4, n3, n2, n1) = (
        groups_of(cards, 4),
        groups_of(cards, 3),
        groups_of(cards, 2),
        groups_of(cards, 1),
    );
    ||| (n4, n3, n2, n1) == (1nat, 0nat, 0nat, 1nat)
    ||| (n4, n3, n2, n1) == (0nat, 1nat, 1nat, 0nat)
    ||| (n4, n3, n2, n1) == (0nat, 1nat, 0nat, 2nat)
    ||| (n4, n3, n2, n1) == (0nat, 0nat, 2nat, 1nat)
    ||| (n4, n3, n2, n1) == (0nat, 0nat, 1nat, 3nat)
    ||| (n4, n3, n2, n1) == (0nat, 0nat, 0nat, 5nat)
}

/// A flush of five distinct cards holds five different values.
pub proof fn lemma_flush_shape(cards: Seq<Card>)
    requires
        cards.len() == 5,
        all_distinct(cards),
        is_flush(cards),
    ensures
        groups_of(cards, 1) == 5,
        groups_of(cards, 2) == 0,
        groups_of(cards, 3) == 0,
        groups_of(cards, 4) == 0,
{
    assert forall|q: int| count_rank(cards, q) <= 1 by {
        lemma_flush_values_distinct(cards, q);
    }
    lemma_no_group_above(cards, 2, 14);
    lemma_no_group_above(cards, 3, 14);
    lemma_no_group_above(cards, 4, 14);
    lemma_hand_shape(cards);
}

/// Five distinct cards group by value into one of the six shapes
/// [4,1], [3,2], [3,1,1], [2,2,1], [2,1,1,1] and [1,1,1,1,1].
pub proof fn lemma_hand_shape(cards: Seq<Card>)
    requires
        cards.len() == 5,
        all_distinct(cards),
    ensures
        has_hand_shape(cards),
{
    assert forall|q: int| count_rank(cards, q) <= 4 by {
        lemma_count_at_most_four(cards, q);
    }
    lemma_count_total(cards);
    lemma_weighted_groups(cards, 14);
    lemma_no_group_above(cards, 5, 14);
}

} // verus!
