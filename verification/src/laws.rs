//! What holds of the ranking as a whole.
//!
//! Every hand has a rank between 1 and 7462. The rank lies in the range
//! of the hand's category, so a hand of a stronger category always has
//! the lower rank. The rank does not depend on the order of the cards.

use vstd::prelude::*;
use crate::binomial::{lemma_choose_values, lemma_pascal};
use crate::category::Category;
use crate::evaluate::evaluate5;
use crate::places::{lemma_below2_bounds, lemma_below3_bounds, lemma_below5_bounds};
use crate::ranking::{
    card_rank,
    hand_category,
    hand_rank,
    hand_ranks,
    is_flush,
    lemma_descending_shape,
    lemma_hand_ranks,
    lemma_sorted_rank,
    valid_hand,
    without,
};
use crate::ranks::{Ranks5, indicator, lemma_same_ranks_same_sorted};

verus! {

/// The number of stronger tuples of the same category as a descending
/// tuple is not negative and below the size of the category.
pub proof fn lemma_offset_bounds(t: Ranks5, flush: bool)
    requires
        t.in_range(),
        t.descending(),
        t.a != t.e,
        flush ==> t.strictly_descending(),
    ensures
        0 <= t.offset_in(t.shape(flush)) <= t.shape(flush).spec_last() - t.shape(
            flush,
        ).spec_first(),
{
    lemma_descending_shape(t, flush);
    lemma_choose_values();
    match t.shape(flush) {
        Category::ThreeOfAKind => {
            lemma_below2_bounds(without(t.trips_high(), t.c), without(t.trips_low(), t.c), 12);
        },
        Category::TwoPair => {
            lemma_below2_bounds(t.b, t.d, 13);
        },
        Category::OnePair => {
            let g = t.pair_rank();
            lemma_below3_bounds(
                without(t.pair_high(), g),
                without(t.pair_middle(), g),
                without(t.pair_low(), g),
                12,
            );
        },
        Category::Flush | Category::HighCard => {
            lemma_below5_bounds(t);
            lemma_pascal(t.a);
        },
        _ => {},
    }
}

/// Every hand of five different cards has a rank from 1 to 7462, and
/// the rank lies in the range of the hand's category.
pub proof fn lemma_rank_in_category(c1: int, c2: int, c3: int, c4: int, c5: int)
    requires
        valid_hand(c1, c2, c3, c4, c5),
    ensures
        1 <= hand_rank(c1, c2, c3, c4, c5) <= 7462,
        hand_category(c1, c2, c3, c4, c5).spec_first() <= hand_rank(c1, c2, c3, c4, c5)
            <= hand_category(c1, c2, c3, c4, c5).spec_last(),
        Category::spec_of_rank(hand_rank(c1, c2, c3, c4, c5)) == hand_category(c1, c2, c3, c4, c5),
{
    let r = hand_ranks(c1, c2, c3, c4, c5);
    let flush = is_flush(c1, c2, c3, c4, c5);
    let s = r.sorted();
    lemma_hand_ranks(c1, c2, c3, c4, c5);
    lemma_sorted_rank(r, flush);
    lemma_descending_shape(s, flush);
    lemma_offset_bounds(s, flush);
}

/// A hand of a stronger category has a lower rank than a hand of a
/// weaker category, whatever the suits.
pub proof fn lemma_stronger_category_lower_rank(
    c1: int,
    c2: int,
    c3: int,
    c4: int,
    c5: int,
    d1: int,
    d2: int,
    d3: int,
    d4: int,
    d5: int,
)
    requires
        valid_hand(c1, c2, c3, c4, c5),
        valid_hand(d1, d2, d3, d4, d5),
        hand_category(c1, c2, c3, c4, c5).spec_strength() < hand_category(
            d1,
            d2,
            d3,
            d4,
            d5,
        ).spec_strength(),
    ensures
        hand_rank(c1, c2, c3, c4, c5) < hand_rank(d1, d2, d3, d4, d5),
{
    lemma_rank_in_category(c1, c2, c3, c4, c5);
    lemma_rank_in_category(d1, d2, d3, d4, d5);
}

/// How many of five cards are the card `x`.
pub open spec fn occurrences(c1: int, c2: int, c3: int, c4: int, c5: int, x: int) -> int {
    indicator(c1 == x) + indicator(c2 == x) + indicator(c3 == x) + indicator(c4 == x) + indicator(
        c5 == x,
    )
}

/// The second five cards are the first five in another order: every
/// card occurs as often among the ones as among the others.
pub open spec fn rearranged(
    c1: int,
    c2: int,
    c3: int,
    c4: int,
    c5: int,
    d1: int,
    d2: int,
    d3: int,
    d4: int,
    d5: int,
) -> bool {
    forall|x: int|
        occurrences(c1, c2, c3, c4, c5, x) == #[trigger] occurrences(d1, d2, d3, d4, d5, x)
}

/// A card has rank `v` exactly when it is one of the four cards of that
/// rank.
proof fn lemma_rank_of_card(c: int, v: int)
    ensures
        indicator(card_rank(c) == v) == indicator(c == 4 * v) + indicator(c == 4 * v + 1)
            + indicator(c == 4 * v + 2) + indicator(c == 4 * v + 3),
{
}

/// The number of cards of rank `v` among five is the number of
/// occurrences of the four cards of that rank.
proof fn lemma_rank_count(c1: int, c2: int, c3: int, c4: int, c5: int, v: int)
    ensures
        hand_ranks(c1, c2, c3, c4, c5).count(v) == occurrences(c1, c2, c3, c4, c5, 4 * v)
            + occurrences(c1, c2, c3, c4, c5, 4 * v + 1) + occurrences(
            c1,
            c2,
            c3,
            c4,
            c5,
            4 * v + 2,
        ) + occurrences(c1, c2, c3, c4, c5, 4 * v + 3),
{
    lemma_rank_of_card(c1, v);
    lemma_rank_of_card(c2, v);
    lemma_rank_of_card(c3, v);
    lemma_rank_of_card(c4, v);
    lemma_rank_of_card(c5, v);
}

/// Five cards in another order hold every rank as often.
proof fn lemma_rearranged_rank_count(
    c1: int,
    c2: int,
    c3: int,
    c4: int,
    c5: int,
    d1: int,
    d2: int,
    d3: int,
    d4: int,
    d5: int,
    v: int,
)
    requires
        rearranged(c1, c2, c3, c4, c5, d1, d2, d3, d4, d5),
    ensures
        hand_ranks(c1, c2, c3, c4, c5).count(v) == hand_ranks(d1, d2, d3, d4, d5).count(v),
{
    let x = 4 * v;
    lemma_rank_count(c1, c2, c3, c4, c5, v);
    lemma_rank_count(d1, d2, d3, d4, d5, v);
    assert(occurrences(c1, c2, c3, c4, c5, x) == occurrences(d1, d2, d3, d4, d5, x));
    assert(occurrences(c1, c2, c3, c4, c5, x + 1) == occurrences(d1, d2, d3, d4, d5, x + 1));
    assert(occurrences(c1, c2, c3, c4, c5, x + 2) == occurrences(d1, d2, d3, d4, d5, x + 2));
    assert(occurrences(c1, c2, c3, c4, c5, x + 3) == occurrences(d1, d2, d3, d4, d5, x + 3));
}

/// Each of five cards in another order is one of the five.
proof fn lemma_rearranged_member(
    c1: int,
    c2: int,
    c3: int,
    c4: int,
    c5: int,
    d1: int,
    d2: int,
    d3: int,
    d4: int,
    d5: int,
    x: int,
)
    requires
        rearranged(c1, c2, c3, c4, c5, d1, d2, d3, d4, d5),
        x == d1 || x == d2 || x == d3 || x == d4 || x == d5,
    ensures
        x == c1 || x == c2 || x == c3 || x == c4 || x == c5,
{
    assert(occurrences(c1, c2, c3, c4, c5, x) == occurrences(d1, d2, d3, d4, d5, x));
}

/// Five cards in another order are five cards of one suit if the five
/// are.
proof fn lemma_rearranged_flush(
    c1: int,
    c2: int,
    c3: int,
    c4: int,
    c5: int,
    d1: int,
    d2: int,
    d3: int,
    d4: int,
    d5: int,
)
    requires
        rearranged(c1, c2, c3, c4, c5, d1, d2, d3, d4, d5),
        is_flush(c1, c2, c3, c4, c5),
    ensures
        is_flush(d1, d2, d3, d4, d5),
{
    lemma_rearranged_member(c1, c2, c3, c4, c5, d1, d2, d3, d4, d5, d1);
    lemma_rearranged_member(c1, c2, c3, c4, c5, d1, d2, d3, d4, d5, d2);
    lemma_rearranged_member(c1, c2, c3, c4, c5, d1, d2, d3, d4, d5, d3);
    lemma_rearranged_member(c1, c2, c3, c4, c5, d1, d2, d3, d4, d5, d4);
    lemma_rearranged_member(c1, c2, c3, c4, c5, d1, d2, d3, d4, d5, d5);
}

/// The rank and the category of a hand do not depend on the order of
/// its cards.
pub proof fn lemma_rank_ignores_order(
    c1: int,
    c2: int,
    c3: int,
    c4: int,
    c5: int,
    d1: int,
    d2: int,
    d3: int,
    d4: int,
    d5: int,
)
    requires
        rearranged(c1, c2, c3, c4, c5, d1, d2, d3, d4, d5),
    ensures
        hand_rank(c1, c2, c3, c4, c5) == hand_rank(d1, d2, d3, d4, d5),
        hand_category(c1, c2, c3, c4, c5) == hand_category(d1, d2, d3, d4, d5),
{
    let rc = hand_ranks(c1, c2, c3, c4, c5);
    let rd = hand_ranks(d1, d2, d3, d4, d5);
    assert forall|v: int| rc.count(v) == rd.count(v) by {
        lemma_rearranged_rank_count(c1, c2, c3, c4, c5, d1, d2, d3, d4, d5, v);
    }
    assert(rearranged(d1, d2, d3, d4, d5, c1, c2, c3, c4, c5)) by {
        assert forall|x: int|
            occurrences(d1, d2, d3, d4, d5, x) == #[trigger] occurrences(c1, c2, c3, c4, c5, x) by {
            assert(occurrences(c1, c2, c3, c4, c5, x) == occurrences(d1, d2, d3, d4, d5, x));
        }
    }
    if is_flush(c1, c2, c3, c4, c5) {
        lemma_rearranged_flush(c1, c2, c3, c4, c5, d1, d2, d3, d4, d5);
    }
    if is_flush(d1, d2, d3, d4, d5) {
        lemma_rearranged_flush(d1, d2, d3, d4, d5, c1, c2, c3, c4, c5);
    }
    let flush = is_flush(c1, c2, c3, c4, c5);
    lemma_same_ranks_same_sorted(rc, rd);
    lemma_sorted_rank(rc, flush);
    lemma_sorted_rank(rd, flush);
}

/// Two evaluations of the same five cards give the same rank.
pub proof fn lemma_evaluation_repeats(
    c1: usize,
    c2: usize,
    c3: usize,
    c4: usize,
    c5: usize,
    first: u16,
    second: u16,
)
    requires
        call_ensures(evaluate5, (c1, c2, c3, c4, c5), first),
        call_ensures(evaluate5, (c1, c2, c3, c4, c5), second),
    ensures
        first == second,
{
}

} // verus!
