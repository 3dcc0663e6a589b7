//! How hands of one category are ordered.
//!
//! Within a category the rank follows the tie-break key: the hand whose
//! ranks weigh more, heaviest first, has the lower rank, and two hands
//! have the same rank exactly when their keys are the same.

use vstd::prelude::*;
use crate::binomial::{lemma_choose_gap, lemma_choose_values, lemma_pascal};
use crate::category::Category;
use crate::laws::lemma_rank_in_category;
use crate::places::{
    below2,
    lemma_below2_bounds,
    lemma_below2_order,
    lemma_below3_bounds,
    lemma_below3_order,
    lemma_below5_bounds,
    lemma_below5_order,
};
use crate::ranking::{
    hand_category,
    hand_key,
    hand_rank,
    hand_ranks,
    is_flush,
    lemma_descending_shape,
    lemma_hand_ranks,
    lemma_sorted_rank,
    lemma_swaps_keep_sorted,
    valid_hand,
    without,
};
use crate::ranks::{
    Ranks5,
    distinct,
    lemma_descending_unique,
    lemma_sorted,
    lemma_symmetric_sorted,
    playable,
    symmetric,
};

verus! {

/// The weights of the ranks of a tuple, in the order of the ranks.
spec fn weights(t: Ranks5) -> Ranks5 {
    Ranks5 {
        a: t.weight(t.a),
        b: t.weight(t.b),
        c: t.weight(t.c),
        d: t.weight(t.d),
        e: t.weight(t.e),
    }
}

/// The key of a descending tuple, read off its equal neighbours: groups
/// before single ranks, and high before low.
spec fn ordered_key(s: Ranks5) -> Ranks5 {
    match s.shape(false) {
        Category::FourOfAKind => Ranks5 {
            a: 52 + s.c,
            b: 52 + s.c,
            c: 52 + s.c,
            d: 52 + s.c,
            e: 13 + s.lone(),
        },
        Category::FullHouse => Ranks5 {
            a: 39 + s.c,
            b: 39 + s.c,
            c: 39 + s.c,
            d: 26 + s.lone(),
            e: 26 + s.lone(),
        },
        Category::ThreeOfAKind => Ranks5 {
            a: 39 + s.c,
            b: 39 + s.c,
            c: 39 + s.c,
            d: 13 + s.trips_high(),
            e: 13 + s.trips_low(),
        },
        Category::TwoPair => Ranks5 {
            a: 26 + s.b,
            b: 26 + s.b,
            c: 26 + s.d,
            d: 26 + s.d,
            e: 13 + s.pairs_lone(),
        },
        Category::OnePair => Ranks5 {
            a: 26 + s.pair_rank(),
            b: 26 + s.pair_rank(),
            c: 13 + s.pair_high(),
            d: 13 + s.pair_middle(),
            e: 13 + s.pair_low(),
        },
        _ => if s.is_wheel() {
            Ranks5 { a: 16, b: 15, c: 14, d: 13, e: 12 }
        } else {
            Ranks5 { a: 13 + s.a, b: 13 + s.b, c: 13 + s.c, d: 13 + s.d, e: 13 + s.e }
        },
    }
}

/// The key of a descending tuple is the one read off its equal
/// neighbours.
proof fn lemma_descending_key(s: Ranks5)
    requires
        playable(s),
    ensures
        s.key() == ordered_key(s),
{
    lemma_descending_shape(s, false);
    let w = weights(s);
    let k = ordered_key(s);
    lemma_sorted(w);
    assert(k.descending());
    assert(k.same_ranks(w)) by {
        lemma_key_counts(s);
    }
    assert(k.same_ranks(w.sorted())) by {
        assert forall|v: int| k.count(v) == w.sorted().count(v) by {
            assert(k.count(v) == w.count(v));
            assert(w.sorted().count(v) == w.count(v));
        }
    }
    lemma_descending_unique(k, w.sorted());
}

/// The key read off a descending tuple holds the weights of its ranks.
proof fn lemma_key_counts(s: Ranks5)
    requires
        playable(s),
        s.sorted() == s,
    ensures
        ordered_key(s).same_ranks(weights(s)),
{
}

/// The key of five ranks does not depend on their order.
proof fn lemma_key_symmetric()
    ensures
        symmetric(|t: Ranks5| t.key()),
{
    let f = |t: Ranks5| t.key();
    assert forall|t: Ranks5| #![trigger f(t)] f(t.swap_ab()) == f(t) by {
        lemma_swaps_keep_sorted(t);
        lemma_swaps_keep_sorted(weights(t));
        assert(weights(t.swap_ab()) == weights(t).swap_ab());
    }
    assert forall|t: Ranks5| #![trigger f(t)] f(t.swap_bc()) == f(t) by {
        lemma_swaps_keep_sorted(t);
        lemma_swaps_keep_sorted(weights(t));
        assert(weights(t.swap_bc()) == weights(t).swap_bc());
    }
    assert forall|t: Ranks5| #![trigger f(t)] f(t.swap_cd()) == f(t) by {
        lemma_swaps_keep_sorted(t);
        lemma_swaps_keep_sorted(weights(t));
        assert(weights(t.swap_cd()) == weights(t).swap_cd());
    }
    assert forall|t: Ranks5| #![trigger f(t)] f(t.swap_de()) == f(t) by {
        lemma_swaps_keep_sorted(t);
        lemma_swaps_keep_sorted(weights(t));
        assert(weights(t.swap_de()) == weights(t).swap_de());
    }
}

/// Five ranks have the key of their descending arrangement.
pub proof fn lemma_sorted_key(t: Ranks5)
    ensures
        t.sorted().key() == t.key(),
{
    let f = |t: Ranks5| t.key();
    lemma_key_symmetric();
    lemma_symmetric_sorted(f, t);
    assert(f(t.sorted()) == f(t));
}

/// Of two descending tuples with a group of three or four equal ranks
/// and one other rank or a pair, the one with the higher group, or else
/// the higher other rank, has fewer such tuples before it.
proof fn lemma_group_order(s: Ranks5, t: Ranks5, cat: Category)
    requires
        playable(s),
        playable(t),
        cat == Category::FourOfAKind || cat == Category::FullHouse,
        s.shape(false) == cat,
        t.shape(false) == cat,
    ensures
        s.offset_in(cat) < t.offset_in(cat) <==> ordered_key(s).above(ordered_key(t)),
        s.offset_in(cat) == t.offset_in(cat) <==> ordered_key(s) == ordered_key(t),
{
}

/// Of two descending tuples with three of a kind, the one with the
/// higher three, or else the higher other ranks, has fewer such tuples
/// before it.
proof fn lemma_trips_order(s: Ranks5, t: Ranks5)
    requires
        playable(s),
        playable(t),
        s.shape(false) == Category::ThreeOfAKind,
        t.shape(false) == Category::ThreeOfAKind,
    ensures
        s.offset_in(Category::ThreeOfAKind) < t.offset_in(Category::ThreeOfAKind) <==> ordered_key(
            s,
        ).above(ordered_key(t)),
        s.offset_in(Category::ThreeOfAKind) == t.offset_in(Category::ThreeOfAKind) <==> ordered_key(
            s,
        ) == ordered_key(t),
{
    let sx = without(s.trips_high(), s.c);
    let sy = without(s.trips_low(), s.c);
    let tx = without(t.trips_high(), t.c);
    let ty = without(t.trips_low(), t.c);
    lemma_choose_values();
    lemma_below2_bounds(sx, sy, 12);
    lemma_below2_bounds(tx, ty, 12);
    lemma_below2_order(sx, sy, tx, ty);
}

/// Of two descending tuples with two pairs, the one with the higher
/// pairs, or else the higher other rank, has fewer such tuples before it.
proof fn lemma_two_pair_order(s: Ranks5, t: Ranks5)
    requires
        playable(s),
        playable(t),
        s.shape(false) == Category::TwoPair,
        t.shape(false) == Category::TwoPair,
    ensures
        s.offset_in(Category::TwoPair) < t.offset_in(Category::TwoPair) <==> ordered_key(s).above(
            ordered_key(t),
        ),
        s.offset_in(Category::TwoPair) == t.offset_in(Category::TwoPair) <==> ordered_key(s)
            == ordered_key(t),
{
    lemma_choose_values();
    lemma_below2_bounds(s.b, s.d, 13);
    lemma_below2_bounds(t.b, t.d, 13);
    lemma_below2_order(s.b, s.d, t.b, t.d);
    let sz = without(without(s.pairs_lone(), s.b), s.d);
    let tz = without(without(t.pairs_lone(), t.b), t.d);
    let sp = 77 - below2(s.b, s.d);
    let tp = 77 - below2(t.b, t.d);
    assert(0 <= sz <= 10 && 0 <= tz <= 10);
    assert(sp < tp ==> sp * 11 + 11 <= tp * 11);
    assert(tp < sp ==> tp * 11 + 11 <= sp * 11);
}

/// Of two descending tuples with one pair, the one with the higher pair,
/// or else the higher other ranks, has fewer such tuples before it.
proof fn lemma_pair_order(s: Ranks5, t: Ranks5)
    requires
        playable(s),
        playable(t),
        s.shape(false) == Category::OnePair,
        t.shape(false) == Category::OnePair,
    ensures
        s.offset_in(Category::OnePair) < t.offset_in(Category::OnePair) <==> ordered_key(s).above(
            ordered_key(t),
        ),
        s.offset_in(Category::OnePair) == t.offset_in(Category::OnePair) <==> ordered_key(s)
            == ordered_key(t),
{
    let sg = s.pair_rank();
    let tg = t.pair_rank();
    let sx = without(s.pair_high(), sg);
    let sy = without(s.pair_middle(), sg);
    let sz = without(s.pair_low(), sg);
    let tx = without(t.pair_high(), tg);
    let ty = without(t.pair_middle(), tg);
    let tz = without(t.pair_low(), tg);
    lemma_choose_values();
    lemma_below3_bounds(sx, sy, sz, 12);
    lemma_below3_bounds(tx, ty, tz, 12);
    lemma_below3_order(sx, sy, sz, tx, ty, tz);
}

/// Of two straights in descending order, the one that is named after
/// the higher rank has fewer straights before it.
proof fn lemma_straight_order(s: Ranks5, t: Ranks5, cat: Category)
    requires
        distinct(s),
        distinct(t),
        s.consecutive() || s.is_wheel(),
        t.consecutive() || t.is_wheel(),
        cat == Category::Straight || cat == Category::StraightFlush,
    ensures
        s.offset_in(cat) < t.offset_in(cat) <==> ordered_key(s).above(ordered_key(t)),
        s.offset_in(cat) == t.offset_in(cat) <==> ordered_key(s) == ordered_key(t),
{
    lemma_descending_shape(s, false);
    lemma_descending_shape(t, false);
}

/// Of two descending tuples of five different ranks that form no
/// straight, the one that comes first has fewer such tuples before it.
proof fn lemma_distinct_order(s: Ranks5, t: Ranks5, cat: Category)
    requires
        distinct(s),
        distinct(t),
        !(s.consecutive() || s.is_wheel()),
        !(t.consecutive() || t.is_wheel()),
        cat == Category::Flush || cat == Category::HighCard,
    ensures
        s.offset_in(cat) < t.offset_in(cat) <==> ordered_key(s).above(ordered_key(t)),
        s.offset_in(cat) == t.offset_in(cat) <==> ordered_key(s) == ordered_key(t),
{
    lemma_below5_order(s, t);
    lemma_below5_order(t, s);
    lemma_below5_bounds(s);
    lemma_below5_bounds(t);
    lemma_choose_values();
    lemma_pascal(s.a);
    lemma_pascal(t.a);
    if s.a > t.a {
        lemma_choose_gap(t.a + 1, s.a);
    }
    if t.a > s.a {
        lemma_choose_gap(s.a + 1, t.a);
    }
}

/// Of two descending tuples of one category, the one whose key comes
/// first has fewer tuples of the category before it, and the two have
/// as many before them only if they are the same.
proof fn lemma_offset_order(s: Ranks5, t: Ranks5, flush: bool)
    requires
        playable(s),
        playable(t),
        flush ==> distinct(s) && distinct(t),
        s.shape(flush) == t.shape(flush),
    ensures
        s.offset_in(s.shape(flush)) < t.offset_in(s.shape(flush)) <==> ordered_key(s).above(
            ordered_key(t),
        ),
        s.offset_in(s.shape(flush)) == t.offset_in(s.shape(flush)) <==> ordered_key(s)
            == ordered_key(t),
{
    let cat = s.shape(flush);
    match cat {
        Category::FourOfAKind | Category::FullHouse => {
            lemma_group_order(s, t, cat);
        },
        Category::ThreeOfAKind => {
            lemma_trips_order(s, t);
        },
        Category::TwoPair => {
            lemma_two_pair_order(s, t);
        },
        Category::OnePair => {
            lemma_pair_order(s, t);
        },
        Category::Straight | Category::StraightFlush => {
            lemma_straight_order(s, t, cat);
        },
        Category::Flush | Category::HighCard => {
            lemma_distinct_order(s, t, cat);
        },
    }
}

/// The rank, the category and the key of a hand are those that its
/// ranks in descending order show.
proof fn lemma_hand_in_order(c1: int, c2: int, c3: int, c4: int, c5: int)
    requires
        valid_hand(c1, c2, c3, c4, c5),
    ensures
        ({
            let s = hand_ranks(c1, c2, c3, c4, c5).sorted();
            let flush = is_flush(c1, c2, c3, c4, c5);
            &&& playable(s)
            &&& flush ==> distinct(s)
            &&& flush <==> s.shape(flush) == Category::StraightFlush || s.shape(flush)
                == Category::Flush
            &&& hand_category(c1, c2, c3, c4, c5) == s.shape(flush)
            &&& hand_rank(c1, c2, c3, c4, c5) == s.shape(flush).spec_first() + s.offset_in(
                s.shape(flush),
            )
            &&& hand_key(c1, c2, c3, c4, c5) == ordered_key(s)
        }),
{
    let r = hand_ranks(c1, c2, c3, c4, c5);
    let flush = is_flush(c1, c2, c3, c4, c5);
    let s = r.sorted();
    lemma_hand_ranks(c1, c2, c3, c4, c5);
    lemma_sorted_rank(r, flush);
    lemma_descending_shape(s, flush);
    lemma_sorted_key(r);
    lemma_descending_key(s);
}

/// Of two hands of one category, the one whose key comes first has the
/// lower rank, and the two have the same rank exactly when they have
/// the same key.
pub proof fn lemma_ties_broken_by_key(
    c1: int,
    c2: int,
    c3: int,
    c4: int,
    c5: int,
    d1: int,
    d2: int,
    d3: int,
    d4: int,
    d5: int,
)
    requires
        valid_hand(c1, c2, c3, c4, c5),
        valid_hand(d1, d2, d3, d4, d5),
        hand_category(c1, c2, c3, c4, c5) == hand_category(d1, d2, d3, d4, d5),
    ensures
        hand_rank(c1, c2, c3, c4, c5) < hand_rank(d1, d2, d3, d4, d5) <==> hand_key(
            c1,
            c2,
            c3,
            c4,
            c5,
        ).above(hand_key(d1, d2, d3, d4, d5)),
        hand_rank(c1, c2, c3, c4, c5) == hand_rank(d1, d2, d3, d4, d5) <==> hand_key(
            c1,
            c2,
            c3,
            c4,
            c5,
        ) == hand_key(d1, d2, d3, d4, d5),
{
    let s = hand_ranks(c1, c2, c3, c4, c5).sorted();
    let t = hand_ranks(d1, d2, d3, d4, d5).sorted();
    let flush = is_flush(c1, c2, c3, c4, c5);
    lemma_hand_in_order(c1, c2, c3, c4, c5);
    lemma_hand_in_order(d1, d2, d3, d4, d5);
    assert(flush == is_flush(d1, d2, d3, d4, d5));
    lemma_offset_order(s, t, flush);
}

/// Two hands have the same rank exactly when they are tied: when they
/// have the same category and the same key.
pub proof fn lemma_same_rank_is_tie(
    c1: int,
    c2: int,
    c3: int,
    c4: int,
    c5: int,
    d1: int,
    d2: int,
    d3: int,
    d4: int,
    d5: int,
)
    requires
        valid_hand(c1, c2, c3, c4, c5),
        valid_hand(d1, d2, d3, d4, d5),
    ensures
        hand_rank(c1, c2, c3, c4, c5) == hand_rank(d1, d2, d3, d4, d5) <==> hand_category(
            c1,
            c2,
            c3,
            c4,
            c5,
        ) == hand_category(d1, d2, d3, d4, d5) && hand_key(c1, c2, c3, c4, c5) == hand_key(
            d1,
            d2,
            d3,
            d4,
            d5,
        ),
{
    lemma_rank_in_category(c1, c2, c3, c4, c5);
    lemma_rank_in_category(d1, d2, d3, d4, d5);
    if hand_category(c1, c2, c3, c4, c5) == hand_category(d1, d2, d3, d4, d5) {
        lemma_ties_broken_by_key(c1, c2, c3, c4, c5, d1, d2, d3, d4, d5);
    }
}

} // verus!
