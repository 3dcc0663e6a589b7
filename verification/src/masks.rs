//! Card masks, their four lanes, and the pattern of ranks in a lane.
//!
//! The mask of a hand is the union of the masks of its cards. A lane of
//! the mask holds the ranks of the cards of one suit, so a hand is a
//! flush exactly when one lane holds five bits, and that lane is then the
//! pattern of the hand's ranks.

use vstd::prelude::*;
use crate::card::{Card, CardIndex, CardMask, bit_mask};
use crate::ranks::{Ranks5, indicator, symmetric};
use crate::ranking::{card_rank, card_suit, hand_ranks, is_flush, valid_hand};

verus! {

/// The number of patterns of thirteen bits.
pub const PATTERNS: usize = 8192;

/// The bits of one lane.
pub const LANE_BITS: u64 = 0x1FFF;

/// The position of the bit of the card with index `c`.
pub open spec fn card_bit(c: int) -> int {
    (3 - card_suit(c)) * 13 + (12 - card_rank(c))
}

/// The mask of the card with index `c`.
pub open spec fn card_mask(c: int) -> u64 {
    bit_mask(card_bit(c))
}

/// The mask of five cards.
pub open spec fn hand_mask(c1: int, c2: int, c3: int, c4: int, c5: int) -> u64 {
    card_mask(c1) | card_mask(c2) | card_mask(c3) | card_mask(c4) | card_mask(c5)
}

/// Lane `k` of a mask: the thirteen bits from bit `13 * k` on.
pub open spec fn lane(mask: u64, k: int) -> u64 {
    (mask >> (13 * k)) & LANE_BITS
}

/// The bit that stands for rank `r` in a lane.
pub open spec fn rank_bit(r: int) -> u64 {
    bit_mask(12 - r)
}

/// Whether bit `i` of `x` is set.
pub open spec fn bit_at(x: u64, i: int) -> bool {
    (x >> i) & 1 == 1
}

/// The number of set bits among the lowest `n` bits of `x`.
pub open spec fn bit_count(x: u64, n: nat) -> nat
    decreases n,
{
    if n == 0 {
        0
    } else {
        bit_count(x, (n - 1) as nat) + if bit_at(x, n - 1) {
            1nat
        } else {
            0nat
        }
    }
}

impl Ranks5 {
    /// The pattern of the five ranks: the union of their bits.
    pub open spec fn pattern(self) -> u64 {
        rank_bit(self.a) | rank_bit(self.b) | rank_bit(self.c) | rank_bit(self.d) | rank_bit(
            self.e,
        )
    }

    /// Whether `r` is one of the five.
    pub open spec fn holds(self, r: int) -> bool {
        self.a == r || self.b == r || self.c == r || self.d == r || self.e == r
    }
}

/// How many of the five cards have suit `s`.
pub open spec fn suit_count(c1: int, c2: int, c3: int, c4: int, c5: int, s: int) -> int {
    indicator(card_suit(c1) == s) + indicator(card_suit(c2) == s) + indicator(card_suit(c3) == s)
        + indicator(card_suit(c4) == s) + indicator(card_suit(c5) == s)
}

/// The mask of the card with index `c`.
pub fn mask_of(c: CardIndex) -> (m: CardMask)
    requires
        c < 52,
    ensures
        m == card_mask(c as int),
{
    let shift: u64 = ((3 - c % 4) * 13 + (12 - c / 4)) as u64;
    1u64 << shift
}

/// Lane `k` of a mask.
pub fn lane_of(mask: CardMask, k: u64) -> (l: u64)
    requires
        k < 4,
    ensures
        l == lane(mask, k as int),
        l < PATTERNS,
{
    let l = (mask >> (13 * k)) & LANE_BITS;
    assert(l < 8192) by (bit_vector)
        requires
            l == (mask >> (13 * k)) & 0x1FFF,
    ;
    l
}

/// The number of set bits in a lane.
pub fn count_lane_bits(l: u64) -> (n: u32)
    ensures
        n == bit_count(l, 13),
{
    let mut n: u32 = 0;
    let mut i: u64 = 0;
    while i < 13
        invariant
            i <= 13,
            n <= i,
            n == bit_count(l, i as nat),
        decreases 13 - i,
    {
        let bit = (l >> i) & 1;
        assert(bit == 0 || bit == 1) by (bit_vector)
            requires
                bit == (l >> i) & 1,
        ;
        if bit == 1 {
            n = n + 1;
        }
        i = i + 1;
    }
    n
}

/// Bit `i` of lane `k` of the union of five one-bit masks is set exactly
/// when one of the five bits stands at `13 * k + i`.
proof fn lemma_lane_bit(at1: u64, at2: u64, at3: u64, at4: u64, at5: u64, k: u64, i: u64)
    by (bit_vector)
    requires
        at1 < 52,
        at2 < 52,
        at3 < 52,
        at4 < 52,
        at5 < 52,
        k < 4,
        i < 13,
    ensures
        ((((((1u64 << at1) | (1u64 << at2) | (1u64 << at3) | (1u64 << at4) | (1u64 << at5)) >> (13 * k))
            & 0x1FFF) >> i) & 1 == 1) <==> (at1 == 13 * k + i || at2 == 13 * k + i || at3 == 13 * k + i
            || at4 == 13 * k + i || at5 == 13 * k + i),
{
}

/// The lane that holds five bits is the union of the five bits, each
/// moved down to the lowest lane.
proof fn lemma_lane_of_five(x1: u64, x2: u64, x3: u64, x4: u64, x5: u64, k: u64)
    by (bit_vector)
    requires
        x1 < 13,
        x2 < 13,
        x3 < 13,
        x4 < 13,
        x5 < 13,
        k < 4,
    ensures
        ((((1u64 << (13 * k + x1)) | (1u64 << (13 * k + x2)) | (1u64 << (13 * k + x3)) | (1u64 << (
        13 * k + x4)) | (1u64 << (13 * k + x5))) >> (13 * k)) & 0x1FFF) == ((1u64 << x1) | (1u64
            << x2) | (1u64 << x3) | (1u64 << x4) | (1u64 << x5)),
        ((1u64 << x1) | (1u64 << x2) | (1u64 << x3) | (1u64 << x4) | (1u64 << x5)) < 8192,
{
}

/// Bit `i` of the union of five one-bit masks is set exactly when one of
/// the five bits stands at `i`.
proof fn lemma_union_bit(x1: u64, x2: u64, x3: u64, x4: u64, x5: u64, i: u64)
    by (bit_vector)
    requires
        x1 < 13,
        x2 < 13,
        x3 < 13,
        x4 < 13,
        x5 < 13,
        i < 13,
    ensures
        (((((1u64 << x1) | (1u64 << x2) | (1u64 << x3) | (1u64 << x4) | (1u64 << x5)) >> i) & 1)
            == 1) <==> (x1 == i || x2 == i || x3 == i || x4 == i || x5 == i),
{
}

/// The union of five masks does not depend on their order.
proof fn lemma_union_symmetric(m1: u64, m2: u64, m3: u64, m4: u64, m5: u64)
    by (bit_vector)
    ensures
        m2 | m1 | m3 | m4 | m5 == m1 | m2 | m3 | m4 | m5,
        m1 | m3 | m2 | m4 | m5 == m1 | m2 | m3 | m4 | m5,
        m1 | m2 | m4 | m3 | m5 == m1 | m2 | m3 | m4 | m5,
        m1 | m2 | m3 | m5 | m4 == m1 | m2 | m3 | m4 | m5,
{
}

/// The pattern of five ranks does not depend on their order.
pub proof fn lemma_pattern_symmetric()
    ensures
        symmetric(|t: Ranks5| t.pattern()),
{
    assert forall|t: Ranks5|
        #![trigger t.pattern()]
        t.swap_ab().pattern() == t.pattern() && t.swap_bc().pattern() == t.pattern()
            && t.swap_cd().pattern() == t.pattern() && t.swap_de().pattern() == t.pattern() by {
        lemma_union_symmetric(
            rank_bit(t.a),
            rank_bit(t.b),
            rank_bit(t.c),
            rank_bit(t.d),
            rank_bit(t.e),
        );
    }
}

/// A pattern is below 8192, and its bit for a rank is set exactly when
/// the rank is one of the five.
pub proof fn lemma_pattern_holds(t: Ranks5, r: int)
    requires
        t.in_range(),
        0 <= r < 13,
    ensures
        t.pattern() < PATTERNS,
        bit_at(t.pattern(), 12 - r) <==> t.holds(r),
{
    let x1 = (12 - t.a) as u64;
    let x2 = (12 - t.b) as u64;
    let x3 = (12 - t.c) as u64;
    let x4 = (12 - t.d) as u64;
    let x5 = (12 - t.e) as u64;
    lemma_union_bit(x1, x2, x3, x4, x5, (12 - r) as u64);
    lemma_lane_of_five(x1, x2, x3, x4, x5, 0);
}

/// Two tuples of different ranks in descending order that have the same
/// pattern are the same tuple.
pub proof fn lemma_pattern_distinct(s: Ranks5, t: Ranks5)
    requires
        s.in_range(),
        t.in_range(),
        s.strictly_descending(),
        t.strictly_descending(),
        s.pattern() == t.pattern(),
    ensures
        s == t,
{
    lemma_pattern_holds(s, s.a);
    lemma_pattern_holds(s, s.b);
    lemma_pattern_holds(s, s.c);
    lemma_pattern_holds(s, s.d);
    lemma_pattern_holds(s, s.e);
    lemma_pattern_holds(t, s.a);
    lemma_pattern_holds(t, s.b);
    lemma_pattern_holds(t, s.c);
    lemma_pattern_holds(t, s.d);
    lemma_pattern_holds(t, s.e);
    lemma_pattern_holds(s, t.a);
    lemma_pattern_holds(s, t.b);
    lemma_pattern_holds(s, t.c);
    lemma_pattern_holds(s, t.d);
    lemma_pattern_holds(s, t.e);
    lemma_pattern_holds(t, t.a);
    lemma_pattern_holds(t, t.b);
    lemma_pattern_holds(t, t.c);
    lemma_pattern_holds(t, t.d);
    lemma_pattern_holds(t, t.e);
}

/// How many of five different bit positions lie in lane `k` below place
/// `n` of the lane.
spec fn placed_below(at1: int, at2: int, at3: int, at4: int, at5: int, k: int, n: int) -> int {
    indicator(13 * k <= at1 < 13 * k + n) + indicator(13 * k <= at2 < 13 * k + n) + indicator(
        13 * k <= at3 < 13 * k + n,
    ) + indicator(13 * k <= at4 < 13 * k + n) + indicator(13 * k <= at5 < 13 * k + n)
}

/// The lowest `n` bits of lane `k` of the union of five different
/// one-bit masks hold as many bits as there are positions in that part
/// of the lane.
proof fn lemma_lane_count_below(at1: u64, at2: u64, at3: u64, at4: u64, at5: u64, k: u64, n: nat)
    requires
        at1 < 52,
        at2 < 52,
        at3 < 52,
        at4 < 52,
        at5 < 52,
        at1 != at2 && at1 != at3 && at1 != at4 && at1 != at5,
        at2 != at3 && at2 != at4 && at2 != at5,
        at3 != at4 && at3 != at5,
        at4 != at5,
        k < 4,
        n <= 13,
    ensures
        bit_count(
            lane(bit_mask(at1 as int) | bit_mask(at2 as int) | bit_mask(at3 as int) | bit_mask(
                at4 as int,
            ) | bit_mask(at5 as int), k as int),
            n,
        ) == placed_below(at1 as int, at2 as int, at3 as int, at4 as int, at5 as int, k as int, n as int),
    decreases n,
{
    if n > 0 {
        lemma_lane_count_below(at1, at2, at3, at4, at5, k, (n - 1) as nat);
        lemma_lane_bit(at1, at2, at3, at4, at5, k, (n - 1) as u64);
    }
}

/// Each lane of the mask of five different cards holds as many bits as
/// there are cards of the lane's suit among the five.
pub proof fn lemma_lane_count(c1: int, c2: int, c3: int, c4: int, c5: int, k: int)
    requires
        valid_hand(c1, c2, c3, c4, c5),
        0 <= k < 4,
    ensures
        bit_count(lane(hand_mask(c1, c2, c3, c4, c5), k), 13) == suit_count(
            c1,
            c2,
            c3,
            c4,
            c5,
            3 - k,
        ),
{
    lemma_lane_count_below(
        card_bit(c1) as u64,
        card_bit(c2) as u64,
        card_bit(c3) as u64,
        card_bit(c4) as u64,
        card_bit(c5) as u64,
        k as u64,
        13,
    );
}

/// The lane of the suit of a flush is the pattern of the hand's ranks.
pub proof fn lemma_flush_lane(c1: int, c2: int, c3: int, c4: int, c5: int)
    requires
        valid_hand(c1, c2, c3, c4, c5),
        is_flush(c1, c2, c3, c4, c5),
    ensures
        lane(hand_mask(c1, c2, c3, c4, c5), 3 - card_suit(c1)) == hand_ranks(
            c1,
            c2,
            c3,
            c4,
            c5,
        ).pattern(),
{
    let k = (3 - card_suit(c1)) as u64;
    lemma_lane_of_five(
        (12 - card_rank(c1)) as u64,
        (12 - card_rank(c2)) as u64,
        (12 - card_rank(c3)) as u64,
        (12 - card_rank(c4)) as u64,
        (12 - card_rank(c5)) as u64,
        k,
    );
}

/// The rank, the suit and the bit of a card are those of its index.
pub proof fn lemma_card_index(card: Card)
    ensures
        card_rank(card.spec_index()) == card.1.spec_value(),
        card_suit(card.spec_index()) == card.0.spec_value(),
        card_bit(card.spec_index()) == card.spec_bit(),
        card_mask(card.spec_index()) == bit_mask(card.spec_bit()),
{
}

/// The pattern of five ranks.
pub fn pattern_of(a: usize, b: usize, c: usize, d: usize, e: usize) -> (p: usize)
    requires
        a < 13,
        b < 13,
        c < 13,
        d < 13,
        e < 13,
    ensures
        p == (Ranks5 { a: a as int, b: b as int, c: c as int, d: d as int, e: e as int })
            .pattern(),
        p < PATTERNS,
{
    let p: u64 = (1u64 << ((12 - a) as u64)) | (1u64 << ((12 - b) as u64)) | (1u64 << ((12
        - c) as u64)) | (1u64 << ((12 - d) as u64)) | (1u64 << ((12 - e) as u64));
    proof {
        let t = Ranks5 { a: a as int, b: b as int, c: c as int, d: d as int, e: e as int };
        lemma_pattern_holds(t, 0);
    }
    p as usize
}

} // verus!
