//! The evaluator: from five cards to the rank of their hand.
//!
//! The evaluator unites the masks of the five cards and looks for a lane
//! of five bits. If there is one, the hand is a flush and its rank stands
//! in the flush table under the lane. Otherwise its rank stands in the
//! product table under the product of the primes of its ranks.

use vstd::prelude::*;
use std::collections::HashMap;
use crate::card::{CardIndex, CardMask};
use crate::category::{BEST_RANK, Category, HandRank, WORST_RANK};
use crate::flush_table::{build_flush_table, flush_entry, flushes_filled};
use crate::laws::lemma_rank_in_category;
use crate::masks::{
    PATTERNS,
    bit_count,
    count_lane_bits,
    hand_mask,
    lane,
    lane_of,
    lemma_flush_lane,
    lemma_lane_count,
    lemma_pattern_holds,
    lemma_pattern_symmetric,
    mask_of,
};
use crate::primes::{lemma_prime_product_symmetric, prime_product};
use crate::ranking::{
    card_suit,
    hand_category,
    hand_rank,
    hand_ranks,
    is_flush,
    lemma_hand_ranks,
    lemma_sorted_rank,
    valid_hand,
};
use crate::ranks::{Ranks5, distinct, lemma_symmetric_sorted, playable};
use crate::product_table::{build_product_table, product_entry, products_filled};

verus! {

broadcast use vstd::std_specs::hash::group_hash_axioms;

/// Why five card indices are not a hand.
#[derive(PartialEq, Eq, Structural, Debug, Copy, Clone)]
pub enum EvalError {
    /// Some index is not below 52.
    InvalidCard,
    /// Some card occurs twice.
    DuplicateCard,
}

/// The two lookup tables, built once and read by every evaluation.
pub struct Evaluator {
    flush: Vec<HandRank>,
    products: HashMap<u32, HandRank>,
}

impl Evaluator {
    /// Both tables hold the right rank in every place that a hand can
    /// lead to.
    #[verifier::type_invariant]
    spec fn well_formed(self) -> bool {
        flushes_filled(self.flush@) && products_filled(self.products@)
    }

    /// The flush table: for each pattern of thirteen bits a rank.
    pub closed spec fn flush_table(&self) -> Seq<HandRank> {
        self.flush@
    }

    /// The product table: for each product of five rank primes a rank.
    pub closed spec fn product_table(&self) -> Map<u32, HandRank> {
        self.products@
    }

    /// Builds the two tables: the flush table with the rank of every
    /// flush, the product table with the rank of every other hand.
    pub fn new() -> (evaluator: Evaluator)
        ensures
            flushes_filled(evaluator.flush_table()),
            products_filled(evaluator.product_table()),
    {
        let flush = build_flush_table();
        let products = build_product_table(&flush);
        Evaluator { flush, products }
    }

    /// The rank of the hand made of the five cards with the given
    /// indices, which are below 52 and different from each other.
    pub fn evaluate5(
        &self,
        c1: CardIndex,
        c2: CardIndex,
        c3: CardIndex,
        c4: CardIndex,
        c5: CardIndex,
    ) -> (rank: HandRank)
        requires
            valid_hand(c1 as int, c2 as int, c3 as int, c4 as int, c5 as int),
        ensures
            rank == hand_rank(c1 as int, c2 as int, c3 as int, c4 as int, c5 as int),
            BEST_RANK <= rank <= WORST_RANK,
            Category::spec_of_rank(rank as int) == hand_category(
                c1 as int,
                c2 as int,
                c3 as int,
                c4 as int,
                c5 as int,
            ),
    {
        proof {
            use_type_invariant(self);
            lemma_rank_in_category(c1 as int, c2 as int, c3 as int, c4 as int, c5 as int);
        }
        let mask = mask_of(c1) | mask_of(c2) | mask_of(c3) | mask_of(c4) | mask_of(c5);
        match full_lane(mask) {
            Some((l, k)) => {
                proof {
                    lemma_flush_found(
                        c1 as int,
                        c2 as int,
                        c3 as int,
                        c4 as int,
                        c5 as int,
                        k as int,
                    );
                    let s = hand_ranks(c1 as int, c2 as int, c3 as int, c4 as int, c5 as int)
                        .sorted();
                    assert(flush_entry(self.flush@, s));
                }
                self.flush[l as usize]
            },
            None => {
                proof {
                    lemma_no_flush(c1 as int, c2 as int, c3 as int, c4 as int, c5 as int);
                    let s = hand_ranks(c1 as int, c2 as int, c3 as int, c4 as int, c5 as int)
                        .sorted();
                    assert(product_entry(self.products@, s));
                }
                let product = prime_product(c1 / 4, c2 / 4, c3 / 4, c4 / 4, c5 / 4);
                match self.products.get(&product) {
                    Some(rank) => *rank,
                    None => 0,
                }
            },
        }
    }
}

/// The lane of a mask that holds five bits, and its number, if there is
/// such a lane.
fn full_lane(mask: CardMask) -> (found: Option<(u64, u64)>)
    ensures
        match found {
            Some((l, k)) => k < 4 && l == lane(mask, k as int) && bit_count(l, 13) == 5,
            None => forall|k: int| 0 <= k < 4 ==> bit_count(#[trigger] lane(mask, k), 13) != 5,
        },
{
    let mut k: u64 = 0;
    while k < 4
        invariant
            k <= 4,
            forall|j: int| 0 <= j < k ==> bit_count(#[trigger] lane(mask, j), 13) != 5,
        decreases 4 - k,
    {
        let l = lane_of(mask, k);
        if count_lane_bits(l) == 5 {
            return Some((l, k));
        }
        k = k + 1;
    }
    None
}

/// If a lane of the mask of a hand holds five bits, the hand is a flush,
/// and the lane is the pattern of the hand's ranks, which are different.
proof fn lemma_flush_found(c1: int, c2: int, c3: int, c4: int, c5: int, k: int)
    requires
        valid_hand(c1, c2, c3, c4, c5),
        0 <= k < 4,
        bit_count(lane(hand_mask(c1, c2, c3, c4, c5), k), 13) == 5,
    ensures
        is_flush(c1, c2, c3, c4, c5),
        distinct(hand_ranks(c1, c2, c3, c4, c5).sorted()),
        lane(hand_mask(c1, c2, c3, c4, c5), k) == hand_ranks(c1, c2, c3, c4, c5).sorted().pattern(),
        hand_ranks(c1, c2, c3, c4, c5).sorted().rank(true) == hand_rank(c1, c2, c3, c4, c5),
        hand_ranks(c1, c2, c3, c4, c5).sorted().pattern() < PATTERNS,
{
    let r = hand_ranks(c1, c2, c3, c4, c5);
    let s = r.sorted();
    lemma_lane_count(c1, c2, c3, c4, c5, k);
    assert(is_flush(c1, c2, c3, c4, c5));
    assert(k == 3 - card_suit(c1));
    lemma_hand_ranks(c1, c2, c3, c4, c5);
    lemma_flush_lane(c1, c2, c3, c4, c5);
    let f = |t: Ranks5| t.pattern();
    lemma_pattern_symmetric();
    lemma_symmetric_sorted(f, r);
    assert(f(s) == f(r));
    lemma_pattern_holds(s, 0);
    lemma_sorted_rank(r, true);
}

/// If no lane of the mask of a hand holds five bits, the hand is no
/// flush, and the product of its primes is that of its ranks in
/// descending order.
proof fn lemma_no_flush(c1: int, c2: int, c3: int, c4: int, c5: int)
    requires
        valid_hand(c1, c2, c3, c4, c5),
        forall|k: int|
            0 <= k < 4 ==> bit_count(#[trigger] lane(hand_mask(c1, c2, c3, c4, c5), k), 13) != 5,
    ensures
        !is_flush(c1, c2, c3, c4, c5),
        playable(hand_ranks(c1, c2, c3, c4, c5).sorted()),
        hand_ranks(c1, c2, c3, c4, c5).sorted().prime_product() == hand_ranks(
            c1,
            c2,
            c3,
            c4,
            c5,
        ).prime_product(),
        hand_ranks(c1, c2, c3, c4, c5).sorted().rank(false) == hand_rank(c1, c2, c3, c4, c5),
{
    let r = hand_ranks(c1, c2, c3, c4, c5);
    let s = r.sorted();
    let k = 3 - card_suit(c1);
    lemma_lane_count(c1, c2, c3, c4, c5, k);
    assert(bit_count(lane(hand_mask(c1, c2, c3, c4, c5), k), 13) != 5);
    assert(!is_flush(c1, c2, c3, c4, c5));
    lemma_hand_ranks(c1, c2, c3, c4, c5);
    let f = |t: Ranks5| t.prime_product();
    lemma_prime_product_symmetric();
    lemma_symmetric_sorted(f, r);
    assert(f(s) == f(r));
    lemma_sorted_rank(r, false);
}

impl Evaluator {
    /// The rank of the hand made of the five cards with the given
    /// indices, or the reason why they are no hand: an index that is not
    /// below 52, or else a card that occurs twice.
    pub fn try_evaluate5(
        &self,
        c1: CardIndex,
        c2: CardIndex,
        c3: CardIndex,
        c4: CardIndex,
        c5: CardIndex,
    ) -> (result: Result<HandRank, EvalError>)
        ensures
            match result {
                Ok(rank) => {
                    &&& valid_hand(c1 as int, c2 as int, c3 as int, c4 as int, c5 as int)
                    &&& rank == hand_rank(c1 as int, c2 as int, c3 as int, c4 as int, c5 as int)
                },
                Err(EvalError::InvalidCard) => c1 >= 52 || c2 >= 52 || c3 >= 52 || c4 >= 52 || c5
                    >= 52,
                Err(EvalError::DuplicateCard) => {
                    &&& c1 < 52 && c2 < 52 && c3 < 52 && c4 < 52 && c5 < 52
                    &&& !valid_hand(c1 as int, c2 as int, c3 as int, c4 as int, c5 as int)
                },
            },
            valid_hand(c1 as int, c2 as int, c3 as int, c4 as int, c5 as int) ==> result is Ok,
    {
        if c1 >= 52 || c2 >= 52 || c3 >= 52 || c4 >= 52 || c5 >= 52 {
            return Err(EvalError::InvalidCard);
        }
        if c1 == c2 || c1 == c3 || c1 == c4 || c1 == c5 || c2 == c3 || c2 == c4 || c2 == c5 || c3
            == c4 || c3 == c5 || c4 == c5 {
            return Err(EvalError::DuplicateCard);
        }
        Ok(self.evaluate5(c1, c2, c3, c4, c5))
    }
}

/// The rank of the hand made of the five cards with the given indices,
/// which are below 52 and different from each other: 1 for a royal
/// flush, 7462 for seven, five, four, three, deuce of mixed suits.
///
/// This builds the tables for one evaluation. To evaluate many hands,
/// build an [`Evaluator`] once.
pub fn evaluate5(
    c1: CardIndex,
    c2: CardIndex,
    c3: CardIndex,
    c4: CardIndex,
    c5: CardIndex,
) -> (rank: HandRank)
    requires
        valid_hand(c1 as int, c2 as int, c3 as int, c4 as int, c5 as int),
    ensures
        rank == hand_rank(c1 as int, c2 as int, c3 as int, c4 as int, c5 as int),
        BEST_RANK <= rank <= WORST_RANK,
        Category::spec_of_rank(rank as int) == hand_category(
            c1 as int,
            c2 as int,
            c3 as int,
            c4 as int,
            c5 as int,
        ),
{
    let evaluator = Evaluator::new();
    evaluator.evaluate5(c1, c2, c3, c4, c5)
}

} // verus!
