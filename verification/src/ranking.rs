//! The strength rank of a five-card hand, as a mathematical function.
//!
//! A hand's category follows from how often each rank occurs in it, from
//! whether its ranks are consecutive and from whether its suits agree.
//! Within its category a hand is placed by its ranks, groups before
//! kickers and high before low. The rank is the first rank of the
//! category plus the number of stronger hands of that category, counted
//! up to suits.

use vstd::prelude::*;
use crate::category::Category;
use crate::places::{below2, below3, below5};
use crate::ranks::{
    Ranks5,
    distinct,
    indicator,
    lemma_same_ranks_same_sorted,
    lemma_sorted,
    lemma_symmetric_sorted,
    playable,
    symmetric,
};

verus! {

/// The place of rank `k` among the ranks other than `g`, counted from
/// the deuce.
pub open spec fn without(k: int, g: int) -> int {
    if k > g {
        k - 1
    } else {
        k
    }
}

/// The number of straights that are stronger than a hand of five
/// different ranks that is no straight and whose highest rank is `top`.
pub open spec fn straights_above(top: int) -> int {
    if top == 12 {
        1
    } else {
        14 - top
    }
}

/// Place of a group of equal cards `g` with one other rank `k`: by the
/// group, then by the other rank.
pub open spec fn group_offset(g: int, k: int) -> int {
    (12 - g) * 12 + (11 - without(k, g))
}

/// Place of three of a kind `g` with kickers `k1 > k2`.
pub open spec fn trips_offset(g: int, k1: int, k2: int) -> int {
    (12 - g) * 66 + (65 - below2(without(k1, g), without(k2, g)))
}

/// Place of two pairs `high > low` with kicker `k`.
pub open spec fn two_pair_offset(high: int, low: int, k: int) -> int {
    (77 - below2(high, low)) * 11 + (10 - without(without(k, high), low))
}

/// Place of a pair `g` with kickers `k1 > k2 > k3`.
pub open spec fn pair_offset(g: int, k1: int, k2: int, k3: int) -> int {
    (12 - g) * 220 + (219 - below3(without(k1, g), without(k2, g), without(k3, g)))
}

/// Place of five different ranks that form no straight, among all such.
pub open spec fn distinct_offset(t: Ranks5) -> int {
    1286 - below5(t) - straights_above(t.a)
}

impl Ranks5 {
    /// Some rank occurs exactly `n` times.
    pub open spec fn has_count(self, n: int) -> bool {
        ||| self.count(self.a) == n
        ||| self.count(self.b) == n
        ||| self.count(self.c) == n
        ||| self.count(self.d) == n
        ||| self.count(self.e) == n
    }

    /// How many of the five have a rank that occurs exactly twice.
    pub open spec fn paired_cards(self) -> int {
        indicator(self.count(self.a) == 2) + indicator(self.count(self.b) == 2) + indicator(
            self.count(self.c) == 2,
        ) + indicator(self.count(self.d) == 2) + indicator(self.count(self.e) == 2)
    }

    /// The five ranks form a straight: they are consecutive, or they are
    /// the ace with five to deuce.
    pub open spec fn is_straight(self) -> bool {
        self.sorted().consecutive() || self.sorted().is_wheel()
    }

    /// The rank that a straight is named after: its highest, the ace of
    /// the wheel counting as low.
    pub open spec fn straight_top(self) -> int {
        if self.sorted().is_wheel() {
            3
        } else {
            self.sorted().a
        }
    }

    /// The category of a hand with these ranks, with or without a flush:
    /// four of a kind if some rank occurs four times, a full house if
    /// one occurs three times and another twice, and so on.
    pub open spec fn category(self, flush: bool) -> Category {
        category_from(
            self.has_count(4),
            self.has_count(3),
            self.has_count(2),
            self.paired_cards(),
            self.is_straight(),
            flush,
        )
    }

    /// In a descending tuple with three or four equal ranks and one
    /// other rank, or with three equal ranks and a pair: the other rank.
    /// The three or four equal ranks hold the middle place.
    pub open spec fn lone(self) -> int {
        if self.a == self.c {
            self.e
        } else {
            self.a
        }
    }

    /// In a descending tuple with three of a kind: the higher of the two
    /// other ranks.
    pub open spec fn trips_high(self) -> int {
        if self.a == self.c {
            self.d
        } else {
            self.a
        }
    }

    /// In a descending tuple with three of a kind: the lower of the two
    /// other ranks.
    pub open spec fn trips_low(self) -> int {
        if self.c == self.e {
            self.b
        } else {
            self.e
        }
    }

    /// In a descending tuple with two pairs: the rank beside the pairs,
    /// which hold the second and the fourth place.
    pub open spec fn pairs_lone(self) -> int {
        if self.a != self.b {
            self.a
        } else if self.c != self.d {
            self.c
        } else {
            self.e
        }
    }

    /// In a descending tuple with one pair: the rank of the pair.
    pub open spec fn pair_rank(self) -> int {
        if self.a == self.b {
            self.a
        } else if self.b == self.c {
            self.b
        } else if self.c == self.d {
            self.c
        } else {
            self.d
        }
    }

    /// In a descending tuple with one pair: the highest of the three
    /// other ranks.
    pub open spec fn pair_high(self) -> int {
        if self.a == self.b {
            self.c
        } else {
            self.a
        }
    }

    /// In a descending tuple with one pair: the middle one of the three
    /// other ranks.
    pub open spec fn pair_middle(self) -> int {
        if self.a == self.b || self.b == self.c {
            self.d
        } else {
            self.b
        }
    }

    /// In a descending tuple with one pair: the lowest of the three
    /// other ranks.
    pub open spec fn pair_low(self) -> int {
        if self.d == self.e {
            self.c
        } else {
            self.e
        }
    }

    /// The number of stronger hands of category `cat`, up to suits, for a
    /// descending tuple of that category.
    pub open spec fn offset_in(self, cat: Category) -> int {
        match cat {
            Category::StraightFlush | Category::Straight => 12 - self.straight_top(),
            Category::FourOfAKind | Category::FullHouse => group_offset(self.c, self.lone()),
            Category::Flush | Category::HighCard => distinct_offset(self),
            Category::ThreeOfAKind => trips_offset(self.c, self.trips_high(), self.trips_low()),
            Category::TwoPair => two_pair_offset(self.b, self.d, self.pairs_lone()),
            Category::OnePair => pair_offset(
                self.pair_rank(),
                self.pair_high(),
                self.pair_middle(),
                self.pair_low(),
            ),
        }
    }

    /// The weight of rank `r` among these five when hands of one
    /// category are compared: first how often it occurs, then how high
    /// it is, the ace of ace to five counting as lowest.
    pub open spec fn weight(self, r: int) -> int {
        13 * self.count(r) + if r == 12 && self.sorted().is_wheel() {
            -1
        } else {
            r
        }
    }

    /// What breaks ties between hands of one category: the weights of
    /// the five ranks, heaviest first. Of two hands of one category the
    /// one whose key comes first is the stronger.
    pub open spec fn key(self) -> Ranks5 {
        (Ranks5 {
            a: self.weight(self.a),
            b: self.weight(self.b),
            c: self.weight(self.c),
            d: self.weight(self.d),
            e: self.weight(self.e),
        }).sorted()
    }

    /// The rank of a hand with these ranks, with or without a flush.
    pub open spec fn rank(self, flush: bool) -> int {
        self.category(flush).spec_first() + self.sorted().offset_in(self.category(flush))
    }
}

/// The rank of the card with index `c`.
pub open spec fn card_rank(c: int) -> int {
    c / 4
}

/// The suit of the card with index `c`.
pub open spec fn card_suit(c: int) -> int {
    c % 4
}

/// Five card indices, each below 52 and no two alike.
pub open spec fn valid_hand(c1: int, c2: int, c3: int, c4: int, c5: int) -> bool {
    &&& 0 <= c1 < 52 && 0 <= c2 < 52 && 0 <= c3 < 52 && 0 <= c4 < 52 && 0 <= c5 < 52
    &&& c1 != c2 && c1 != c3 && c1 != c4 && c1 != c5
    &&& c2 != c3 && c2 != c4 && c2 != c5
    &&& c3 != c4 && c3 != c5
    &&& c4 != c5
}

/// The ranks of five cards, in the order of the cards.
pub open spec fn hand_ranks(c1: int, c2: int, c3: int, c4: int, c5: int) -> Ranks5 {
    Ranks5 {
        a: card_rank(c1),
        b: card_rank(c2),
        c: card_rank(c3),
        d: card_rank(c4),
        e: card_rank(c5),
    }
}

/// The five cards share one suit.
pub open spec fn is_flush(c1: int, c2: int, c3: int, c4: int, c5: int) -> bool {
    &&& card_suit(c1) == card_suit(c2)
    &&& card_suit(c1) == card_suit(c3)
    &&& card_suit(c1) == card_suit(c4)
    &&& card_suit(c1) == card_suit(c5)
}

/// What breaks ties between the hand made of five cards and others of
/// its category.
pub open spec fn hand_key(c1: int, c2: int, c3: int, c4: int, c5: int) -> Ranks5 {
    hand_ranks(c1, c2, c3, c4, c5).key()
}

/// The category of the hand made of five cards.
pub open spec fn hand_category(c1: int, c2: int, c3: int, c4: int, c5: int) -> Category {
    hand_ranks(c1, c2, c3, c4, c5).category(is_flush(c1, c2, c3, c4, c5))
}

/// The strength rank of the hand made of five cards: 1 for the strongest
/// hands, 7462 for the weakest.
pub open spec fn hand_rank(c1: int, c2: int, c3: int, c4: int, c5: int) -> int {
    hand_ranks(c1, c2, c3, c4, c5).rank(is_flush(c1, c2, c3, c4, c5))
}

impl Ranks5 {
    /// The category of a descending tuple, read off its equal neighbours.
    pub open spec fn shape(self, flush: bool) -> Category {
        if self.a == self.d || self.b == self.e {
            Category::FourOfAKind
        } else if (self.a == self.c && self.d == self.e) || (self.a == self.b && self.c == self.e) {
            Category::FullHouse
        } else if self.a == self.c || self.b == self.d || self.c == self.e {
            Category::ThreeOfAKind
        } else if (self.a == self.b && self.c == self.d) || (self.a == self.b && self.d == self.e)
            || (self.b == self.c && self.d == self.e) {
            Category::TwoPair
        } else if self.a == self.b || self.b == self.c || self.c == self.d || self.d == self.e {
            Category::OnePair
        } else if self.consecutive() || self.is_wheel() {
            if flush {
                Category::StraightFlush
            } else {
                Category::Straight
            }
        } else if flush {
            Category::Flush
        } else {
            Category::HighCard
        }
    }
}

/// A descending tuple is its own descending arrangement, and its
/// category is the one that its equal neighbours show.
pub proof fn lemma_descending_shape(t: Ranks5, flush: bool)
    requires
        t.descending(),
        t.a != t.e,
    ensures
        t.sorted() == t,
        t.category(flush) == t.shape(flush),
        t.rank(flush) == t.shape(flush).spec_first() + t.offset_in(t.shape(flush)),
{
}

/// Exchanging two neighbours does not change the descending arrangement.
pub proof fn lemma_swaps_keep_sorted(t: Ranks5)
    ensures
        t.swap_ab().sorted() == t.sorted(),
        t.swap_bc().sorted() == t.sorted(),
        t.swap_cd().sorted() == t.sorted(),
        t.swap_de().sorted() == t.sorted(),
{
    assert(t.swap_ab().same_ranks(t));
    assert(t.swap_bc().same_ranks(t));
    assert(t.swap_cd().same_ranks(t));
    assert(t.swap_de().same_ranks(t));
    lemma_same_ranks_same_sorted(t.swap_ab(), t);
    lemma_same_ranks_same_sorted(t.swap_bc(), t);
    lemma_same_ranks_same_sorted(t.swap_cd(), t);
    lemma_same_ranks_same_sorted(t.swap_de(), t);
}

/// The category of five ranks given how often ranks occur among them,
/// whether they form a straight and whether the suits agree.
pub open spec fn category_from(
    four: bool,
    three: bool,
    two: bool,
    paired: int,
    straight: bool,
    flush: bool,
) -> Category {
    if four {
        Category::FourOfAKind
    } else if three && two {
        Category::FullHouse
    } else if three {
        Category::ThreeOfAKind
    } else if paired == 4 {
        Category::TwoPair
    } else if two {
        Category::OnePair
    } else if straight {
        if flush {
            Category::StraightFlush
        } else {
            Category::Straight
        }
    } else if flush {
        Category::Flush
    } else {
        Category::HighCard
    }
}

/// Tuples in which every rank occurs as often, position by position up
/// to an exchange, have the same groups of equal ranks.
proof fn lemma_exchange_keeps_groups(t: Ranks5, u: Ranks5, n: int)
    requires
        (u.a == t.b && u.b == t.a && u.c == t.c && u.d == t.d && u.e == t.e) || (u.a == t.a && u.b
            == t.c && u.c == t.b && u.d == t.d && u.e == t.e) || (u.a == t.a && u.b == t.b && u.c
            == t.d && u.d == t.c && u.e == t.e) || (u.a == t.a && u.b == t.b && u.c == t.c && u.d
            == t.e && u.e == t.d),
    ensures
        u.has_count(n) == t.has_count(n),
        u.paired_cards() == t.paired_cards(),
{
    assert(u.count(t.a) == t.count(t.a));
    assert(u.count(t.b) == t.count(t.b));
    assert(u.count(t.c) == t.count(t.c));
    assert(u.count(t.d) == t.count(t.d));
    assert(u.count(t.e) == t.count(t.e));
}

/// Two tuples of which one is the other with two neighbours exchanged
/// have the same category and the same rank.
proof fn lemma_exchange_keeps_rank(t: Ranks5, u: Ranks5, flush: bool)
    requires
        u == t.swap_ab() || u == t.swap_bc() || u == t.swap_cd() || u == t.swap_de(),
    ensures
        u.category(flush) == t.category(flush),
        u.rank(flush) == t.rank(flush),
{
    lemma_swaps_keep_sorted(t);
    lemma_exchange_keeps_groups(t, u, 4);
    lemma_exchange_keeps_groups(t, u, 3);
    lemma_exchange_keeps_groups(t, u, 2);
    assert(u.is_straight() == t.is_straight());
    assert(u.category(flush) == category_from(
        u.has_count(4),
        u.has_count(3),
        u.has_count(2),
        u.paired_cards(),
        u.is_straight(),
        flush,
    ));
    assert(t.category(flush) == category_from(
        t.has_count(4),
        t.has_count(3),
        t.has_count(2),
        t.paired_cards(),
        t.is_straight(),
        flush,
    ));
}

/// The category of five ranks does not depend on their order.
pub proof fn lemma_category_symmetric(flush: bool)
    ensures
        symmetric(|t: Ranks5| t.category(flush)),
{
    let f = |t: Ranks5| t.category(flush);
    assert forall|t: Ranks5| #![trigger f(t)] f(t.swap_ab()) == f(t) by {
        lemma_exchange_keeps_rank(t, t.swap_ab(), flush);
    }
    assert forall|t: Ranks5| #![trigger f(t)] f(t.swap_bc()) == f(t) by {
        lemma_exchange_keeps_rank(t, t.swap_bc(), flush);
    }
    assert forall|t: Ranks5| #![trigger f(t)] f(t.swap_cd()) == f(t) by {
        lemma_exchange_keeps_rank(t, t.swap_cd(), flush);
    }
    assert forall|t: Ranks5| #![trigger f(t)] f(t.swap_de()) == f(t) by {
        lemma_exchange_keeps_rank(t, t.swap_de(), flush);
    }
}

/// The rank of five ranks does not depend on their order.
pub proof fn lemma_rank_symmetric(flush: bool)
    ensures
        symmetric(|t: Ranks5| t.rank(flush)),
{
    let f = |t: Ranks5| t.rank(flush);
    assert forall|t: Ranks5| #![trigger f(t)] f(t.swap_ab()) == f(t) by {
        lemma_exchange_keeps_rank(t, t.swap_ab(), flush);
    }
    assert forall|t: Ranks5| #![trigger f(t)] f(t.swap_bc()) == f(t) by {
        lemma_exchange_keeps_rank(t, t.swap_bc(), flush);
    }
    assert forall|t: Ranks5| #![trigger f(t)] f(t.swap_cd()) == f(t) by {
        lemma_exchange_keeps_rank(t, t.swap_cd(), flush);
    }
    assert forall|t: Ranks5| #![trigger f(t)] f(t.swap_de()) == f(t) by {
        lemma_exchange_keeps_rank(t, t.swap_de(), flush);
    }
}

/// Five ranks have the category and the rank of their descending
/// arrangement.
pub proof fn lemma_sorted_rank(t: Ranks5, flush: bool)
    ensures
        t.sorted().category(flush) == t.category(flush),
        t.sorted().rank(flush) == t.rank(flush),
{
    lemma_rank_symmetric(flush);
    lemma_category_symmetric(flush);
    let f = |t: Ranks5| t.category(flush);
    let g = |t: Ranks5| t.rank(flush);
    lemma_symmetric_sorted(f, t);
    lemma_symmetric_sorted(g, t);
    assert(f(t.sorted()) == f(t));
    assert(g(t.sorted()) == g(t));
}

/// At most four of five different cards have the same rank.
proof fn lemma_at_most_four(c1: int, c2: int, c3: int, c4: int, c5: int, v: int)
    requires
        valid_hand(c1, c2, c3, c4, c5),
    ensures
        hand_ranks(c1, c2, c3, c4, c5).count(v) <= 4,
{
}

/// The descending arrangement of the ranks of a hand is a tuple that the
/// product table has an entry for, and if the hand is a flush its ranks
/// are different.
pub proof fn lemma_hand_ranks(c1: int, c2: int, c3: int, c4: int, c5: int)
    requires
        valid_hand(c1, c2, c3, c4, c5),
    ensures
        playable(hand_ranks(c1, c2, c3, c4, c5).sorted()),
        is_flush(c1, c2, c3, c4, c5) ==> distinct(hand_ranks(c1, c2, c3, c4, c5).sorted()),
{
    let r = hand_ranks(c1, c2, c3, c4, c5);
    let s = r.sorted();
    lemma_sorted(r);
    assert(s.count(s.a) == r.count(s.a));
    assert(s.count(s.b) == r.count(s.b));
    assert(s.count(s.c) == r.count(s.c));
    assert(s.count(s.d) == r.count(s.d));
    assert(r.count(s.a) <= 4) by {
        lemma_at_most_four(c1, c2, c3, c4, c5, s.a);
    }
    if is_flush(c1, c2, c3, c4, c5) {
        assert(r.count(s.a) <= 1);
        assert(r.count(s.b) <= 1);
        assert(r.count(s.c) <= 1);
        assert(r.count(s.d) <= 1);
    }
}

} // verus!
