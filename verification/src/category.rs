//! The nine categories of hands and their ranges of ranks.
//!
//! The ranks from 1 to 7462 are divided among the categories, the
//! strongest category first, so that the category of a hand can be read
//! off its rank.

use vstd::prelude::*;

verus! {

/// The strength rank of a hand: from 1 for the strongest hands to 7462
/// for the weakest.
pub type HandRank = u16;

/// The best rank a hand can have.
pub const BEST_RANK: HandRank = 1;

/// The worst rank a hand can have, which is also the number of hands
/// that differ in strength.
pub const WORST_RANK: HandRank = 7462;

/// The nine categories of hands, strongest first.
#[derive(PartialEq, Eq, Structural, Debug, Copy, Clone)]
pub enum Category {
    StraightFlush,
    FourOfAKind,
    FullHouse,
    Flush,
    Straight,
    ThreeOfAKind,
    TwoPair,
    OnePair,
    HighCard,
}

impl Category {
    /// The category's place in the order of strength, 0 being strongest.
    pub open spec fn spec_strength(self) -> int {
        match self {
            Category::StraightFlush => 0,
            Category::FourOfAKind => 1,
            Category::FullHouse => 2,
            Category::Flush => 3,
            Category::Straight => 4,
            Category::ThreeOfAKind => 5,
            Category::TwoPair => 6,
            Category::OnePair => 7,
            Category::HighCard => 8,
        }
    }

    /// The rank of the category's strongest hand.
    pub open spec fn spec_first(self) -> int {
        match self {
            Category::StraightFlush => 1,
            Category::FourOfAKind => 11,
            Category::FullHouse => 167,
            Category::Flush => 323,
            Category::Straight => 1600,
            Category::ThreeOfAKind => 1610,
            Category::TwoPair => 2468,
            Category::OnePair => 3326,
            Category::HighCard => 6186,
        }
    }

    /// The rank of the category's weakest hand.
    pub open spec fn spec_last(self) -> int {
        match self {
            Category::StraightFlush => 10,
            Category::FourOfAKind => 166,
            Category::FullHouse => 322,
            Category::Flush => 1599,
            Category::Straight => 1609,
            Category::ThreeOfAKind => 2467,
            Category::TwoPair => 3325,
            Category::OnePair => 6185,
            Category::HighCard => 7462,
        }
    }

    /// The category whose range of ranks holds `rank`.
    pub open spec fn spec_of_rank(rank: int) -> Category {
        if rank <= 10 {
            Category::StraightFlush
        } else if rank <= 166 {
            Category::FourOfAKind
        } else if rank <= 322 {
            Category::FullHouse
        } else if rank <= 1599 {
            Category::Flush
        } else if rank <= 1609 {
            Category::Straight
        } else if rank <= 2467 {
            Category::ThreeOfAKind
        } else if rank <= 3325 {
            Category::TwoPair
        } else if rank <= 6185 {
            Category::OnePair
        } else {
            Category::HighCard
        }
    }

    /// The category's place in the order of strength, 0 being strongest.
    pub fn strength(&self) -> (s: u8)
        ensures
            s == self.spec_strength(),
    {
        match *self {
            Category::StraightFlush => 0,
            Category::FourOfAKind => 1,
            Category::FullHouse => 2,
            Category::Flush => 3,
            Category::Straight => 4,
            Category::ThreeOfAKind => 5,
            Category::TwoPair => 6,
            Category::OnePair => 7,
            Category::HighCard => 8,
        }
    }

    /// The rank of the category's strongest hand.
    pub fn first(&self) -> (r: HandRank)
        ensures
            r == self.spec_first(),
    {
        match *self {
            Category::StraightFlush => 1,
            Category::FourOfAKind => 11,
            Category::FullHouse => 167,
            Category::Flush => 323,
            Category::Straight => 1600,
            Category::ThreeOfAKind => 1610,
            Category::TwoPair => 2468,
            Category::OnePair => 3326,
            Category::HighCard => 6186,
        }
    }

    /// The rank of the category's weakest hand.
    pub fn last(&self) -> (r: HandRank)
        ensures
            r == self.spec_last(),
    {
        match *self {
            Category::StraightFlush => 10,
            Category::FourOfAKind => 166,
            Category::FullHouse => 322,
            Category::Flush => 1599,
            Category::Straight => 1609,
            Category::ThreeOfAKind => 2467,
            Category::TwoPair => 3325,
            Category::OnePair => 6185,
            Category::HighCard => 7462,
        }
    }

    /// The category whose range of ranks holds `rank`.
    pub fn of_rank(rank: HandRank) -> (c: Category)
        requires
            BEST_RANK <= rank <= WORST_RANK,
        ensures
            c == Category::spec_of_rank(rank as int),
            c.spec_first() <= rank <= c.spec_last(),
    {
        if rank <= 10 {
            Category::StraightFlush
        } else if rank <= 166 {
            Category::FourOfAKind
        } else if rank <= 322 {
            Category::FullHouse
        } else if rank <= 1599 {
            Category::Flush
        } else if rank <= 1609 {
            Category::Straight
        } else if rank <= 2467 {
            Category::ThreeOfAKind
        } else if rank <= 3325 {
            Category::TwoPair
        } else if rank <= 6185 {
            Category::OnePair
        } else {
            Category::HighCard
        }
    }
}

} // verus!
