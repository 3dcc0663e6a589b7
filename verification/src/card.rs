//! Cards, suits and ranks, and their integer encodings.
//!
//! A card is encoded in two ways: as an index in `0..52`, which is
//! `rank * 4 + suit`, and as a one-hot 52-bit mask made of four 13-bit
//! lanes, spades lowest, in which an ace is bit 0 of its lane and a deuce
//! is bit 12.

use vstd::prelude::*;
use vstd::arithmetic::power2::pow2;
use vstd::arithmetic::power2::lemma_pow2_strictly_increases;
use vstd::arithmetic::power2::lemma2_to64;
use vstd::arithmetic::power2::lemma2_to64_rest;
use vstd::bits::lemma_u64_shl_is_mul;
use vstd::string::StringExecFns;
use crate::chance::random_u64;

verus! {

/// The index of a card: a number below 52, four times the card's rank
/// plus its suit.
pub type CardIndex = usize;

/// The mask of a card or of a set of cards: one bit for each card, in
/// four lanes of thirteen bits, one lane for each suit.
pub type CardMask = u64;

/// One of the four suits. Its value is its position in the order
/// club, diamond, heart, spade.
#[derive(PartialEq, Eq, Structural, Debug, Copy, Clone)]
pub enum Suit {
    Club,
    Diamond,
    Heart,
    Spade,
}

/// One of the thirteen ranks, deuce lowest and ace highest.
#[derive(PartialEq, Eq, Structural, Debug, Copy, Clone)]
pub enum Rank {
    Deuce,
    Three,
    Four,
    Five,
    Six,
    Seven,
    Eight,
    Nine,
    Ten,
    Jack,
    Queen,
    King,
    Ace,
}

/// A playing card: its suit and its rank.
#[derive(PartialEq, Eq, Structural, Debug, Copy, Clone)]
pub struct Card(pub Suit, pub Rank);

/// The five community cards.
#[derive(PartialEq, Eq, Debug, Copy, Clone)]
pub struct Board(pub [Card; 5]);

/// The first three community cards.
#[derive(PartialEq, Eq, Debug, Copy, Clone)]
pub struct Flop(pub [Card; 3]);

/// A player's two hole cards.
#[derive(PartialEq, Eq, Debug, Copy, Clone)]
pub struct Hand(pub [Card; 2]);

/// Something that can be scored: a strength and a description of it.
pub trait Evaluate {
    fn evaluate() -> (usize, String);
}

/// The two integer encodings of a card.
pub trait CardRepr {
    /// The card's index, in `0..52`.
    fn to_int(&self) -> CardIndex;

    /// The card's one-hot mask within 52 bits.
    fn to_52(&self) -> CardMask;
}

/// The mask whose only set bit is bit `pos`.
pub open spec fn bit_mask(pos: int) -> u64 {
    1u64 << pos
}

impl Suit {
    /// The suit's value as a mathematical integer, in `0..4`.
    pub open spec fn spec_value(self) -> int {
        match self {
            Suit::Club => 0,
            Suit::Diamond => 1,
            Suit::Heart => 2,
            Suit::Spade => 3,
        }
    }

    /// The single character that names the suit.
    pub open spec fn spec_label(self) -> Seq<char> {
        match self {
            Suit::Club => "c"@,
            Suit::Diamond => "d"@,
            Suit::Heart => "h"@,
            Suit::Spade => "s"@,
        }
    }

    /// The suit whose value is `i` modulo 4.
    pub fn get(i: u64) -> (s: Suit)
        ensures
            s.spec_value() == i % 4,
    {
        let r: u64 = i % 4;
        if r == 0 {
            Suit::Club
        } else if r == 1 {
            Suit::Diamond
        } else if r == 2 {
            Suit::Heart
        } else {
            Suit::Spade
        }
    }

    /// The suit's value, in `0..4`.
    pub fn value(&self) -> (v: u64)
        ensures
            v == self.spec_value(),
            v < 4,
    {
        match *self {
            Suit::Club => 0,
            Suit::Diamond => 1,
            Suit::Heart => 2,
            Suit::Spade => 3,
        }
    }

    /// The suit's name as text: one lower-case letter.
    pub fn label(&self) -> (s: &'static str)
        ensures
            s@ == self.spec_label(),
    {
        match *self {
            Suit::Club => "c",
            Suit::Diamond => "d",
            Suit::Heart => "h",
            Suit::Spade => "s",
        }
    }
}

impl Rank {
    /// The rank's value as a mathematical integer, in `0..13`.
    pub open spec fn spec_value(self) -> int {
        match self {
            Rank::Deuce => 0,
            Rank::Three => 1,
            Rank::Four => 2,
            Rank::Five => 3,
            Rank::Six => 4,
            Rank::Seven => 5,
            Rank::Eight => 6,
            Rank::Nine => 7,
            Rank::Ten => 8,
            Rank::Jack => 9,
            Rank::Queen => 10,
            Rank::King => 11,
            Rank::Ace => 12,
        }
    }

    /// The single character that names the rank.
    pub open spec fn spec_label(self) -> Seq<char> {
        match self {
            Rank::Deuce => "2"@,
            Rank::Three => "3"@,
            Rank::Four => "4"@,
            Rank::Five => "5"@,
            Rank::Six => "6"@,
            Rank::Seven => "7"@,
            Rank::Eight => "8"@,
            Rank::Nine => "9"@,
            Rank::Ten => "T"@,
            Rank::Jack => "J"@,
            Rank::Queen => "Q"@,
            Rank::King => "K"@,
            Rank::Ace => "A"@,
        }
    }

    /// The rank whose value is `i` modulo 13.
    pub fn get(i: u64) -> (r: Rank)
        ensures
            r.spec_value() == i % 13,
    {
        let v: u64 = i % 13;
        if v == 0 {
            Rank::Deuce
        } else if v == 1 {
            Rank::Three
        } else if v == 2 {
            Rank::Four
        } else if v == 3 {
            Rank::Five
        } else if v == 4 {
            Rank::Six
        } else if v == 5 {
            Rank::Seven
        } else if v == 6 {
            Rank::Eight
        } else if v == 7 {
            Rank::Nine
        } else if v == 8 {
            Rank::Ten
        } else if v == 9 {
            Rank::Jack
        } else if v == 10 {
            Rank::Queen
        } else if v == 11 {
            Rank::King
        } else {
            Rank::Ace
        }
    }

    /// The rank's value, in `0..13`.
    pub fn value(&self) -> (v: u64)
        ensures
            v == self.spec_value(),
            v < 13,
    {
        match *self {
            Rank::Deuce => 0,
            Rank::Three => 1,
            Rank::Four => 2,
            Rank::Five => 3,
            Rank::Six => 4,
            Rank::Seven => 5,
            Rank::Eight => 6,
            Rank::Nine => 7,
            Rank::Ten => 8,
            Rank::Jack => 9,
            Rank::Queen => 10,
            Rank::King => 11,
            Rank::Ace => 12,
        }
    }

    /// The rank's name as text: a digit, or one of `T`, `J`, `Q`, `K`, `A`.
    pub fn label(&self) -> (s: &'static str)
        ensures
            s@ == self.spec_label(),
    {
        match *self {
            Rank::Deuce => "2",
            Rank::Three => "3",
            Rank::Four => "4",
            Rank::Five => "5",
            Rank::Six => "6",
            Rank::Seven => "7",
            Rank::Eight => "8",
            Rank::Nine => "9",
            Rank::Ten => "T",
            Rank::Jack => "J",
            Rank::Queen => "Q",
            Rank::King => "K",
            Rank::Ace => "A",
        }
    }
}

impl Card {
    /// The card's index: four times its rank plus its suit.
    pub open spec fn spec_index(self) -> int {
        self.1.spec_value() * 4 + self.0.spec_value()
    }

    /// The position of the card's bit in its mask: lane `3 - suit`,
    /// and `12 - rank` within the lane.
    pub open spec fn spec_bit(self) -> int {
        (3 - self.0.spec_value()) * 13 + (12 - self.1.spec_value())
    }

    /// The card's name: its rank, then its suit.
    pub open spec fn spec_label(self) -> Seq<char> {
        self.1.spec_label() + self.0.spec_label()
    }

    /// The card with index `i`: the inverse of [`CardRepr::to_int`].
    pub fn from_int(i: CardIndex) -> (c: Card)
        requires
            i < 52,
        ensures
            c.spec_index() == i,
    {
        Card(Suit::get((i % 4) as u64), Rank::get((i / 4) as u64))
    }

    /// The card's name as text, such as `As` or `Td`.
    pub fn label(&self) -> (s: String)
        ensures
            s@ == self.spec_label(),
    {
        let mut s = String::from_str(self.1.label());
        s.append(self.0.label());
        s
    }
}

impl CardRepr for Card {
    fn to_int(&self) -> (i: CardIndex)
        ensures
            i == self.spec_index(),
            i < 52,
    {
        (self.1.value() * 4 + self.0.value()) as usize
    }

    fn to_52(&self) -> (m: CardMask)
        ensures
            m == bit_mask(self.spec_bit()),
            m == pow2(self.spec_bit() as nat),
    {
        let shift: u64 = (3 - self.0.value()) * 13 + (12 - self.1.value());
        proof {
            lemma_pow2_strictly_increases(shift as nat, 52);
            lemma2_to64();
            lemma2_to64_rest();
            lemma_u64_shl_is_mul(1, shift);
        }
        1u64 << shift
    }
}

impl Hand {
    /// The hand's name: its two cards, one after the other.
    pub open spec fn spec_label(self) -> Seq<char> {
        self.0[0].spec_label() + self.0[1].spec_label()
    }

    /// The hand's name as text, such as `AsKd`.
    pub fn label(&self) -> (s: String)
        ensures
            s@ == self.spec_label(),
    {
        let mut s = self.0[0].label();
        let second = self.0[1].label();
        s.append(second.as_str());
        s
    }
}

impl Flop {
    /// The order in which the three cards are shown for a roll: one of
    /// the six arrangements, chosen by the roll modulo 6.
    pub open spec fn spec_arranged(self, roll: int) -> Seq<Card> {
        let c = self.0@;
        let k = roll % 6;
        if k == 0 {
            seq![c[0], c[1], c[2]]
        } else if k == 1 {
            seq![c[0], c[2], c[1]]
        } else if k == 2 {
            seq![c[1], c[0], c[2]]
        } else if k == 3 {
            seq![c[1], c[2], c[0]]
        } else if k == 4 {
            seq![c[2], c[1], c[0]]
        } else {
            seq![c[2], c[0], c[1]]
        }
    }

    /// The names of three cards, one after the other.
    pub open spec fn spec_label_of(cards: Seq<Card>) -> Seq<char> {
        cards[0].spec_label() + cards[1].spec_label() + cards[2].spec_label()
    }

    /// The three cards in the order that `roll` selects.
    pub fn arranged(&self, roll: u64) -> (cards: [Card; 3])
        ensures
            cards@ == self.spec_arranged(roll as int),
    {
        let c = &self.0;
        let k: u64 = roll % 6;
        let cards = if k == 0 {
            [c[0], c[1], c[2]]
        } else if k == 1 {
            [c[0], c[2], c[1]]
        } else if k == 2 {
            [c[1], c[0], c[2]]
        } else if k == 3 {
            [c[1], c[2], c[0]]
        } else if k == 4 {
            [c[2], c[1], c[0]]
        } else {
            [c[2], c[0], c[1]]
        };
        assert(cards@ =~= self.spec_arranged(roll as int));
        cards
    }

    /// The flop's name as text, with the cards in an order that chance
    /// selects: one of the six arrangements.
    pub fn label(&self) -> (s: String)
        ensures
            exists|roll: int| s@ == Self::spec_label_of(#[trigger] self.spec_arranged(roll)),
    {
        let roll = random_u64();
        let s = self.label_with(roll);
        assert(s@ == Self::spec_label_of(self.spec_arranged(roll as int)));
        s
    }

    /// The flop's name as text, with the cards in the order that `roll`
    /// selects.
    pub fn label_with(&self, roll: u64) -> (s: String)
        ensures
            s@ == Self::spec_label_of(self.spec_arranged(roll as int)),
    {
        let cards = self.arranged(roll);
        let mut s = cards[0].label();
        let second = cards[1].label();
        let third = cards[2].label();
        s.append(second.as_str());
        s.append(third.as_str());
        s
    }
}

/// The two encodings are one to one: the index and the bit of a card are
/// below 52, and different cards have different indices and different
/// bits.
pub proof fn lemma_encodings_one_to_one(c: Card, d: Card)
    ensures
        0 <= c.spec_index() < 52,
        0 <= c.spec_bit() < 52,
        c.spec_index() == d.spec_index() <==> c == d,
        c.spec_bit() == d.spec_bit() <==> c == d,
{
}

} // verus!
