//! A deck of cards to deal from, by chance or by what a card must be like.
//!
//! Every deal that chance decides draws one number and hands it to a
//! function that picks the card for any number, so that what is dealt is
//! stated for every outcome of the draw.

use vstd::prelude::*;
use crate::card::{Card, Flop, Hand, Rank, Suit};
use crate::chance::random_u64;
use crate::ranks::indicator;

verus! {

/// The cards that are left to deal, none of them twice.
pub struct Deck {
    deck: Vec<Card>,
}

/// What a card must be like to be dealt.
pub struct Wanted {
    /// The suit that the card must have, if any.
    pub suit: Option<Suit>,
    /// The suit that the card must not have, if any.
    pub other_suit: Option<Suit>,
    /// The rank that the card must have, if any.
    pub rank: Option<Rank>,
    /// The ranks that the card must not have.
    pub other_ranks: Vec<Rank>,
}

impl Wanted {
    /// Whether the card is as wanted.
    pub open spec fn admits(&self, card: Card) -> bool {
        &&& self.suit matches Some(s) ==> card.0 == s
        &&& self.other_suit matches Some(s) ==> card.0 != s
        &&& self.rank matches Some(r) ==> card.1 == r
        &&& !self.other_ranks@.contains(card.1)
    }

    /// Any card.
    pub fn any() -> (want: Wanted)
        ensures
            forall|card: Card| want.admits(card),
            want.suit is None,
            want.other_suit is None,
            want.rank is None,
            want.other_ranks@.len() == 0,
    {
        Wanted { suit: None, other_suit: None, rank: None, other_ranks: Vec::new() }
    }

    /// Whether the card is as wanted.
    pub fn check(&self, card: &Card) -> (ok: bool)
        ensures
            ok == self.admits(*card),
    {
        match self.suit {
            Some(s) => {
                if card.0 != s {
                    return false;
                }
            },
            None => {},
        }
        match self.other_suit {
            Some(s) => {
                if card.0 == s {
                    return false;
                }
            },
            None => {},
        }
        match self.rank {
            Some(r) => {
                if card.1 != r {
                    return false;
                }
            },
            None => {},
        }
        let mut i: usize = 0;
        while i < self.other_ranks.len()
            invariant
                i <= self.other_ranks.len(),
                forall|j: int| 0 <= j < i ==> self.other_ranks@[j] != card.1,
            decreases self.other_ranks.len() - i,
        {
            if self.other_ranks[i] == card.1 {
                return false;
            }
            i = i + 1;
        }
        true
    }
}

/// The place of the first occurrence of a card among the cards.
pub open spec fn first_place(cards: Seq<Card>, card: Card) -> int {
    choose|i: int|
        0 <= i < cards.len() && cards[i] == card && forall|j: int| 0 <= j < i ==> cards[j] != card
}

/// The cards without the first occurrence of a card.
#[verifier::opaque]
pub open spec fn removed(cards: Seq<Card>, card: Card) -> Seq<Card> {
    if cards.contains(card) {
        cards.remove(first_place(cards, card))
    } else {
        cards
    }
}

/// How many of the first `n` cards are as wanted.
pub open spec fn admitted(cards: Seq<Card>, want: Wanted, n: int) -> int
    decreases n,
{
    if n <= 0 {
        0
    } else {
        admitted(cards, want, n - 1) + indicator(want.admits(cards[n - 1]))
    }
}

/// The cards of a new deck: all 52, by rank and within a rank by suit.
pub open spec fn all_cards(cards: Seq<Card>) -> bool {
    cards.len() == 52 && forall|i: int| 0 <= i < 52 ==> (#[trigger] cards[i]).spec_index() == i
}

/// No card occurs twice among the cards.
pub open spec fn no_card_twice(cards: Seq<Card>) -> bool {
    forall|i: int, j: int| 0 <= i < j < cards.len() ==> cards[i] != cards[j]
}

/// Taking a card out of cards that hold no card twice leaves the other
/// cards, and no card twice.
pub proof fn lemma_removed(cards: Seq<Card>, card: Card)
    requires
        no_card_twice(cards),
    ensures
        no_card_twice(removed(cards, card)),
        forall|c: Card| #[trigger] removed(cards, card).contains(c) <==> cards.contains(c) && c != card,
        cards.contains(card) ==> removed(cards, card).len() == cards.len() - 1,
        !cards.contains(card) ==> removed(cards, card) == cards,
{
    reveal(removed);
    if cards.contains(card) {
        let k = choose|i: int| 0 <= i < cards.len() && cards[i] == card;
        assert(forall|j: int| 0 <= j < k ==> cards[j] != card);
        let p = first_place(cards, card);
        assert(p == k);
        let r = cards.remove(p);
        assert forall|c: Card| #[trigger] r.contains(c) <==> cards.contains(c) && c != card by {
            if r.contains(c) {
                let i = choose|i: int| 0 <= i < r.len() && r[i] == c;
                if i < p {
                    assert(cards[i] == c);
                } else {
                    assert(cards[i + 1] == c);
                }
            }
            if cards.contains(c) && c != card {
                let i = choose|i: int| 0 <= i < cards.len() && cards[i] == c;
                if i < p {
                    assert(r[i] == c);
                } else {
                    assert(r[i - 1] == c);
                }
            }
        }
    }
}

impl View for Deck {
    type V = Seq<Card>;

    /// The cards that are left, in their order.
    closed spec fn view(&self) -> Seq<Card> {
        self.deck@
    }
}

impl Deck {
    /// No card is in the deck twice.
    pub open spec fn well_formed(&self) -> bool {
        no_card_twice(self@)
    }

    /// A new deck of all 52 cards.
    pub fn new() -> (deck: Deck)
        ensures
            all_cards(deck@),
            has_all(deck@),
            deck.well_formed(),
    {
        let mut deck: Vec<Card> = Vec::new();
        let mut i: u64 = 0;
        while i < 13
            invariant
                i <= 13,
                deck.len() == 4 * i,
                forall|k: int| 0 <= k < deck.len() ==> (#[trigger] deck@[k]).spec_index() == k,
            decreases 13 - i,
        {
            let mut j: u64 = 0;
            while j < 4
                invariant
                    i < 13,
                    j <= 4,
                    deck.len() == 4 * i + j,
                    forall|k: int| 0 <= k < deck.len() ==> (#[trigger] deck@[k]).spec_index() == k,
                decreases 4 - j,
            {
                let suit = Suit::get(j);
                let num = Rank::get(i);
                deck.push(Card(suit, num));
                j = j + 1;
            }
            i = i + 1;
        }
        proof {
            lemma_all_cards(deck@);
        }
        Deck { deck }
    }

    /// The number of cards that are left.
    pub fn len(&self) -> (n: usize)
        ensures
            n == self@.len(),
    {
        self.deck.len()
    }

    /// Whether the card is still in the deck.
    pub fn contains(&self, card: &Card) -> (found: bool)
        ensures
            found == self@.contains(*card),
    {
        let mut i: usize = 0;
        while i < self.deck.len()
            invariant
                i <= self.deck.len(),
                forall|j: int| 0 <= j < i ==> self.deck@[j] != *card,
            decreases self.deck.len() - i,
        {
            if self.deck[i] == *card {
                return true;
            }
            i = i + 1;
        }
        false
    }

    /// Takes the card out of the deck, and says whether it was there.
    pub fn remove_card(&mut self, card: &Card) -> (found: bool)
        requires
            old(self).well_formed(),
        ensures
            final(self).well_formed(),
            found == old(self)@.contains(*card),
            final(self)@ == removed(old(self)@, *card),
    {
        proof {
            reveal(removed);
        }
        let mut i: usize = 0;
        while i < self.deck.len()
            invariant
                i <= self.deck.len(),
                no_card_twice(self.deck@),
                self.deck@ == old(self).deck@,
                forall|j: int| 0 <= j < i ==> self.deck@[j] != *card,
            decreases self.deck.len() - i,
        {
            if self.deck[i] == *card {
                proof {
                    reveal(removed);
                }
                assert(self.deck@[i as int] == *card);
                assert(self.deck@.contains(*card));
                assert(first_place(self.deck@, *card) == i);
                proof {
                    lemma_removed(self.deck@, *card);
                }
                self.deck.remove(i);
                assert(self.deck@ == removed(old(self).deck@, *card));
                return true;
            }
            i = i + 1;
        }
        false
    }

    /// The card that the roll picks among the cards that are as wanted:
    /// with `n` such cards in the deck, the one at place `roll % n` among
    /// them. None if the deck holds no such card.
    pub fn pick_wanted(&self, want: &Wanted, roll: u64) -> (picked: Option<Card>)
        ensures
            match picked {
                Some(card) => exists|i: int|
                    0 <= i < self@.len() && #[trigger] self@[i] == card && want.admits(card)
                        && admitted(self@, *want, i) == roll as int % admitted(
                        self@,
                        *want,
                        self@.len() as int,
                    ),
                None => admitted(self@, *want, self@.len() as int) == 0,
            },
    {
        let mut total: usize = 0;
        let mut i: usize = 0;
        while i < self.deck.len()
            invariant
                i <= self.deck.len(),
                total <= i,
                total == admitted(self.deck@, *want, i as int),
            decreases self.deck.len() - i,
        {
            if want.check(&self.deck[i]) {
                total = total + 1;
            }
            i = i + 1;
        }
        if total == 0 {
            return None;
        }
        let place: usize = (roll % (total as u64)) as usize;
        let mut seen: usize = 0;
        let mut i: usize = 0;
        while i < self.deck.len()
            invariant
                i <= self.deck.len(),
                seen <= place < total,
                total == admitted(self.deck@, *want, self.deck@.len() as int),
                place == roll as int % total as int,
                seen == admitted(self.deck@, *want, i as int),
            decreases self.deck.len() - i,
        {
            if want.check(&self.deck[i]) {
                if seen == place {
                    assert(self@[i as int] == self.deck[i as int] && want.admits(self@[i as int])
                        && admitted(self@, *want, i as int) == roll as int % admitted(
                        self@,
                        *want,
                        self@.len() as int,
                    ));
                    return Some(self.deck[i]);
                }
                seen = seen + 1;
            }
            i = i + 1;
        }
        None
    }
}

/// If none of the first `n` cards counts as wanted, none of them is as
/// wanted.
pub proof fn lemma_none_admitted(cards: Seq<Card>, want: Wanted, n: int)
    requires
        0 <= n <= cards.len(),
        admitted(cards, want, n) == 0,
    ensures
        forall|i: int| 0 <= i < n ==> !want.admits(#[trigger] cards[i]),
    decreases n,
{
    if n > 0 {
        lemma_admitted_sign(cards, want, n - 1);
        lemma_none_admitted(cards, want, n - 1);
    }
}

/// The number of wanted cards among the first `n` is not negative.
pub proof fn lemma_admitted_sign(cards: Seq<Card>, want: Wanted, n: int)
    ensures
        0 <= admitted(cards, want, n),
    decreases n,
{
    if n > 0 {
        lemma_admitted_sign(cards, want, n - 1);
    }
}

/// Every card is among the cards.
pub open spec fn has_all(cards: Seq<Card>) -> bool {
    forall|card: Card| cards.contains(card)
}

/// A new deck holds every card, and none twice.
pub proof fn lemma_all_cards(cards: Seq<Card>)
    requires
        all_cards(cards),
    ensures
        has_all(cards),
        no_card_twice(cards),
{
    assert forall|card: Card| cards.contains(card) by {
        let i = card.spec_index();
        assert(cards[i].spec_index() == i);
        assert(cards[i] == card);
    }
}

impl Wanted {
    /// A card of the given suit.
    pub fn of_suit(suit: Suit) -> (want: Wanted)
        ensures
            forall|card: Card| want.admits(card) <==> card.0 == suit,
    {
        Wanted { suit: Some(suit), other_suit: None, rank: None, other_ranks: Vec::new() }
    }

    /// A card of the given rank.
    pub fn of_rank(rank: Rank) -> (want: Wanted)
        ensures
            forall|card: Card| want.admits(card) <==> card.1 == rank,
    {
        Wanted { suit: None, other_suit: None, rank: Some(rank), other_ranks: Vec::new() }
    }

    /// A card of another suit than the given one, if one is given, and of
    /// none of the given ranks.
    pub fn none_of(suit: Option<Suit>, ranks: Vec<Rank>) -> (want: Wanted)
        ensures
            forall|card: Card|
                want.admits(card) <==> (suit matches Some(s) ==> card.0 != s) && !ranks@.contains(
                    card.1,
                ),
    {
        Wanted { suit: None, other_suit: suit, rank: None, other_ranks: ranks }
    }
}

impl Deck {
    /// Deals by chance one of the cards that are as wanted, each with
    /// about the same chance, and takes it out of the deck. None, and the
    /// deck as it was, if it holds no such card.
    pub fn deal_wanted(&mut self, want: &Wanted) -> (dealt: Option<Card>)
        requires
            old(self).well_formed(),
        ensures
            final(self).well_formed(),
            match dealt {
                Some(card) => {
                    &&& want.admits(card)
                    &&& old(self)@.contains(card)
                    &&& final(self)@ == removed(old(self)@, card)
                },
                None => {
                    &&& final(self)@ == old(self)@
                    &&& forall|card: Card| old(self)@.contains(card) ==> !want.admits(card)
                },
            },
    {
        let roll = random_u64();
        match self.pick_wanted(want, roll) {
            Some(card) => {
                self.remove_card(&card);
                Some(card)
            },
            None => {
                proof {
                    lemma_none_admitted(self@, *want, self@.len() as int);
                }
                None
            },
        }
    }

    /// Picks a card of the deck by chance and leaves it in the deck. None
    /// if the deck is empty.
    pub fn _deal_one_random(&mut self) -> (picked: Option<Card>)
        ensures
            final(self)@ == old(self)@,
            match picked {
                Some(card) => old(self)@.contains(card),
                None => old(self)@.len() == 0,
            },
    {
        let roll = random_u64();
        let want = Wanted::any();
        let picked = self.pick_wanted(&want, roll);
        proof {
            if picked is None {
                lemma_none_admitted(self@, want, self@.len() as int);
                if self@.len() > 0 {
                    assert(want.admits(self@[0]));
                }
            }
        }
        picked
    }

    /// Deals a card by chance: picks it and takes it out of the deck. None
    /// if the deck is empty.
    pub fn deal_one_rand(&mut self) -> (dealt: Option<Card>)
        requires
            old(self).well_formed(),
        ensures
            final(self).well_formed(),
            match dealt {
                Some(card) => old(self)@.contains(card) && final(self)@ == removed(
                    old(self)@,
                    card,
                ),
                None => old(self)@.len() == 0 && final(self)@ == old(self)@,
            },
    {
        let want = Wanted::any();
        let dealt = self.deal_wanted(&want);
        proof {
            if dealt is None && old(self)@.len() > 0 {
                let first = old(self)@[0];
                assert(old(self)@.contains(first));
                assert(want.admits(first));
            }
        }
        dealt
    }

    /// Deals by chance a card of the given suit. None, and the deck as it
    /// was, if it holds no card of that suit.
    pub fn deal_suit(&mut self, suit: Suit) -> (dealt: Option<Card>)
        requires
            old(self).well_formed(),
        ensures
            final(self).well_formed(),
            match dealt {
                Some(card) => {
                    &&& card.0 == suit
                    &&& old(self)@.contains(card)
                    &&& final(self)@ == removed(old(self)@, card)
                },
                None => {
                    &&& final(self)@ == old(self)@
                    &&& forall|card: Card| old(self)@.contains(card) ==> card.0 != suit
                },
            },
    {
        let want = Wanted::of_suit(suit);
        let dealt = self.deal_wanted(&want);
        proof {
            if dealt is None {
                assert forall|card: Card| old(self)@.contains(card) implies card.0 != suit by {
                    assert(!want.admits(card));
                }
            } else {
                assert(want.admits(dealt->0));
            }
        }
        dealt
    }

    /// Deals by chance a card of the given rank. None, and the deck as it
    /// was, if it holds no card of that rank.
    pub fn deal_rank(&mut self, rank: Rank) -> (dealt: Option<Card>)
        requires
            old(self).well_formed(),
        ensures
            final(self).well_formed(),
            match dealt {
                Some(card) => {
                    &&& card.1 == rank
                    &&& old(self)@.contains(card)
                    &&& final(self)@ == removed(old(self)@, card)
                },
                None => {
                    &&& final(self)@ == old(self)@
                    &&& forall|card: Card| old(self)@.contains(card) ==> card.1 != rank
                },
            },
    {
        let want = Wanted::of_rank(rank);
        let dealt = self.deal_wanted(&want);
        proof {
            if dealt is None {
                assert forall|card: Card| old(self)@.contains(card) implies card.1 != rank by {
                    assert(!want.admits(card));
                }
            } else {
                assert(want.admits(dealt->0));
            }
        }
        dealt
    }
}

/// The hand, the first two cards of the flop, the last card of the flop
/// and the turn were dealt in this order from the cards `before`, which
/// left the cards `after`.
pub open spec fn six_dealt(
    before: Seq<Card>,
    hand: Hand,
    flop: Flop,
    turn: Card,
    after: Seq<Card>,
) -> bool {
    let d1 = removed(before, hand.0[0]);
    let d2 = removed(d1, hand.0[1]);
    let d3 = removed(d2, flop.0[0]);
    let d4 = removed(d3, flop.0[1]);
    let d5 = removed(d4, flop.0[2]);
    &&& before.contains(hand.0[0])
    &&& d1.contains(hand.0[1])
    &&& d2.contains(flop.0[0])
    &&& d3.contains(flop.0[1])
    &&& d4.contains(flop.0[2])
    &&& d5.contains(turn)
    &&& after == removed(d5, turn)
}

/// A flush draw: the hand and the first two cards of the flop share a
/// suit, the last card of the flop and the turn have another suit, and
/// the turn pairs neither card of the hand.
pub open spec fn is_flush_draw(flop: Flop, hand: Hand, turn: Card) -> bool {
    let suit = hand.0[0].0;
    &&& hand.0[1].0 == suit
    &&& flop.0[0].0 == suit
    &&& flop.0[1].0 == suit
    &&& flop.0[2].0 != suit
    &&& turn.0 != suit
    &&& turn.1 != hand.0[0].1
    &&& turn.1 != hand.0[1].1
}

/// A suit other than the given one.
spec fn another_suit(suit: Suit) -> Suit {
    if suit == Suit::Club {
        Suit::Diamond
    } else {
        Suit::Club
    }
}

/// The cards are all cards but the taken ones.
#[verifier::opaque]
spec fn all_but(cards: Seq<Card>, taken: Set<Card>) -> bool {
    forall|c: Card| cards.contains(c) <==> !taken.contains(c)
}

/// The first of four cards that is as wanted and not taken, if there is
/// one, else the last.
spec fn spare_of(want: Wanted, taken: Set<Card>, a: Card, b: Card, c: Card, e: Card) -> Card {
    if want.admits(a) && !taken.contains(a) {
        a
    } else if want.admits(b) && !taken.contains(b) {
        b
    } else if want.admits(c) && !taken.contains(c) {
        c
    } else {
        e
    }
}

impl Deck {
    /// Deals a card that is as wanted, as [`Deck::deal_wanted`] does. If
    /// the deck holds all cards but the taken ones, it then holds all but
    /// those and the card dealt, and a card is dealt if the spare card is
    /// as wanted and not taken.
    fn deal_tracked(&mut self, want: &Wanted, Ghost(taken): Ghost<Set<Card>>, Ghost(spare): Ghost<
        Card,
    >) -> (dealt: Option<Card>)
        requires
            old(self).well_formed(),
        ensures
            final(self).well_formed(),
            match dealt {
                Some(card) => {
                    &&& want.admits(card)
                    &&& old(self)@.contains(card)
                    &&& final(self)@ == removed(old(self)@, card)
                    &&& all_but(old(self)@, taken) ==> all_but(final(self)@, taken.insert(card))
                },
                None => {
                    &&& final(self)@ == old(self)@
                    &&& !(all_but(old(self)@, taken) && want.admits(spare) && !taken.contains(
                        spare,
                    ))
                },
            },
    {
        let dealt = self.deal_wanted(want);
        proof {
            reveal(all_but);
            match dealt {
                Some(card) => {
                    lemma_removed(old(self)@, card);
                    if all_but(old(self)@, taken) {
                        assert forall|c: Card|
                            final(self)@.contains(c) <==> !taken.insert(card).contains(c) by {
                            assert(removed(old(self)@, card).contains(c) <==> old(self)@.contains(c)
                                && c != card);
                        }
                    }
                },
                None => {
                    if all_but(old(self)@, taken) && !taken.contains(spare) {
                        assert(old(self)@.contains(spare));
                    }
                },
            }
        }
        dealt
    }

    /// Deals a flush draw by chance: a suit, two cards of the suit for the
    /// hand and two for the flop, a third card of another suit for the
    /// flop, and a turn of another suit that pairs neither card of the
    /// hand. None if the deck runs out of such cards, which it does not
    /// if it holds all cards.
    pub fn flush_draw(&mut self) -> (drawn: Option<(Flop, Hand, Card)>)
        requires
            old(self).well_formed(),
        ensures
            final(self).well_formed(),
            drawn matches Some((flop, hand, turn)) ==> is_flush_draw(flop, hand, turn) && six_dealt(
                old(self)@,
                hand,
                flop,
                turn,
                final(self)@,
            ),
            has_all(old(self)@) ==> drawn is Some,
    {
        let suit = Suit::get(random_u64());
        let ghost other = another_suit(suit);
        let ghost s2 = Card(suit, Rank::Deuce);
        let ghost s3 = Card(suit, Rank::Three);
        let ghost s4 = Card(suit, Rank::Four);
        let ghost s5 = Card(suit, Rank::Five);
        let ghost t0 = Set::<Card>::empty();
        assert(has_all(self@) ==> all_but(self@, t0)) by {
            reveal(all_but);
        }
        let of_suit = Wanted::of_suit(suit);
        let ghost spare = spare_of(of_suit, t0, s2, s3, s4, s5);
        let card1 = match self.deal_tracked(&of_suit, Ghost(t0), Ghost(spare)) {
            Some(card) => card,
            None => {
                return None;
            },
        };
        let ghost t1 = t0.insert(card1);
        let ghost spare = spare_of(of_suit, t1, s2, s3, s4, s5);
        let card2 = match self.deal_tracked(&of_suit, Ghost(t1), Ghost(spare)) {
            Some(card) => card,
            None => {
                return None;
            },
        };
        let hand = Hand([card1, card2]);
        let ghost t2 = t1.insert(card2);
        let ghost spare = spare_of(of_suit, t2, s2, s3, s4, s5);
        let card3 = match self.deal_tracked(&of_suit, Ghost(t2), Ghost(spare)) {
            Some(card) => card,
            None => {
                return None;
            },
        };
        let ghost t3 = t2.insert(card3);
        let ghost spare = spare_of(of_suit, t3, s2, s3, s4, s5);
        let card4 = match self.deal_tracked(&of_suit, Ghost(t3), Ghost(spare)) {
            Some(card) => card,
            None => {
                return None;
            },
        };
        let ghost t4 = t3.insert(card4);
        let ghost o2 = Card(other, Rank::Deuce);
        let ghost o3 = Card(other, Rank::Three);
        let ghost o4 = Card(other, Rank::Four);
        let ghost o5 = Card(other, Rank::Five);
        let want5 = Wanted::none_of(Some(suit), Vec::new());
        let card5 = match self.deal_tracked(&want5, Ghost(t4), Ghost(o2)) {
            Some(card) => card,
            None => {
                assert(want5.admits(o2));
                return None;
            },
        };
        let flop = Flop([card3, card4, card5]);
        let ghost t5 = t4.insert(card5);
        let ranks = two_ranks(card1.1, card2.1);
        let want6 = Wanted::none_of(Some(suit), ranks);
        let ghost spare = spare_of(want6, t5, o2, o3, o4, o5);
        let turn = match self.deal_tracked(&want6, Ghost(t5), Ghost(spare)) {
            Some(card) => card,
            None => {
                assert(want6.admits(o2) <==> o2.1 != card1.1 && o2.1 != card2.1);
                assert(want6.admits(o3) <==> o3.1 != card1.1 && o3.1 != card2.1);
                assert(want6.admits(o4) <==> o4.1 != card1.1 && o4.1 != card2.1);
                assert(want6.admits(o5) <==> o5.1 != card1.1 && o5.1 != card2.1);
                return None;
            },
        };
        proof {
            assert(want5.admits(card5));
            assert(want6.admits(turn));
        }
        Some((flop, hand, turn))
    }
}

/// A gutshot straight draw: the hand is two neighbouring ranks, the
/// flop holds the two ranks that follow after a gap of one, its last
/// card does not fill the gap, and the turn neither fills the gap nor
/// pairs the hand.
pub open spec fn is_hole_card(flop: Flop, hand: Hand, turn: Card) -> bool {
    let low = hand.0[0].1.spec_value();
    &&& low < 8
    &&& hand.0[1].1.spec_value() == low + 1
    &&& flop.0[0].1.spec_value() == low + 3
    &&& flop.0[1].1.spec_value() == low + 4
    &&& flop.0[2].1.spec_value() != low + 2
    &&& turn.1.spec_value() != low + 2
    &&& turn.1.spec_value() != low
    &&& turn.1.spec_value() != low + 1
}

/// An open-ended straight draw: the hand and the first two cards of the
/// flop are four neighbouring ranks, and neither the last card of the
/// flop nor the turn completes the straight at either end; the turn does
/// not pair the hand either.
pub open spec fn is_de_straight(flop: Flop, hand: Hand, turn: Card) -> bool {
    let low = hand.0[0].1.spec_value();
    &&& 1 <= low < 8
    &&& hand.0[1].1.spec_value() == low + 1
    &&& flop.0[0].1.spec_value() == low + 2
    &&& flop.0[1].1.spec_value() == low + 3
    &&& flop.0[2].1.spec_value() != low - 1
    &&& flop.0[2].1.spec_value() != low + 4
    &&& turn.1.spec_value() != low - 1
    &&& turn.1.spec_value() != low + 4
    &&& turn.1.spec_value() != low
    &&& turn.1.spec_value() != low + 1
}

/// The six cards were in the cards `before` and are not in the cards
/// `after`, which hold no card that was not there before.
pub open spec fn six_taken(
    before: Seq<Card>,
    hand: Hand,
    flop: Flop,
    turn: Card,
    after: Seq<Card>,
) -> bool {
    &&& before.contains(hand.0[0]) && !after.contains(hand.0[0])
    &&& before.contains(hand.0[1]) && !after.contains(hand.0[1])
    &&& before.contains(flop.0[0]) && !after.contains(flop.0[0])
    &&& before.contains(flop.0[1]) && !after.contains(flop.0[1])
    &&& before.contains(flop.0[2]) && !after.contains(flop.0[2])
    &&& before.contains(turn) && !after.contains(turn)
    &&& forall|card: Card| after.contains(card) ==> before.contains(card)
}

/// The three ranks as a list.
fn three_ranks(r1: Rank, r2: Rank, r3: Rank) -> (ranks: Vec<Rank>)
    ensures
        forall|r: Rank| ranks@.contains(r) <==> r == r1 || r == r2 || r == r3,
{
    let mut ranks: Vec<Rank> = Vec::new();
    ranks.push(r1);
    ranks.push(r2);
    ranks.push(r3);
    proof {
        assert(ranks@[0] == r1);
        assert(ranks@[1] == r2);
        assert(ranks@[2] == r3);
    }
    ranks
}

/// The four ranks as a list.
fn four_ranks(r1: Rank, r2: Rank, r3: Rank, r4: Rank) -> (ranks: Vec<Rank>)
    ensures
        forall|r: Rank| ranks@.contains(r) <==> r == r1 || r == r2 || r == r3 || r == r4,
{
    let mut ranks: Vec<Rank> = Vec::new();
    ranks.push(r1);
    ranks.push(r2);
    ranks.push(r3);
    ranks.push(r4);
    proof {
        assert(ranks@[0] == r1);
        assert(ranks@[1] == r2);
        assert(ranks@[2] == r3);
        assert(ranks@[3] == r4);
    }
    ranks
}

/// The one rank as a list.
fn one_rank(r1: Rank) -> (ranks: Vec<Rank>)
    ensures
        forall|r: Rank| ranks@.contains(r) <==> r == r1,
{
    let mut ranks: Vec<Rank> = Vec::new();
    ranks.push(r1);
    proof {
        assert(ranks@[0] == r1);
    }
    ranks
}

impl Deck {
    /// Deals a gutshot straight draw by chance: a rank from deuce to
    /// nine, a card of that rank and one of the next for the hand, a card
    /// of each of the two ranks after a gap of one for the flop, a third
    /// card for the flop that does not fill the gap, and a turn that
    /// neither fills the gap nor pairs the hand. None if the deck runs out
    /// of such cards, which it does not if it holds all cards.
    pub fn hole_card(&mut self) -> (drawn: Option<(Flop, Hand, Card)>)
        requires
            old(self).well_formed(),
        ensures
            final(self).well_formed(),
            drawn matches Some((flop, hand, turn)) ==> is_hole_card(flop, hand, turn) && six_dealt(
                old(self)@,
                hand,
                flop,
                turn,
                final(self)@,
            ),
            has_all(old(self)@) ==> drawn is Some,
    {
        let start = random_u64() % 8;
        let r0 = Rank::get(start);
        let r1 = Rank::get(start + 1);
        let r2 = Rank::get(start + 2);
        let r3 = Rank::get(start + 3);
        let r4 = Rank::get(start + 4);
        let ghost t0 = Set::<Card>::empty();
        assert(has_all(self@) ==> all_but(self@, t0)) by {
            reveal(all_but);
        }
        let want1 = Wanted::of_rank(r0);
        let card1 = match self.deal_tracked(&want1, Ghost(t0), Ghost(Card(Suit::Club, r0))) {
            Some(card) => card,
            None => {
                return None;
            },
        };
        let ghost t1 = t0.insert(card1);
        let want2 = Wanted::of_rank(r1);
        let card2 = match self.deal_tracked(&want2, Ghost(t1), Ghost(Card(Suit::Club, r1))) {
            Some(card) => card,
            None => {
                return None;
            },
        };
        let hand = Hand([card1, card2]);
        let ghost t2 = t1.insert(card2);
        let want3 = Wanted::of_rank(r3);
        let card3 = match self.deal_tracked(&want3, Ghost(t2), Ghost(Card(Suit::Club, r3))) {
            Some(card) => card,
            None => {
                return None;
            },
        };
        let ghost t3 = t2.insert(card3);
        let want4 = Wanted::of_rank(r4);
        let card4 = match self.deal_tracked(&want4, Ghost(t3), Ghost(Card(Suit::Club, r4))) {
            Some(card) => card,
            None => {
                return None;
            },
        };
        let ghost t4 = t3.insert(card4);
        let want5 = Wanted::none_of(None, one_rank(r2));
        let ghost spare = spare_of(
            want5,
            t4,
            Card(Suit::Club, r0),
            Card(Suit::Diamond, r0),
            Card(Suit::Heart, r0),
            Card(Suit::Spade, r0),
        );
        let card5 = match self.deal_tracked(&want5, Ghost(t4), Ghost(spare)) {
            Some(card) => card,
            None => {
                assert(want5.admits(Card(Suit::Club, r0)));
                assert(want5.admits(Card(Suit::Diamond, r0)));
                return None;
            },
        };
        let flop = Flop([card3, card4, card5]);
        let ghost t5 = t4.insert(card5);
        let want6 = Wanted::none_of(None, three_ranks(r2, card1.1, card2.1));
        let ghost spare = spare_of(
            want6,
            t5,
            Card(Suit::Club, r3),
            Card(Suit::Diamond, r3),
            Card(Suit::Heart, r3),
            Card(Suit::Spade, r3),
        );
        let turn = match self.deal_tracked(&want6, Ghost(t5), Ghost(spare)) {
            Some(card) => card,
            None => {
                assert(want6.admits(Card(Suit::Club, r3)));
                assert(want6.admits(Card(Suit::Diamond, r3)));
                assert(want6.admits(Card(Suit::Heart, r3)));
                return None;
            },
        };
        proof {
            assert(want1.admits(card1));
            assert(want2.admits(card2));
            assert(want3.admits(card3));
            assert(want4.admits(card4));
            assert(want5.admits(card5));
            assert(want6.admits(turn));
        }
        Some((flop, hand, turn))
    }
}

impl Deck {
    /// Deals an open-ended straight draw by chance: a rank from three to
    /// nine, a card of that rank and one of the next for the hand, a card
    /// of each of the two ranks that follow for the flop, then cards that
    /// are laid aside until one does not complete the straight at either
    /// end, which is the third card of the flop, and a turn that neither
    /// completes the straight nor pairs the hand. None if the deck runs
    /// out of such cards, which it does not if it holds all cards.
    pub fn de_straight(&mut self) -> (drawn: Option<(Flop, Hand, Card)>)
        requires
            old(self).well_formed(),
        ensures
            final(self).well_formed(),
            drawn matches Some((flop, hand, turn)) ==> is_de_straight(flop, hand, turn)
                && six_taken(old(self)@, hand, flop, turn, final(self)@),
            has_all(old(self)@) ==> drawn is Some,
    {
        let start = random_u64() % 7;
        let r0 = Rank::get(start);
        let r1 = Rank::get(start + 1);
        let r2 = Rank::get(start + 2);
        let r3 = Rank::get(start + 3);
        let r4 = Rank::get(start + 4);
        let r5 = Rank::get(start + 5);
        let ghost t0 = Set::<Card>::empty();
        assert(has_all(self@) ==> all_but(self@, t0)) by {
            reveal(all_but);
        }
        let want1 = Wanted::of_rank(r1);
        let card1 = match self.deal_tracked(&want1, Ghost(t0), Ghost(Card(Suit::Club, r1))) {
            Some(card) => card,
            None => {
                return None;
            },
        };
        let ghost t1 = t0.insert(card1);
        let ghost d1 = self@;
        let want2 = Wanted::of_rank(r2);
        let card2 = match self.deal_tracked(&want2, Ghost(t1), Ghost(Card(Suit::Club, r2))) {
            Some(card) => card,
            None => {
                return None;
            },
        };
        let hand = Hand([card1, card2]);
        let ghost t2 = t1.insert(card2);
        let ghost d2 = self@;
        let want3 = Wanted::of_rank(r3);
        let card3 = match self.deal_tracked(&want3, Ghost(t2), Ghost(Card(Suit::Club, r3))) {
            Some(card) => card,
            None => {
                return None;
            },
        };
        let ghost t3 = t2.insert(card3);
        let ghost d3 = self@;
        let want4 = Wanted::of_rank(r4);
        let card4 = match self.deal_tracked(&want4, Ghost(t3), Ghost(Card(Suit::Club, r4))) {
            Some(card) => card,
            None => {
                return None;
            },
        };
        let ghost t4 = t3.insert(card4);
        let ghost d4 = self@;
        proof {
            assert(want1.admits(card1));
            assert(want2.admits(card2));
            assert(want3.admits(card3));
            assert(want4.admits(card4));
            lemma_removed(old(self)@, card1);
            lemma_removed(d1, card2);
            lemma_removed(d2, card3);
            lemma_removed(d3, card4);
        }
        let any = Wanted::any();
        let mut taken: Ghost<Set<Card>> = Ghost(t4);
        let ghost before = self@;
        proof {
            lemma_spare_left(card1);
        }
        let mut card5 = match self.deal_tracked(&any, taken, Ghost(spare_beside(card1, r1))) {
            Some(card) => card,
            None => {
                return None;
            },
        };
        proof {
            lemma_removed(before, card5);
            taken@ = taken@.insert(card5);
        }
        while card5.1 == r5 || card5.1 == r0
            invariant
                self.well_formed(),
                any.admits(spare_beside(card1, r1)),
                card1.1 == r1,
                card2.1 == r2,
                card3.1 == r3,
                card4.1 == r4,
                r0.spec_value() == start,
                r1.spec_value() == start + 1,
                r2.spec_value() == start + 2,
                r3.spec_value() == start + 3,
                r4.spec_value() == start + 4,
                r5.spec_value() == start + 5,
                has_all(old(self)@) ==> all_but(self@, taken@),
                forall|c: Card| #[trigger]
                    taken@.contains(c) ==> c == card1 || c == card2 || c == card3 || c == card4
                        || c == card5 || c.1 == r0 || c.1 == r5,
                forall|c: Card| #[trigger] self@.contains(c) ==> d4.contains(c) && c != card5,
                d4.contains(card5),
            decreases self@.len(),
        {
            let ghost before = self@;
            proof {
                lemma_spare_left(card1);
                assert(!taken@.contains(spare_beside(card1, r1)));
            }
            card5 = match self.deal_tracked(&any, taken, Ghost(spare_beside(card1, r1))) {
                Some(card) => card,
                None => {
                    return None;
                },
            };
            proof {
                lemma_removed(before, card5);
                taken@ = taken@.insert(card5);
            }
        }
        let flop = Flop([card3, card4, card5]);
        let ghost d5 = self@;
        let want6 = Wanted::none_of(None, four_ranks(r0, r5, card1.1, card2.1));
        let ghost spare = spare_of(
            want6,
            taken@,
            Card(Suit::Club, r3),
            Card(Suit::Diamond, r3),
            Card(Suit::Heart, r3),
            Card(Suit::Spade, r3),
        );
        let turn = match self.deal_tracked(&want6, taken, Ghost(spare)) {
            Some(card) => card,
            None => {
                assert(want6.admits(Card(Suit::Club, r3)));
                assert(want6.admits(Card(Suit::Diamond, r3)));
                assert(want6.admits(Card(Suit::Heart, r3)));
                return None;
            },
        };
        proof {
            assert(want6.admits(turn));
            lemma_removed(d5, turn);
        }
        Some((flop, hand, turn))
    }
}

/// A card of the given rank that is not the given card.
spec fn spare_beside(card: Card, rank: Rank) -> Card {
    if card.0 == Suit::Club {
        Card(Suit::Diamond, rank)
    } else {
        Card(Suit::Club, rank)
    }
}

/// The spare card beside a card is another card.
proof fn lemma_spare_left(card: Card)
    ensures
        spare_beside(card, card.1) != card,
{
}

/// The two ranks as a list.
fn two_ranks(r1: Rank, r2: Rank) -> (ranks: Vec<Rank>)
    ensures
        forall|r: Rank| ranks@.contains(r) <==> r == r1 || r == r2,
{
    let mut ranks: Vec<Rank> = Vec::new();
    ranks.push(r1);
    ranks.push(r2);
    proof {
        assert(ranks@[0] == r1);
        assert(ranks@[1] == r2);
    }
    ranks
}

} // verus!
