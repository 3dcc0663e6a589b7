use poker_eval::card::Rank::{Ace, Deuce, King, Queen, Ten};
use poker_eval::card::Suit::{Club, Diamond, Heart, Spade};
use poker_eval::card::{Card, CardRepr, Rank, Suit};
use poker_eval::deck::{Deck, Wanted};

#[test]
fn a_new_deck_holds_every_card_once() {
    let deck = Deck::new();
    assert_eq!(deck.len(), 52);
    for i in 0..52usize {
        assert!(deck.contains(&Card::from_int(i)));
    }
    // in the order of the indices
    let any = Wanted::any();
    for i in 0..52u64 {
        assert_eq!(deck.pick_wanted(&any, i).map(|c| c.to_int()), Some(i as usize));
    }
    assert_eq!(deck.pick_wanted(&any, 52), Some(Card(Club, Deuce)));
}

#[test]
fn removing_a_card_takes_it_out_once() {
    let mut deck = Deck::new();
    let card = Card(Heart, Queen);
    assert!(deck.remove_card(&card));
    assert_eq!(deck.len(), 51);
    assert!(!deck.contains(&card));
    assert!(!deck.remove_card(&card));
    assert_eq!(deck.len(), 51);
    assert!(deck.contains(&Card(Spade, Queen)));
}

#[test]
fn picking_by_roll_counts_the_wanted_cards() {
    let deck = Deck::new();
    let aces = Wanted::of_rank(Ace);
    assert_eq!(deck.pick_wanted(&aces, 0), Some(Card(Club, Ace)));
    assert_eq!(deck.pick_wanted(&aces, 1), Some(Card(Diamond, Ace)));
    assert_eq!(deck.pick_wanted(&aces, 2), Some(Card(Heart, Ace)));
    assert_eq!(deck.pick_wanted(&aces, 3), Some(Card(Spade, Ace)));
    assert_eq!(deck.pick_wanted(&aces, 4), Some(Card(Club, Ace)));
    let hearts = Wanted::of_suit(Heart);
    assert_eq!(deck.pick_wanted(&hearts, 0), Some(Card(Heart, Deuce)));
    assert_eq!(deck.pick_wanted(&hearts, 12), Some(Card(Heart, Ace)));
    assert_eq!(deck.pick_wanted(&hearts, 13 + 8), Some(Card(Heart, Ten)));
    let no_spade_royals = Wanted::none_of(Some(Spade), vec![Ace, King, Queen]);
    assert_eq!(deck.pick_wanted(&no_spade_royals, 29), Some(Card(Heart, Rank::Jack)));
    assert!(no_spade_royals.check(&Card(Heart, Ten)));
    assert!(!no_spade_royals.check(&Card(Spade, Ten)));
    assert!(!no_spade_royals.check(&Card(Heart, King)));
}

#[test]
fn dealing_runs_the_deck_out() {
    let mut deck = Deck::new();
    let mut seen = [false; 52];
    for n in 0..52 {
        assert!(deck._deal_one_random().is_some());
        assert_eq!(deck.len(), 52 - n);
        let card = deck.deal_one_rand().unwrap();
        assert!(!seen[card.to_int()]);
        seen[card.to_int()] = true;
        assert!(!deck.contains(&card));
    }
    assert_eq!(deck.len(), 0);
    assert_eq!(deck.deal_one_rand(), None);
    assert_eq!(deck._deal_one_random(), None);
}

#[test]
fn dealing_a_suit_or_a_rank() {
    let mut deck = Deck::new();
    for n in 0..13 {
        let card = deck.deal_suit(Diamond).unwrap();
        assert_eq!(card.0, Diamond);
        assert_eq!(deck.len(), 51 - n);
    }
    assert_eq!(deck.deal_suit(Diamond), None);
    assert_eq!(deck.len(), 39);
    for _ in 0..3 {
        let card = deck.deal_rank(Ten).unwrap();
        assert_eq!(card.1, Ten);
        assert_ne!(card.0, Diamond);
    }
    assert_eq!(deck.deal_rank(Ten), None);
    assert_eq!(deck.len(), 36);
    assert_eq!(deck.deal_wanted(&Wanted::none_of(Some(Club), vec![])).map(|c| c.0 == Club), Some(false));
}

#[test]
fn flush_draws() {
    for _ in 0..200 {
        let mut deck = Deck::new();
        let (flop, hand, turn) = deck.flush_draw().unwrap();
        let suit = hand.0[0].0;
        assert_eq!(hand.0[1].0, suit);
        assert_eq!(flop.0[0].0, suit);
        assert_eq!(flop.0[1].0, suit);
        assert_ne!(flop.0[2].0, suit);
        assert_ne!(turn.0, suit);
        assert_ne!(turn.1, hand.0[0].1);
        assert_ne!(turn.1, hand.0[1].1);
        assert_eq!(deck.len(), 46);
        for card in [hand.0[0], hand.0[1], flop.0[0], flop.0[1], flop.0[2], turn] {
            assert!(!deck.contains(&card));
        }
    }
}

#[test]
fn gutshot_draws() {
    for _ in 0..200 {
        let mut deck = Deck::new();
        let (flop, hand, turn) = deck.hole_card().unwrap();
        let low = hand.0[0].1.value();
        assert!(low < 8);
        assert_eq!(hand.0[1].1.value(), low + 1);
        assert_eq!(flop.0[0].1.value(), low + 3);
        assert_eq!(flop.0[1].1.value(), low + 4);
        assert_ne!(flop.0[2].1.value(), low + 2);
        assert_ne!(turn.1.value(), low + 2);
        assert_ne!(turn.1, hand.0[0].1);
        assert_ne!(turn.1, hand.0[1].1);
        assert_eq!(deck.len(), 46);
        for card in [hand.0[0], hand.0[1], flop.0[0], flop.0[1], flop.0[2], turn] {
            assert!(!deck.contains(&card));
        }
    }
}

#[test]
fn open_ended_draws() {
    for _ in 0..200 {
        let mut deck = Deck::new();
        let (flop, hand, turn) = deck.de_straight().unwrap();
        let low = hand.0[0].1.value();
        assert!(1 <= low && low < 8);
        assert_eq!(hand.0[1].1.value(), low + 1);
        assert_eq!(flop.0[0].1.value(), low + 2);
        assert_eq!(flop.0[1].1.value(), low + 3);
        for card in [flop.0[2], turn] {
            assert_ne!(card.1.value(), low - 1);
            assert_ne!(card.1.value(), low + 4);
        }
        assert_ne!(turn.1, hand.0[0].1);
        assert_ne!(turn.1, hand.0[1].1);
        assert!(deck.len() <= 46);
        for card in [hand.0[0], hand.0[1], flop.0[0], flop.0[1], flop.0[2], turn] {
            assert!(!deck.contains(&card));
        }
        // the cards laid aside would have completed the straight
        for i in 0..52usize {
            let card = Card::from_int(i);
            let dealt = [hand.0[0], hand.0[1], flop.0[0], flop.0[1], flop.0[2], turn].contains(&card);
            if !dealt && !deck.contains(&card) {
                assert!(card.1.value() == low - 1 || card.1.value() == low + 4);
            }
        }
    }
}

#[test]
fn draws_from_a_short_deck_may_fail() {
    let mut deck = Deck::new();
    for i in 0..52usize {
        let card = Card::from_int(i);
        if card.0 != Suit::Club {
            deck.remove_card(&card);
        }
    }
    assert_eq!(deck.len(), 13);
    // thirteen clubs: no card of another suit for the flop
    assert_eq!(deck.flush_draw(), None);
}
