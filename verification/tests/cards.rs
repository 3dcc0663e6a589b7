use poker_eval::card::Rank::{
    Ace, Deuce, Eight, Five, Four, Jack, King, Nine, Queen, Seven, Six, Ten, Three,
};
use poker_eval::card::Suit::{Club, Diamond, Heart, Spade};
use poker_eval::card::{Card, CardRepr, Flop, Hand, Rank, Suit};
use poker_eval::primes::{prime_of, prime_product};

#[test]
fn test_card_value() {
    assert_eq!(0b0000000000001, Card(Spade, Ace).to_52());
    assert_eq!(0b0000000000010, Card(Spade, King).to_52());
    assert_eq!(0b0000000000100, Card(Spade, Queen).to_52());
    assert_eq!(0b0000000001000, Card(Spade, Jack).to_52());
    assert_eq!(0b0000000010000, Card(Spade, Ten).to_52());
    assert_eq!(0b0000000100000, Card(Spade, Nine).to_52());
    assert_eq!(0b0000001000000, Card(Spade, Eight).to_52());
    assert_eq!(0b0000010000000, Card(Spade, Seven).to_52());
    assert_eq!(0b0000100000000, Card(Spade, Six).to_52());
    assert_eq!(0b0001000000000, Card(Spade, Five).to_52());
    assert_eq!(0b0010000000000, Card(Spade, Four).to_52());
    assert_eq!(0b0100000000000, Card(Spade, Three).to_52());
    assert_eq!(0b1000000000000, Card(Spade, Deuce).to_52());

    assert_eq!(0b00000000000010000000000000, Card(Heart, Ace).to_52());
    assert_eq!(0b00000000000100000000000000, Card(Heart, King).to_52());
    assert_eq!(0b00000000001000000000000000, Card(Heart, Queen).to_52());
    assert_eq!(0b00000000010000000000000000, Card(Heart, Jack).to_52());
    assert_eq!(0b00000000100000000000000000, Card(Heart, Ten).to_52());
    assert_eq!(0b00000001000000000000000000, Card(Heart, Nine).to_52());
    assert_eq!(0b00000010000000000000000000, Card(Heart, Eight).to_52());
    assert_eq!(0b00000100000000000000000000, Card(Heart, Seven).to_52());
    assert_eq!(0b00001000000000000000000000, Card(Heart, Six).to_52());
    assert_eq!(0b00010000000000000000000000, Card(Heart, Five).to_52());
    assert_eq!(0b00100000000000000000000000, Card(Heart, Four).to_52());
    assert_eq!(0b01000000000000000000000000, Card(Heart, Three).to_52());
    assert_eq!(0b10000000000000000000000000, Card(Heart, Deuce).to_52());

    assert_eq!(0b000000000000100000000000000000000000000, Card(Diamond, Ace).to_52());
    assert_eq!(0b000000000001000000000000000000000000000, Card(Diamond, King).to_52());
    assert_eq!(0b000000000010000000000000000000000000000, Card(Diamond, Queen).to_52());
    assert_eq!(0b000000000100000000000000000000000000000, Card(Diamond, Jack).to_52());
    assert_eq!(0b000000001000000000000000000000000000000, Card(Diamond, Ten).to_52());
    assert_eq!(0b000000010000000000000000000000000000000, Card(Diamond, Nine).to_52());
    assert_eq!(0b000000100000000000000000000000000000000, Card(Diamond, Eight).to_52());
    assert_eq!(0b000001000000000000000000000000000000000, Card(Diamond, Seven).to_52());
    assert_eq!(0b000010000000000000000000000000000000000, Card(Diamond, Six).to_52());
    assert_eq!(0b000100000000000000000000000000000000000, Card(Diamond, Five).to_52());
    assert_eq!(0b001000000000000000000000000000000000000, Card(Diamond, Four).to_52());
    assert_eq!(0b010000000000000000000000000000000000000, Card(Diamond, Three).to_52());
    assert_eq!(0b100000000000000000000000000000000000000, Card(Diamond, Deuce).to_52());

    assert_eq!(0b0000000000001000000000000000000000000000000000000000, Card(Club, Ace).to_52());
    assert_eq!(0b0000000000010000000000000000000000000000000000000000, Card(Club, King).to_52());
    assert_eq!(0b0000000000100000000000000000000000000000000000000000, Card(Club, Queen).to_52());
    assert_eq!(0b0000000001000000000000000000000000000000000000000000, Card(Club, Jack).to_52());
    assert_eq!(0b0000000010000000000000000000000000000000000000000000, Card(Club, Ten).to_52());
    assert_eq!(0b0000000100000000000000000000000000000000000000000000, Card(Club, Nine).to_52());
    assert_eq!(0b0000001000000000000000000000000000000000000000000000, Card(Club, Eight).to_52());
    assert_eq!(0b0000010000000000000000000000000000000000000000000000, Card(Club, Seven).to_52());
    assert_eq!(0b0000100000000000000000000000000000000000000000000000, Card(Club, Six).to_52());
    assert_eq!(0b0001000000000000000000000000000000000000000000000000, Card(Club, Five).to_52());
    assert_eq!(0b0010000000000000000000000000000000000000000000000000, Card(Club, Four).to_52());
    assert_eq!(0b0100000000000000000000000000000000000000000000000000, Card(Club, Three).to_52());
    assert_eq!(0b1000000000000000000000000000000000000000000000000000, Card(Club, Deuce).to_52());
}

#[test]
fn index_is_four_times_rank_plus_suit() {
    assert_eq!(Card(Club, Deuce).to_int(), 0);
    assert_eq!(Card(Spade, Deuce).to_int(), 3);
    assert_eq!(Card(Club, Three).to_int(), 4);
    assert_eq!(Card(Heart, Ten).to_int(), 34);
    assert_eq!(Card(Spade, Ace).to_int(), 51);
}

#[test]
fn index_and_card_are_inverse() {
    let mut seen = [false; 52];
    for s in 0..4u64 {
        for r in 0..13u64 {
            let card = Card(Suit::get(s), Rank::get(r));
            let i = card.to_int();
            assert!(i < 52);
            assert!(!seen[i]);
            seen[i] = true;
            assert_eq!(Card::from_int(i), card);
        }
    }
    assert!(seen.iter().all(|s| *s));
}

#[test]
fn masks_are_one_hot_and_different() {
    let mut all = 0u64;
    for i in 0..52usize {
        let m = Card::from_int(i).to_52();
        assert_eq!(m.count_ones(), 1);
        assert_eq!(all & m, 0);
        all |= m;
    }
    assert_eq!(all, (1u64 << 52) - 1);
}

#[test]
fn suit_and_rank_values_round_trip() {
    for i in 0..4u64 {
        assert_eq!(Suit::get(i).value(), i);
        assert_eq!(Suit::get(i + 4).value(), i);
    }
    for i in 0..13u64 {
        assert_eq!(Rank::get(i).value(), i);
        assert_eq!(Rank::get(i + 13).value(), i);
    }
    assert_eq!(Suit::get(2), Heart);
    assert_eq!(Rank::get(8), Ten);
}

#[test]
fn labels_name_rank_then_suit() {
    assert_eq!(Card(Spade, Ace).label(), "As");
    assert_eq!(Card(Diamond, Ten).label(), "Td");
    assert_eq!(Card(Heart, Deuce).label(), "2h");
    assert_eq!(Card(Club, King).label(), "Kc");
    assert_eq!(Rank::Nine.label(), "9");
    assert_eq!(Suit::Heart.label(), "h");
    let all: Vec<&str> = (0..13u64).map(|i| Rank::get(i).label()).collect();
    assert_eq!(all.concat(), "23456789TJQKA");
    assert_eq!(Hand([Card(Spade, Ace), Card(Diamond, King)]).label(), "AsKd");
}

#[test]
fn flop_label_follows_the_roll() {
    let flop = Flop([Card(Spade, Ace), Card(Diamond, King), Card(Heart, Queen)]);
    assert_eq!(flop.label_with(0), "AsKdQh");
    assert_eq!(flop.label_with(1), "AsQhKd");
    assert_eq!(flop.label_with(2), "KdAsQh");
    assert_eq!(flop.label_with(3), "KdQhAs");
    assert_eq!(flop.label_with(4), "QhKdAs");
    assert_eq!(flop.label_with(5), "QhAsKd");
    assert_eq!(flop.label_with(6), "AsKdQh");
    assert_eq!(flop.arranged(3), [Card(Diamond, King), Card(Heart, Queen), Card(Spade, Ace)]);
}

#[test]
fn flop_label_is_one_of_the_six() {
    let flop = Flop([Card(Spade, Ace), Card(Diamond, King), Card(Heart, Queen)]);
    let six: Vec<String> = (0..6u64).map(|r| flop.label_with(r)).collect();
    for _ in 0..50 {
        assert!(six.contains(&flop.label()));
    }
}

#[test]
fn rank_primes_ascend_from_two_to_forty_one() {
    let primes: Vec<u32> = (0..13usize).map(prime_of).collect();
    assert_eq!(primes, vec![2, 3, 5, 7, 11, 13, 17, 19, 23, 29, 31, 37, 41]);
    assert_eq!(Six.prime(), 11);
    assert_eq!(Seven.prime(), 13);
    assert_eq!(Eight.prime(), 17);
    assert_eq!(Jack.prime(), 29);
    assert_eq!(Four.prime(), 5);
    assert_eq!(Five.prime(), 7);
}

#[test]
fn prime_products_tell_rank_multisets_apart() {
    // aces full of kings against kings full of aces
    let aaakk = prime_product(12, 12, 12, 11, 11);
    let kkkaa = prime_product(11, 11, 11, 12, 12);
    assert_eq!(aaakk, 41 * 41 * 41 * 37 * 37);
    assert_eq!(kkkaa, 37 * 37 * 37 * 41 * 41);
    assert_ne!(aaakk, kkkaa);
    // the order of the ranks does not matter
    assert_eq!(prime_product(0, 5, 9, 5, 12), prime_product(12, 9, 5, 5, 0));
    assert_eq!(prime_product(0, 0, 0, 0, 1), 48);
    assert_eq!(prime_product(12, 12, 12, 12, 11), 104553157);
}

#[test]
fn prime_products_of_all_multisets_differ() {
    let mut seen = std::collections::HashSet::new();
    let mut n = 0;
    for a in 0..13usize {
        for b in 0..=a {
            for c in 0..=b {
                for d in 0..=c {
                    for e in 0..=d {
                        assert!(seen.insert(prime_product(a, b, c, d, e)));
                        n += 1;
                    }
                }
            }
        }
    }
    assert_eq!(n, 6188);
}
