use poker_eval::card::Rank::{
    Ace, Deuce, Eight, Five, Four, Jack, King, Nine, Queen, Seven, Six, Ten, Three,
};
use poker_eval::card::Suit::{Club, Diamond, Heart, Spade};
use poker_eval::card::{Card, CardRepr, Rank, Suit};
use poker_eval::evaluate::{evaluate5, EvalError, Evaluator};
use poker_eval::category::Category;

fn rank_of(ev: &Evaluator, cards: [Card; 5]) -> u16 {
    ev.evaluate5(
        cards[0].to_int(),
        cards[1].to_int(),
        cards[2].to_int(),
        cards[3].to_int(),
        cards[4].to_int(),
    )
}

#[test]
fn test_evals() {
    let a = Card(Club, Ace);
    let b = Card(Club, King);
    let c = Card(Club, Queen);
    let d = Card(Club, Jack);
    let e = Card(Club, Ten);
    let result = evaluate5(
        a.to_int(),
        b.to_int(),
        c.to_int(),
        d.to_int(),
        e.to_int(),
    );

    assert_eq!(1, result);

    let a = Card(Spade, Ace);
    let b = Card(Club, King);
    let c = Card(Club, Queen);
    let d = Card(Club, Jack);
    let e = Card(Club, Ten);
    let result = evaluate5(
        a.to_int(),
        b.to_int(),
        c.to_int(),
        d.to_int(),
        e.to_int(),
    );

    assert_eq!(1600, result);
}

#[test]
fn fixed_points() {
    let ev = Evaluator::new();
    let royal = [Card(Club, Ten), Card(Club, Jack), Card(Club, Queen), Card(Club, King), Card(Club, Ace)];
    assert_eq!(rank_of(&ev, royal), 1);
    let broadway = [Card(Club, Ten), Card(Club, Jack), Card(Club, Queen), Card(Club, King), Card(Spade, Ace)];
    assert_eq!(rank_of(&ev, broadway), 1600);
    let worst = [Card(Diamond, Deuce), Card(Spade, Three), Card(Heart, Four), Card(Club, Five), Card(Diamond, Seven)];
    assert_eq!(rank_of(&ev, worst), 7462);
}

#[test]
fn first_and_last_hand_of_each_category() {
    let ev = Evaluator::new();
    let hands = [
        ([Card(Heart, Ace), Card(Heart, King), Card(Heart, Queen), Card(Heart, Jack), Card(Heart, Ten)], 1),
        ([Card(Heart, Five), Card(Heart, Four), Card(Heart, Three), Card(Heart, Deuce), Card(Heart, Ace)], 10),
        ([Card(Club, Ace), Card(Diamond, Ace), Card(Heart, Ace), Card(Spade, Ace), Card(Club, King)], 11),
        ([Card(Club, Deuce), Card(Diamond, Deuce), Card(Heart, Deuce), Card(Spade, Deuce), Card(Club, Three)], 166),
        ([Card(Club, Ace), Card(Diamond, Ace), Card(Heart, Ace), Card(Spade, King), Card(Club, King)], 167),
        ([Card(Club, Deuce), Card(Diamond, Deuce), Card(Heart, Deuce), Card(Spade, Three), Card(Club, Three)], 322),
        ([Card(Spade, Ace), Card(Spade, King), Card(Spade, Queen), Card(Spade, Jack), Card(Spade, Nine)], 323),
        ([Card(Spade, Seven), Card(Spade, Five), Card(Spade, Four), Card(Spade, Three), Card(Spade, Deuce)], 1599),
        ([Card(Spade, Ace), Card(Club, King), Card(Spade, Queen), Card(Spade, Jack), Card(Spade, Ten)], 1600),
        ([Card(Spade, Five), Card(Club, Four), Card(Spade, Three), Card(Spade, Deuce), Card(Diamond, Ace)], 1609),
        ([Card(Club, Ace), Card(Diamond, Ace), Card(Heart, Ace), Card(Spade, King), Card(Club, Queen)], 1610),
        ([Card(Club, Deuce), Card(Diamond, Deuce), Card(Heart, Deuce), Card(Spade, Four), Card(Club, Three)], 2467),
        ([Card(Club, Ace), Card(Diamond, Ace), Card(Heart, King), Card(Spade, King), Card(Club, Queen)], 2468),
        ([Card(Club, Three), Card(Diamond, Three), Card(Heart, Deuce), Card(Spade, Deuce), Card(Club, Four)], 3325),
        ([Card(Club, Ace), Card(Diamond, Ace), Card(Heart, King), Card(Spade, Queen), Card(Club, Jack)], 3326),
        ([Card(Club, Deuce), Card(Diamond, Deuce), Card(Heart, Five), Card(Spade, Four), Card(Club, Three)], 6185),
        ([Card(Club, Ace), Card(Diamond, King), Card(Heart, Queen), Card(Spade, Jack), Card(Club, Nine)], 6186),
        ([Card(Club, Seven), Card(Diamond, Five), Card(Heart, Four), Card(Spade, Three), Card(Club, Deuce)], 7462),
    ];
    for (cards, expected) in hands {
        assert_eq!(rank_of(&ev, cards), expected);
    }
}

#[test]
fn places_within_categories() {
    let ev = Evaluator::new();
    // four aces with a queen come right after four aces with a king
    assert_eq!(rank_of(&ev, [Card(Club, Ace), Card(Diamond, Ace), Card(Heart, Ace), Card(Spade, Ace), Card(Club, Queen)]), 12);
    // four kings with an ace: twelve places after four aces with a king
    assert_eq!(rank_of(&ev, [Card(Club, King), Card(Diamond, King), Card(Heart, King), Card(Spade, King), Card(Club, Ace)]), 23);
    // kings full of aces follow aces full of deuces
    assert_eq!(rank_of(&ev, [Card(Club, Ace), Card(Diamond, Ace), Card(Heart, Ace), Card(Spade, Deuce), Card(Club, Deuce)]), 178);
    assert_eq!(rank_of(&ev, [Card(Club, King), Card(Diamond, King), Card(Heart, King), Card(Spade, Ace), Card(Club, Ace)]), 179);
    // the best king-high flush follows the 493 ace-high flushes
    assert_eq!(rank_of(&ev, [Card(Club, King), Card(Club, Queen), Card(Club, Jack), Card(Club, Ten), Card(Club, Eight)]), 323 + 493);
    // king-high straight, and six-high straight
    assert_eq!(rank_of(&ev, [Card(Club, King), Card(Heart, Queen), Card(Club, Jack), Card(Club, Ten), Card(Club, Nine)]), 1601);
    assert_eq!(rank_of(&ev, [Card(Club, Six), Card(Heart, Five), Card(Club, Four), Card(Club, Three), Card(Club, Deuce)]), 1608);
    // three aces with king and jack; three kings with ace and queen
    assert_eq!(rank_of(&ev, [Card(Club, Ace), Card(Diamond, Ace), Card(Heart, Ace), Card(Spade, King), Card(Club, Jack)]), 1611);
    assert_eq!(rank_of(&ev, [Card(Club, King), Card(Diamond, King), Card(Heart, King), Card(Spade, Ace), Card(Club, Queen)]), 1610 + 66);
    // aces and kings with a jack; aces and queens with a king
    assert_eq!(rank_of(&ev, [Card(Club, Ace), Card(Diamond, Ace), Card(Heart, King), Card(Spade, King), Card(Club, Jack)]), 2469);
    assert_eq!(rank_of(&ev, [Card(Club, Ace), Card(Diamond, Ace), Card(Heart, Queen), Card(Spade, Queen), Card(Club, King)]), 2468 + 11);
    // kings with ace, queen, jack follow the 220 pairs of aces
    assert_eq!(rank_of(&ev, [Card(Club, King), Card(Diamond, King), Card(Heart, Ace), Card(Spade, Queen), Card(Club, Jack)]), 3326 + 220);
    assert_eq!(rank_of(&ev, [Card(Club, Ace), Card(Diamond, Ace), Card(Heart, King), Card(Spade, Queen), Card(Club, Ten)]), 3327);
    // ace, king, queen, jack, eight
    assert_eq!(rank_of(&ev, [Card(Club, Ace), Card(Diamond, King), Card(Heart, Queen), Card(Spade, Jack), Card(Club, Eight)]), 6187);
}

#[test]
fn every_hand_has_a_rank_in_its_category() {
    let ev = Evaluator::new();
    let mut seen = vec![false; 7463];
    let mut count = [0u32; 9];
    let mut hands = 0u32;
    for c1 in 0..52usize {
        for c2 in (c1 + 1)..52 {
            for c3 in (c2 + 1)..52 {
                for c4 in (c3 + 1)..52 {
                    for c5 in (c4 + 1)..52 {
                        let r = ev.evaluate5(c1, c2, c3, c4, c5);
                        assert!(r >= 1 && r <= 7462);
                        seen[r as usize] = true;
                        count[Category::of_rank(r).strength() as usize] += 1;
                        hands += 1;
                    }
                }
            }
        }
    }
    assert_eq!(hands, 2_598_960);
    assert!(seen[1..].iter().all(|s| *s));
    assert_eq!(count, [40, 624, 3744, 5108, 10200, 54912, 123552, 1098240, 1302540]);
}

#[test]
fn the_order_of_the_cards_does_not_matter() {
    let ev = Evaluator::new();
    let cards = [
        Card(Club, Nine).to_int(),
        Card(Diamond, Nine).to_int(),
        Card(Heart, Four).to_int(),
        Card(Spade, Ace).to_int(),
        Card(Club, Four).to_int(),
    ];
    let expected = ev.evaluate5(cards[0], cards[1], cards[2], cards[3], cards[4]);
    assert_eq!(Category::of_rank(expected), Category::TwoPair);
    for a in 0..5 {
        for b in 0..5 {
            for c in 0..5 {
                for d in 0..5 {
                    for e in 0..5 {
                        let mut used = [false; 5];
                        for i in [a, b, c, d, e] {
                            used[i] = true;
                        }
                        if used.iter().all(|u| *u) {
                            assert_eq!(
                                ev.evaluate5(cards[a], cards[b], cards[c], cards[d], cards[e]),
                                expected
                            );
                        }
                    }
                }
            }
        }
    }
}

#[test]
fn suits_do_not_matter_without_a_flush() {
    let ev = Evaluator::new();
    let one = rank_of(&ev, [Card(Club, King), Card(Diamond, King), Card(Heart, Seven), Card(Spade, Four), Card(Club, Deuce)]);
    let other = rank_of(&ev, [Card(Spade, King), Card(Heart, King), Card(Diamond, Seven), Card(Diamond, Four), Card(Heart, Deuce)]);
    assert_eq!(one, other);
}

#[test]
fn repeated_evaluation_gives_the_same_rank() {
    let ev = Evaluator::new();
    let first = ev.evaluate5(3, 17, 22, 40, 51);
    for _ in 0..10 {
        assert_eq!(ev.evaluate5(3, 17, 22, 40, 51), first);
    }
    assert_eq!(evaluate5(3, 17, 22, 40, 51), first);
    assert_eq!(Evaluator::new().evaluate5(3, 17, 22, 40, 51), first);
}

#[test]
fn stronger_category_means_lower_rank() {
    let ev = Evaluator::new();
    // the weakest hand of each category beats the strongest of the next
    let weakest = [
        [Card(Heart, Five), Card(Heart, Four), Card(Heart, Three), Card(Heart, Deuce), Card(Heart, Ace)],
        [Card(Club, Deuce), Card(Diamond, Deuce), Card(Heart, Deuce), Card(Spade, Deuce), Card(Club, Three)],
        [Card(Club, Deuce), Card(Diamond, Deuce), Card(Heart, Deuce), Card(Spade, Three), Card(Club, Three)],
        [Card(Spade, Seven), Card(Spade, Five), Card(Spade, Four), Card(Spade, Three), Card(Spade, Deuce)],
        [Card(Spade, Five), Card(Club, Four), Card(Spade, Three), Card(Spade, Deuce), Card(Diamond, Ace)],
        [Card(Club, Deuce), Card(Diamond, Deuce), Card(Heart, Deuce), Card(Spade, Four), Card(Club, Three)],
        [Card(Club, Three), Card(Diamond, Three), Card(Heart, Deuce), Card(Spade, Deuce), Card(Club, Four)],
        [Card(Club, Deuce), Card(Diamond, Deuce), Card(Heart, Five), Card(Spade, Four), Card(Club, Three)],
    ];
    let strongest = [
        [Card(Club, Ace), Card(Diamond, Ace), Card(Heart, Ace), Card(Spade, Ace), Card(Club, King)],
        [Card(Club, Ace), Card(Diamond, Ace), Card(Heart, Ace), Card(Spade, King), Card(Club, King)],
        [Card(Spade, Ace), Card(Spade, King), Card(Spade, Queen), Card(Spade, Jack), Card(Spade, Nine)],
        [Card(Spade, Ace), Card(Club, King), Card(Spade, Queen), Card(Spade, Jack), Card(Spade, Ten)],
        [Card(Club, Ace), Card(Diamond, Ace), Card(Heart, Ace), Card(Spade, King), Card(Club, Queen)],
        [Card(Club, Ace), Card(Diamond, Ace), Card(Heart, King), Card(Spade, King), Card(Club, Queen)],
        [Card(Club, Ace), Card(Diamond, Ace), Card(Heart, King), Card(Spade, Queen), Card(Club, Jack)],
        [Card(Club, Ace), Card(Diamond, King), Card(Heart, Queen), Card(Spade, Jack), Card(Club, Nine)],
    ];
    for i in 0..8 {
        let w = rank_of(&ev, weakest[i]);
        let s = rank_of(&ev, strongest[i]);
        assert!(Category::of_rank(w).strength() < Category::of_rank(s).strength());
        assert!(w < s);
        assert_eq!(w + 1, s);
    }
}

#[test]
fn category_ranges() {
    let all = [
        (Category::StraightFlush, 1, 10),
        (Category::FourOfAKind, 11, 166),
        (Category::FullHouse, 167, 322),
        (Category::Flush, 323, 1599),
        (Category::Straight, 1600, 1609),
        (Category::ThreeOfAKind, 1610, 2467),
        (Category::TwoPair, 2468, 3325),
        (Category::OnePair, 3326, 6185),
        (Category::HighCard, 6186, 7462),
    ];
    for (i, (cat, first, last)) in all.iter().enumerate() {
        assert_eq!(cat.first(), *first);
        assert_eq!(cat.last(), *last);
        assert_eq!(cat.strength() as usize, i);
        assert_eq!(Category::of_rank(*first), *cat);
        assert_eq!(Category::of_rank(*last), *cat);
    }
}

#[test]
fn invalid_and_duplicate_cards_are_reported() {
    let ev = Evaluator::new();
    assert_eq!(ev.try_evaluate5(0, 1, 2, 3, 52), Err(EvalError::InvalidCard));
    assert_eq!(ev.try_evaluate5(usize::MAX, 1, 2, 3, 4), Err(EvalError::InvalidCard));
    assert_eq!(ev.try_evaluate5(60, 60, 2, 3, 4), Err(EvalError::InvalidCard));
    assert_eq!(ev.try_evaluate5(0, 1, 2, 3, 0), Err(EvalError::DuplicateCard));
    assert_eq!(ev.try_evaluate5(7, 7, 7, 7, 7), Err(EvalError::DuplicateCard));
    assert_eq!(ev.try_evaluate5(48, 49, 50, 51, 44), Ok(11));
    assert_eq!(ev.try_evaluate5(51, 0, 1, 2, 3), Ok(166 - 11));
}

#[test]
fn ties_are_broken_by_groups_then_by_height() {
    let ev = Evaluator::new();
    // a higher pair beats a lower pair with better kickers
    let kings = rank_of(&ev, [Card(Club, King), Card(Diamond, King), Card(Heart, Four), Card(Spade, Three), Card(Club, Deuce)]);
    let queens = rank_of(&ev, [Card(Club, Queen), Card(Diamond, Queen), Card(Heart, Ace), Card(Spade, King), Card(Club, Jack)]);
    assert!(kings < queens);
    // with the same pair, the first kicker that differs decides
    let with_nine = rank_of(&ev, [Card(Club, King), Card(Diamond, King), Card(Heart, Ace), Card(Spade, Nine), Card(Club, Deuce)]);
    let with_eight = rank_of(&ev, [Card(Heart, King), Card(Spade, King), Card(Club, Ace), Card(Club, Eight), Card(Club, Seven)]);
    assert!(with_nine < with_eight);
    // the higher of two pairs decides before the lower, the lower before the kicker
    let aces_up = rank_of(&ev, [Card(Club, Ace), Card(Diamond, Ace), Card(Heart, Deuce), Card(Spade, Deuce), Card(Club, Three)]);
    let kings_up = rank_of(&ev, [Card(Club, King), Card(Diamond, King), Card(Heart, Queen), Card(Spade, Queen), Card(Club, Ace)]);
    assert!(aces_up < kings_up);
    // in a full house the three decide before the pair
    let threes_full = rank_of(&ev, [Card(Club, Three), Card(Diamond, Three), Card(Heart, Three), Card(Spade, Deuce), Card(Club, Deuce)]);
    let deuces_full = rank_of(&ev, [Card(Club, Ace), Card(Diamond, Ace), Card(Heart, Deuce), Card(Spade, Deuce), Card(Diamond, Deuce)]);
    assert!(threes_full < deuces_full);
    // the ace of ace to five counts as low
    let six_high = rank_of(&ev, [Card(Club, Six), Card(Diamond, Five), Card(Heart, Four), Card(Spade, Three), Card(Club, Deuce)]);
    let wheel = rank_of(&ev, [Card(Club, Ace), Card(Diamond, Five), Card(Heart, Four), Card(Spade, Three), Card(Club, Deuce)]);
    assert!(six_high < wheel);
    // equal ranks in other suits tie
    let one = rank_of(&ev, [Card(Club, Ace), Card(Club, Nine), Card(Club, Eight), Card(Club, Four), Card(Club, Deuce)]);
    let other = rank_of(&ev, [Card(Heart, Ace), Card(Heart, Nine), Card(Heart, Eight), Card(Heart, Four), Card(Heart, Deuce)]);
    assert_eq!(one, other);
}
