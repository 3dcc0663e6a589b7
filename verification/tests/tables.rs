use poker_eval::flush_table::build_flush_table;
use poker_eval::masks::{count_lane_bits, lane_of, mask_of, pattern_of};
use poker_eval::primes::prime_product;
use poker_eval::product_table::build_product_table;

#[test]
fn flush_table_holds_every_set_of_five_ranks() {
    let flush = build_flush_table();
    assert_eq!(flush.len(), 8192);
    // ace to ten, ace to five, and seven, five, four, three, deuce
    assert_eq!(flush[0b0_0000_0001_1111], 1);
    assert_eq!(flush[0b1_1110_0000_0001], 10);
    assert_eq!(flush[0b1_1110_1000_0000], 1599);
    assert_eq!(flush[0b1_1111_0000_0000], 9);
    assert_eq!(flush[0b0_0000_0010_1111], 323);
    let mut seen = vec![false; 1600];
    for (pattern, rank) in flush.iter().enumerate() {
        if (pattern as u32).count_ones() == 5 {
            assert!(*rank >= 1 && *rank <= 1599);
            assert!(*rank <= 10 || *rank >= 323);
            assert!(!seen[*rank as usize]);
            seen[*rank as usize] = true;
        } else {
            assert_eq!(*rank, 0);
        }
    }
    assert_eq!(seen.iter().filter(|s| **s).count(), 1287);
}

#[test]
fn product_table_holds_every_hand_that_is_no_flush() {
    let flush = build_flush_table();
    let products = build_product_table(&flush);
    assert_eq!(products.len(), 6175);
    assert_eq!(products[&(41 * 41 * 41 * 41 * 37)], 11);
    assert_eq!(products[&(2 * 2 * 2 * 2 * 3)], 166);
    assert_eq!(products[&(41 * 37 * 31 * 29 * 23)], 1600);
    assert_eq!(products[&(41 * 2 * 3 * 5 * 7)], 1609);
    assert_eq!(products[&(2 * 3 * 5 * 7 * 13)], 7462);
    assert_eq!(products.get(&(2 * 2 * 2 * 2 * 2)), None);
    let mut ranks: Vec<u16> = products.values().copied().collect();
    ranks.sort();
    let mut expected: Vec<u16> = (11..=322).collect();
    expected.extend(1600..=7462);
    assert_eq!(ranks, expected);
    assert_eq!(products[&prime_product(12, 11, 10, 9, 7)], flush[pattern_of(12, 11, 10, 9, 7)] + 5863);
}

#[test]
fn patterns_and_lanes() {
    assert_eq!(pattern_of(12, 11, 10, 9, 8), 0b11111);
    assert_eq!(pattern_of(0, 1, 2, 3, 12), 0b1_1110_0000_0001);
    assert_eq!(pattern_of(3, 12, 0, 2, 1), 0b1_1110_0000_0001);
    // the deuce of clubs has the highest bit, the ace of spades the lowest
    assert_eq!(mask_of(0), 1 << 51);
    assert_eq!(mask_of(51), 1);
    assert_eq!(mask_of(3), 1 << 12);
    assert_eq!(mask_of(48), 1 << 39);
    let hearts = mask_of(50) | mask_of(46) | mask_of(2);
    assert_eq!(lane_of(hearts, 1), 0b1_0000_0000_0011);
    assert_eq!(lane_of(hearts, 0), 0);
    assert_eq!(lane_of(hearts | mask_of(51), 0), 1);
    assert_eq!(count_lane_bits(0b1_0000_0000_0011), 3);
    assert_eq!(count_lane_bits(0), 0);
    assert_eq!(count_lane_bits(0x1FFF), 13);
}
