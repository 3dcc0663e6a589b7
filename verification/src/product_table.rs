//! The product table, and how it is filled.
//!
//! The table is addressed by the prime product of five ranks and holds
//! the rank of the hand with those ranks that is no flush. It is filled
//! category by category, each from its strongest hand down with a
//! counter that gives each hand the next rank; the straights and the
//! high cards take their ranks from the flush table.

use vstd::prelude::*;
use std::collections::HashMap;
use crate::binomial::{lemma_choose_values, lemma_pascal};
use crate::category::{Category, HandRank};
use crate::descent::{lemma_follows_order, step_down, straight_ranks, top_of};
use crate::flush_table::{flush_entry, flushes_filled};
use crate::masks::pattern_of;
use crate::places::{below2, below3};
use crate::primes::{
    lemma_descending_products_differ,
    lemma_prime_product_symmetric,
    lemma_product_bounds,
    prime_product,
};
use crate::ranking::{lemma_descending_shape, without};
use crate::ranks::{
    Ranks5,
    distinct,
    lemma_descending_unique,
    lemma_sorted,
    lemma_symmetric_sorted,
    playable,
};

verus! {

broadcast use vstd::std_specs::hash::group_hash_axioms;

/// The product table holds the rank of the hands with ranks `t` that
/// are no flush.
pub open spec fn product_entry(m: Map<u32, HandRank>, t: Ranks5) -> bool {
    m.contains_key(t.prime_product() as u32) && m[t.prime_product() as u32] == t.rank(false)
}

/// The place of a category in the order in which the product table is
/// filled.
pub open spec fn fill_stage(c: Category) -> int {
    match c {
        Category::FourOfAKind => 0,
        Category::FullHouse => 1,
        Category::StraightFlush | Category::Straight => 2,
        Category::ThreeOfAKind => 3,
        Category::TwoPair => 4,
        Category::OnePair => 5,
        Category::Flush | Category::HighCard => 6,
    }
}

/// The product table holds the entries of all categories before `stage`.
pub open spec fn filled(m: Map<u32, HandRank>, stage: int) -> bool {
    forall|t: Ranks5|
        playable(t) && fill_stage(t.shape(false)) < stage ==> #[trigger] product_entry(m, t)
}

/// The product table holds the rank of every hand that is no flush.
pub open spec fn products_filled(m: Map<u32, HandRank>) -> bool {
    forall|t: Ranks5| playable(t) ==> #[trigger] product_entry(m, t)
}

/// Storing the entry of one tuple leaves the entry of another as it is.
proof fn lemma_put_keeps(m: Map<u32, HandRank>, cur: Ranks5, value: HandRank, t: Ranks5)
    requires
        playable(t),
        playable(cur),
        product_entry(m, t),
        t != cur,
    ensures
        product_entry(m.insert(cur.prime_product() as u32, value), t),
{
    lemma_descending_products_differ(t, cur);
    lemma_product_bounds(t);
    lemma_product_bounds(cur);
}

/// Stores `value` as the rank of the hands with the given ranks that are
/// no flush. The ranks may come in any order.
fn put(products: &mut HashMap<u32, HandRank>, r1: usize, r2: usize, r3: usize, r4: usize, r5: usize, value: HandRank)
    requires
        r1 < 13,
        r2 < 13,
        r3 < 13,
        r4 < 13,
        r5 < 13,
    ensures
        final(products)@ == old(products)@.insert(
            (Ranks5 { a: r1 as int, b: r2 as int, c: r3 as int, d: r4 as int, e: r5 as int })
                .sorted().prime_product() as u32,
            value,
        ),
{
    let key = prime_product(r1, r2, r3, r4, r5);
    proof {
        let t = Ranks5 { a: r1 as int, b: r2 as int, c: r3 as int, d: r4 as int, e: r5 as int };
        let f = |t: Ranks5| t.prime_product();
        lemma_prime_product_symmetric();
        lemma_symmetric_sorted(f, t);
        assert(f(t.sorted()) == f(t));
    }
    products.insert(key, value);
}

/// The rank at place `x` among the ranks other than `g`.
spec fn spec_restored(x: int, g: int) -> int {
    if x >= g {
        x + 1
    } else {
        x
    }
}

/// The rank at place `x` among the ranks other than `g`.
fn restored(x: usize, g: usize) -> (k: usize)
    requires
        x < 12,
        g < 13,
    ensures
        k < 13,
        k != g,
        k == spec_restored(x as int, g as int),
        without(k as int, g as int) == x,
{
    if x >= g {
        x + 1
    } else {
        x
    }
}

/// The entries of the stages before `stage`, and those of `stage` that
/// `before` lets through, are in the table.
spec fn filled_upto(m: Map<u32, HandRank>, stage: int, before: spec_fn(Ranks5) -> bool) -> bool {
    forall|t: Ranks5|
        playable(t) && (fill_stage(t.shape(false)) < stage || (fill_stage(t.shape(false)) == stage
            && before(t))) ==> #[trigger] product_entry(m, t)
}

/// After the entry of `cur` has been stored, the table holds what it
/// held, and the entry of `cur`.
proof fn lemma_put_extends(
    m: Map<u32, HandRank>,
    stage: int,
    before: spec_fn(Ranks5) -> bool,
    after: spec_fn(Ranks5) -> bool,
    cur: Ranks5,
    value: HandRank,
)
    requires
        filled_upto(m, stage, before),
        playable(cur),
        value == cur.rank(false),
        forall|t: Ranks5|
            playable(t) && fill_stage(t.shape(false)) == stage && #[trigger] after(t) ==> before(t)
                || t == cur,
    ensures
        filled_upto(m.insert(cur.prime_product() as u32, value), stage, after),
{
    let m2 = m.insert(cur.prime_product() as u32, value);
    lemma_product_bounds(cur);
    assert forall|t: Ranks5|
        playable(t) && (fill_stage(t.shape(false)) < stage || (fill_stage(t.shape(false)) == stage
            && after(t))) implies #[trigger] product_entry(m2, t) by {
        if t != cur {
            if fill_stage(t.shape(false)) == stage {
                assert(after(t));
                assert(before(t));
            }
            assert(product_entry(m, t));
            lemma_put_keeps(m, cur, value, t);
        }
    }
}

/// Whether a group of three or four equal ranks `g`, with the other rank
/// at place `x` among the remaining ranks, comes after the tuple `t`.
spec fn group_before(t: Ranks5, g: int, x: int) -> bool {
    t.c > g || (t.c == g && without(t.lone(), t.c) > x)
}

/// Fills in the four of a kind, from four aces with a king down to four
/// deuces with a three.
fn fill_four_of_a_kind(products: &mut HashMap<u32, HandRank>)
    ensures
        filled(final(products)@, 1),
{
    let mut g: usize = 12;
    let mut x: usize = 11;
    let mut next: HandRank = 11;
    let mut done = false;
    while !done
        invariant
            g < 13,
            x < 12,
            !done ==> next == 11 + (12 - g) * 12 + (11 - x),
            filled_upto(products@, 0, |t: Ranks5| done || group_before(t, g as int, x as int)),
        decreases
            (if done { 0int } else { 1int }), g, x,
    {
        let k = restored(x, g);
        let ghost before = |t: Ranks5| done || group_before(t, g as int, x as int);
        let ghost cur = (Ranks5 { a: g as int, b: g as int, c: g as int, d: g as int, e: k as int })
            .sorted();
        let ghost m = products@;
        put(products, g, g, g, g, k, next);
        let ghost (g0, x0) = (g, x);
        next = next + 1;
        if x > 0 {
            x = x - 1;
        } else if g > 0 {
            g = g - 1;
            x = 11;
        } else {
            done = true;
        }
        proof {
            lemma_descending_shape(cur, false);
            let after = |t: Ranks5| done || group_before(t, g as int, x as int);
            assert forall|t: Ranks5|
                playable(t) && fill_stage(t.shape(false)) == 0 && #[trigger] after(t) implies before(
                t,
            ) || t == cur by {
                assert(before(t) <==> group_before(t, g0 as int, x0 as int));
            }
            lemma_put_extends(m, 0, before, after, cur, (next - 1) as HandRank);
        }
    }
    assert forall|t: Ranks5|
        playable(t) && fill_stage(t.shape(false)) < 1 implies #[trigger] product_entry(
        products@,
        t,
    ) by {
        let last = |t: Ranks5| done || group_before(t, g as int, x as int);
        assert(last(t));
    }
}

/// Fills in the full houses, from aces full of kings down to deuces
/// full of threes.
fn fill_full_house(products: &mut HashMap<u32, HandRank>)
    requires
        filled(old(products)@, 1),
    ensures
        filled(final(products)@, 2),
{
    let mut g: usize = 12;
    let mut x: usize = 11;
    let mut next: HandRank = 167;
    let mut done = false;
    while !done
        invariant
            g < 13,
            x < 12,
            !done ==> next == 167 + (12 - g) * 12 + (11 - x),
            filled_upto(products@, 1, |t: Ranks5| done || group_before(t, g as int, x as int)),
        decreases
            (if done { 0int } else { 1int }), g, x,
    {
        let k = restored(x, g);
        let ghost before = |t: Ranks5| done || group_before(t, g as int, x as int);
        let ghost cur = (Ranks5 { a: g as int, b: g as int, c: g as int, d: k as int, e: k as int })
            .sorted();
        let ghost m = products@;
        put(products, g, g, g, k, k, next);
        let ghost (g0, x0) = (g, x);
        next = next + 1;
        if x > 0 {
            x = x - 1;
        } else if g > 0 {
            g = g - 1;
            x = 11;
        } else {
            done = true;
        }
        proof {
            lemma_descending_shape(cur, false);
            let after = |t: Ranks5| done || group_before(t, g as int, x as int);
            assert forall|t: Ranks5|
                playable(t) && fill_stage(t.shape(false)) == 1 && #[trigger] after(t) implies before(
                t,
            ) || t == cur by {
                assert(before(t) <==> group_before(t, g0 as int, x0 as int));
            }
            lemma_put_extends(m, 1, before, after, cur, (next - 1) as HandRank);
        }
    }
    assert forall|t: Ranks5|
        playable(t) && fill_stage(t.shape(false)) < 2 implies #[trigger] product_entry(
        products@,
        t,
    ) by {
        let last = |t: Ranks5| done || group_before(t, g as int, x as int);
        assert(last(t));
    }
}

/// Fills in the straights, from the ace-high one down to the five-high
/// one: each has the rank of the straight flush of its ranks, moved to
/// the range of the straights.
fn fill_straights(products: &mut HashMap<u32, HandRank>, flush: &Vec<HandRank>)
    requires
        filled(old(products)@, 2),
        flushes_filled(flush@),
    ensures
        filled(final(products)@, 3),
{
    let mut top: usize = 12;
    let mut done = false;
    while !done
        invariant
            3 <= top < 13,
            flushes_filled(flush@),
            filled_upto(products@, 2, |t: Ranks5| done || top_of(t) > top),
        decreases
            (if done { 0int } else { 1int }), top,
    {
        let (a, b, c, d, e) = straight_ranks(top);
        let p = pattern_of(a, b, c, d, e);
        let ghost before = |t: Ranks5| done || top_of(t) > top;
        let ghost cur = Ranks5 { a: a as int, b: b as int, c: c as int, d: d as int, e: e as int };
        let ghost m = products@;
        proof {
            lemma_descending_shape(cur, true);
            lemma_descending_shape(cur, false);
            assert(flush_entry(flush@, cur));
        }
        let value: HandRank = flush[p] + 1599;
        put(products, a, b, c, d, e, value);
        if top > 3 {
            top = top - 1;
        } else {
            done = true;
        }
        proof {
            let after = |t: Ranks5| done || top_of(t) > top;
            assert forall|t: Ranks5|
                playable(t) && fill_stage(t.shape(false)) == 2 && #[trigger] after(t) implies before(
                t,
            ) || t == cur by {
                assert(before(t) <==> top_of(t) > top_of(cur));
            }
            lemma_put_extends(m, 2, before, after, cur, value);
        }
    }
    assert forall|t: Ranks5|
        playable(t) && fill_stage(t.shape(false)) < 3 implies #[trigger] product_entry(
        products@,
        t,
    ) by {
        let last = |t: Ranks5| done || top_of(t) > top;
        assert(last(t));
    }
}

/// Whether three of a kind `g`, with the other ranks at places `x > y`
/// among the remaining ranks, comes after the tuple `t`.
spec fn trips_before(t: Ranks5, g: int, x: int, y: int) -> bool {
    let tx = without(t.trips_high(), t.c);
    let ty = without(t.trips_low(), t.c);
    t.c > g || (t.c == g && (tx > x || (tx == x && ty > y)))
}

/// Fills in the three of a kind, from three aces with king and queen
/// down to three deuces with four and three.
fn fill_three_of_a_kind(products: &mut HashMap<u32, HandRank>)
    requires
        filled(old(products)@, 3),
    ensures
        filled(final(products)@, 4),
{
    let mut g: usize = 12;
    let mut x: usize = 11;
    let mut y: usize = 10;
    let mut next: HandRank = 1610;
    let mut done = false;
    proof {
        lemma_choose_values();
    }
    while !done
        invariant
            g < 13,
            y < x < 12,
            !done ==> next == 1610 + (12 - g) * 66 + (65 - below2(x as int, y as int)),
            !done ==> 0 <= below2(x as int, y as int) <= 65,
            filled_upto(
                products@,
                3,
                |t: Ranks5| done || trips_before(t, g as int, x as int, y as int),
            ),
        decreases
            (if done { 0int } else { 1int }), g, x, y,
    {
        let k1 = restored(x, g);
        let k2 = restored(y, g);
        let ghost before = |t: Ranks5| done || trips_before(t, g as int, x as int, y as int);
        let ghost cur = (Ranks5 { a: g as int, b: g as int, c: g as int, d: k1 as int, e: k2 as int })
            .sorted();
        let ghost m = products@;
        put(products, g, g, g, k1, k2, next);
        let ghost (g0, x0, y0) = (g, x, y);
        next = next + 1;
        proof {
            lemma_choose_values();
            lemma_pascal(x as int - 1);
        }
        if y > 0 {
            y = y - 1;
        } else if x > 1 {
            x = x - 1;
            y = x - 1;
        } else if g > 0 {
            g = g - 1;
            x = 11;
            y = 10;
        } else {
            done = true;
        }
        proof {
            lemma_descending_shape(cur, false);
            let after = |t: Ranks5| done || trips_before(t, g as int, x as int, y as int);
            assert forall|t: Ranks5|
                playable(t) && fill_stage(t.shape(false)) == 3 && #[trigger] after(t) implies before(
                t,
            ) || t == cur by {
                assert(before(t) <==> trips_before(t, g0 as int, x0 as int, y0 as int));
            }
            lemma_put_extends(m, 3, before, after, cur, (next - 1) as HandRank);
        }
    }
    assert forall|t: Ranks5|
        playable(t) && fill_stage(t.shape(false)) < 4 implies #[trigger] product_entry(
        products@,
        t,
    ) by {
        let last = |t: Ranks5| done || trips_before(t, g as int, x as int, y as int);
        assert(last(t));
    }
}

/// Whether the two pairs `x > y`, with the other rank at place `z`
/// among the remaining ranks, come after the tuple `t`.
spec fn two_pair_before(t: Ranks5, x: int, y: int, z: int) -> bool {
    let tz = without(without(t.pairs_lone(), t.b), t.d);
    t.b > x || (t.b == x && (t.d > y || (t.d == y && tz > z)))
}

/// Fills in the two pairs, from aces and kings with a queen down to
/// threes and deuces with a four.
fn fill_two_pair(products: &mut HashMap<u32, HandRank>)
    requires
        filled(old(products)@, 4),
    ensures
        filled(final(products)@, 5),
{
    let mut x: usize = 12;
    let mut y: usize = 11;
    let mut z: usize = 10;
    let mut next: HandRank = 2468;
    let mut done = false;
    proof {
        lemma_choose_values();
    }
    while !done
        invariant
            y < x < 13,
            z < 11,
            !done ==> next == 2468 + (77 - below2(x as int, y as int)) * 11 + (10 - z),
            !done ==> 0 <= below2(x as int, y as int) <= 77,
            filled_upto(
                products@,
                4,
                |t: Ranks5| done || two_pair_before(t, x as int, y as int, z as int),
            ),
        decreases
            (if done { 0int } else { 1int }), x, y, z,
    {
        let k0: usize = if z >= y { z + 1 } else { z };
        let k: usize = if k0 >= x { k0 + 1 } else { k0 };
        let ghost before = |t: Ranks5| done || two_pair_before(t, x as int, y as int, z as int);
        let ghost cur = (Ranks5 { a: x as int, b: x as int, c: y as int, d: y as int, e: k as int })
            .sorted();
        let ghost m = products@;
        put(products, x, x, y, y, k, next);
        let ghost (x0, y0, z0) = (x, y, z);
        next = next + 1;
        proof {
            lemma_choose_values();
            lemma_pascal(x as int - 1);
        }
        if z > 0 {
            z = z - 1;
        } else if y > 0 {
            y = y - 1;
            z = 10;
        } else if x > 1 {
            x = x - 1;
            y = x - 1;
            z = 10;
        } else {
            done = true;
        }
        proof {
            lemma_descending_shape(cur, false);
            let after = |t: Ranks5| done || two_pair_before(t, x as int, y as int, z as int);
            assert forall|t: Ranks5|
                playable(t) && fill_stage(t.shape(false)) == 4 && #[trigger] after(t) implies before(
                t,
            ) || t == cur by {
                assert(before(t) <==> two_pair_before(t, x0 as int, y0 as int, z0 as int));
            }
            lemma_put_extends(m, 4, before, after, cur, (next - 1) as HandRank);
        }
    }
    assert forall|t: Ranks5|
        playable(t) && fill_stage(t.shape(false)) < 5 implies #[trigger] product_entry(
        products@,
        t,
    ) by {
        let last = |t: Ranks5| done || two_pair_before(t, x as int, y as int, z as int);
        assert(last(t));
    }
}

/// Whether the pair `g`, with the other ranks at places `x > y > z`
/// among the remaining ranks, comes after the tuple `t`.
spec fn pair_before(t: Ranks5, g: int, x: int, y: int, z: int) -> bool {
    let tg = t.pair_rank();
    let tx = without(t.pair_high(), tg);
    let ty = without(t.pair_middle(), tg);
    let tz = without(t.pair_low(), tg);
    tg > g || (tg == g && (tx > x || (tx == x && (ty > y || (ty == y && tz > z)))))
}

/// The descending tuple of a pair `g` with three other ranks.
spec fn pair_tuple(g: int, k1: int, k2: int, k3: int) -> Ranks5 {
    if g > k1 {
        Ranks5 { a: g, b: g, c: k1, d: k2, e: k3 }
    } else if g > k2 {
        Ranks5 { a: k1, b: g, c: g, d: k2, e: k3 }
    } else if g > k3 {
        Ranks5 { a: k1, b: k2, c: g, d: g, e: k3 }
    } else {
        Ranks5 { a: k1, b: k2, c: k3, d: g, e: g }
    }
}

/// A pair followed by three other ranks in descending order, arranged
/// in descending order.
proof fn lemma_pair_tuple(g: int, k1: int, k2: int, k3: int)
    requires
        k1 > k2 > k3,
        g != k1,
        g != k2,
        g != k3,
    ensures
        (Ranks5 { a: g, b: g, c: k1, d: k2, e: k3 }).sorted() == pair_tuple(g, k1, k2, k3),
{
    let t = Ranks5 { a: g, b: g, c: k1, d: k2, e: k3 };
    let s = pair_tuple(g, k1, k2, k3);
    lemma_sorted(t);
    assert(s.same_ranks(t.sorted())) by {
        assert forall|v: int| s.count(v) == t.sorted().count(v) by {
            assert(t.sorted().count(v) == t.count(v));
        }
    }
    lemma_descending_unique(s, t.sorted());
}

/// A descending tuple with one pair is made of its pair and of the three
/// ranks beside it, whose places among the remaining ranks descend.
proof fn lemma_pair_parts(t: Ranks5)
    requires
        playable(t),
        t.shape(false) == Category::OnePair,
    ensures
        ({
            let g = t.pair_rank();
            let x = without(t.pair_high(), g);
            let y = without(t.pair_middle(), g);
            let z = without(t.pair_low(), g);
            &&& 0 <= g < 13
            &&& 12 > x > y > z >= 0
            &&& t == pair_tuple(g, spec_restored(x, g), spec_restored(y, g), spec_restored(z, g))
        }),
{
}

/// The place of a pair with three other ranks among all such, by the
/// places `x > y > z` of the other ranks among the remaining ranks.
spec fn pair_place(g: int, x: int, y: int, z: int) -> int {
    3326 + (12 - g) * 220 + (219 - below3(x, y, z))
}

/// The pair that follows the pair `g0` with the other ranks at places
/// `x0 > y0 > z0`, in descending order; none follows the deuces with
/// five, four, three.
spec fn pair_follows(g0: int, x0: int, y0: int, z0: int, g: int, x: int, y: int, z: int) -> bool {
    if z0 > 0 {
        g == g0 && x == x0 && y == y0 && z == z0 - 1
    } else if y0 > 1 {
        g == g0 && x == x0 && y == y0 - 1 && z == y0 - 2
    } else if x0 > 2 {
        g == g0 && x == x0 - 1 && y == x0 - 2 && z == x0 - 3
    } else {
        g0 > 0 && g == g0 - 1 && x == 11 && y == 10 && z == 9
    }
}

/// The entry of a pair is its place, and the pair that follows has the
/// next place.
proof fn lemma_pair_value(g: int, x: int, y: int, z: int)
    requires
        0 <= g < 13,
        12 > x > y > z >= 0,
    ensures
        ({
            let cur = pair_tuple(g, spec_restored(x, g), spec_restored(y, g), spec_restored(z, g));
            &&& playable(cur)
            &&& cur.rank(false) == pair_place(g, x, y, z)
            &&& 3326 <= pair_place(g, x, y, z) <= 6185
        }),
        forall|g2: int, x2: int, y2: int, z2: int| #[trigger]
            pair_follows(g, x, y, z, g2, x2, y2, z2) ==> pair_place(g2, x2, y2, z2) == pair_place(
                g,
                x,
                y,
                z,
            ) + 1,
{
    let cur = pair_tuple(g, spec_restored(x, g), spec_restored(y, g), spec_restored(z, g));
    lemma_descending_shape(cur, false);
    lemma_choose_values();
    lemma_pascal(x - 1);
    lemma_pascal(y - 1);
    if x >= 2 {
        lemma_pascal(x - 2);
    }
    lemma_pascal(x);
    lemma_pascal(y);
}

/// A pair that comes before the pair that follows comes before the pair
/// itself or is that pair.
proof fn lemma_pair_step(
    t: Ranks5,
    g0: int,
    x0: int,
    y0: int,
    z0: int,
    g: int,
    x: int,
    y: int,
    z: int,
)
    requires
        playable(t),
        t.shape(false) == Category::OnePair,
        0 <= g0 < 13,
        12 > x0 > y0 > z0 >= 0,
        (g0 == 0 && x0 == 2 && y0 == 1 && z0 == 0) || (pair_follows(g0, x0, y0, z0, g, x, y, z)
            && pair_before(t, g, x, y, z)),
    ensures
        pair_before(t, g0, x0, y0, z0) || t == pair_tuple(
            g0,
            spec_restored(x0, g0),
            spec_restored(y0, g0),
            spec_restored(z0, g0),
        ),
{
    lemma_pair_parts(t);
}

/// Fills in the pairs, from aces with king, queen, jack down to deuces
/// with five, four, three.
fn fill_one_pair(products: &mut HashMap<u32, HandRank>)
    requires
        filled(old(products)@, 5),
    ensures
        filled(final(products)@, 6),
{
    let mut g: usize = 12;
    let mut x: usize = 11;
    let mut y: usize = 10;
    let mut z: usize = 9;
    let mut next: HandRank = 3326;
    let mut done = false;
    proof {
        lemma_choose_values();
    }
    while !done
        invariant
            g < 13,
            z < y < x < 12,
            !done ==> next == pair_place(g as int, x as int, y as int, z as int),
            filled_upto(
                products@,
                5,
                |t: Ranks5| done || pair_before(t, g as int, x as int, y as int, z as int),
            ),
        decreases
            (if done { 0int } else { 1int }), g, x, y, z,
    {
        let k1 = restored(x, g);
        let k2 = restored(y, g);
        let k3 = restored(z, g);
        let ghost before = |t: Ranks5|
            done || pair_before(t, g as int, x as int, y as int, z as int);
        let ghost cur = pair_tuple(g as int, k1 as int, k2 as int, k3 as int);
        let ghost m = products@;
        proof {
            lemma_pair_tuple(g as int, k1 as int, k2 as int, k3 as int);
            lemma_pair_value(g as int, x as int, y as int, z as int);
        }
        put(products, g, g, k1, k2, k3, next);
        let ghost (g0, x0, y0, z0) = (g, x, y, z);
        let ghost value = next;
        next = next + 1;
        if z > 0 {
            z = z - 1;
        } else if y > 1 {
            y = y - 1;
            z = y - 1;
        } else if x > 2 {
            x = x - 1;
            y = x - 1;
            z = y - 1;
        } else if g > 0 {
            g = g - 1;
            x = 11;
            y = 10;
            z = 9;
        } else {
            done = true;
        }
        proof {
            let after = |t: Ranks5|
                done || pair_before(t, g as int, x as int, y as int, z as int);
            assert(!done ==> pair_follows(
                g0 as int,
                x0 as int,
                y0 as int,
                z0 as int,
                g as int,
                x as int,
                y as int,
                z as int,
            ));
            assert(done ==> g0 == 0 && x0 == 2 && y0 == 1 && z0 == 0);
            assert forall|t: Ranks5|
                playable(t) && fill_stage(t.shape(false)) == 5 && #[trigger] after(t) implies before(
                t,
            ) || t == cur by {
                assert(before(t) <==> pair_before(t, g0 as int, x0 as int, y0 as int, z0 as int));
                lemma_pair_step(
                    t,
                    g0 as int,
                    x0 as int,
                    y0 as int,
                    z0 as int,
                    g as int,
                    x as int,
                    y as int,
                    z as int,
                );
            }
            lemma_put_extends(m, 5, before, after, cur, value);
        }
    }
    assert forall|t: Ranks5|
        playable(t) && fill_stage(t.shape(false)) < 6 implies #[trigger] product_entry(
        products@,
        t,
    ) by {
        let last = |t: Ranks5| done || pair_before(t, g as int, x as int, y as int, z as int);
        assert(last(t));
    }
}

/// Fills in the hands of five different ranks that form no straight:
/// each has the rank of the flush of its ranks, moved to the range of
/// the high cards.
fn fill_high_cards(products: &mut HashMap<u32, HandRank>, flush: &Vec<HandRank>)
    requires
        filled(old(products)@, 6),
        flushes_filled(flush@),
    ensures
        filled(final(products)@, 7),
{
    let mut a: usize = 12;
    let mut b: usize = 11;
    let mut c: usize = 10;
    let mut d: usize = 9;
    let mut e: usize = 8;
    let mut done = false;
    while !done
        invariant
            13 > a > b > c > d > e,
            flushes_filled(flush@),
            filled_upto(
                products@,
                6,
                |t: Ranks5|
                    done || t.above(
                        Ranks5 { a: a as int, b: b as int, c: c as int, d: d as int, e: e as int },
                    ),
            ),
        decreases
            (if done { 0int } else { 1int }), a, b, c, d, e,
    {
        let ghost cur = Ranks5 { a: a as int, b: b as int, c: c as int, d: d as int, e: e as int };
        let ghost before = |t: Ranks5| done || t.above(cur);
        let ghost m = products@;
        proof {
            lemma_descending_shape(cur, true);
            lemma_descending_shape(cur, false);
            assert(flush_entry(flush@, cur));
        }
        let straight = a == e + 4 || (a == 12 && b == 3);
        let mut value: HandRank = 0;
        if !straight {
            let p = pattern_of(a, b, c, d, e);
            value = flush[p] + 5863;
            put(products, a, b, c, d, e, value);
        }
        match step_down(a, b, c, d, e) {
            Some((a2, b2, c2, d2, e2)) => {
                a = a2;
                b = b2;
                c = c2;
                d = d2;
                e = e2;
            },
            None => {
                done = true;
            },
        }
        proof {
            let nxt = Ranks5 { a: a as int, b: b as int, c: c as int, d: d as int, e: e as int };
            let after = |t: Ranks5| done || t.above(nxt);
            assert forall|t: Ranks5|
                playable(t) && fill_stage(t.shape(false)) == 6 && #[trigger] after(t) implies before(
                t,
            ) || t == cur by {
                assert(before(t) <==> t.above(cur));
                assert(distinct(t));
                lemma_follows_order(cur, nxt, t);
            }
            if !straight {
                lemma_put_extends(m, 6, before, after, cur, value);
            } else {
                assert forall|t: Ranks5|
                    playable(t) && (fill_stage(t.shape(false)) < 6 || (fill_stage(t.shape(false))
                        == 6 && after(t))) implies #[trigger] product_entry(products@, t) by {
                    if fill_stage(t.shape(false)) == 6 {
                        assert(after(t));
                        assert(before(t));
                    }
                }
            }
        }
    }
    assert forall|t: Ranks5|
        playable(t) && fill_stage(t.shape(false)) < 7 implies #[trigger] product_entry(
        products@,
        t,
    ) by {
        let last = |t: Ranks5|
            done || t.above(
                Ranks5 { a: a as int, b: b as int, c: c as int, d: d as int, e: e as int },
            );
        assert(last(t));
    }
}

/// Builds the product table, category by category: four of a kind, full
/// houses, straights, three of a kind, two pairs, pairs, high cards.
pub fn build_product_table(flush: &Vec<HandRank>) -> (products: HashMap<u32, HandRank>)
    requires
        flushes_filled(flush@),
    ensures
        products_filled(products@),
{
    let mut products: HashMap<u32, HandRank> = HashMap::new();
    fill_four_of_a_kind(&mut products);
    fill_full_house(&mut products);
    fill_straights(&mut products, flush);
    fill_three_of_a_kind(&mut products);
    fill_two_pair(&mut products);
    fill_one_pair(&mut products);
    fill_high_cards(&mut products, flush);
    products
}

} // verus!
