//! The prime of each rank, and the product of five of them.
//!
//! Each rank has a prime of its own, so the product of the primes of
//! five ranks tells how often each rank occurs among them, whatever
//! their order: two products are equal exactly when the ranks are the
//! same, each as often.

use vstd::prelude::*;
use vstd::arithmetic::div_mod::lemma_div_decreases;
use vstd::arithmetic::div_mod::lemma_div_multiples_vanish;
use vstd::arithmetic::div_mod::lemma_fundamental_div_mod;
use vstd::arithmetic::div_mod::lemma_mod_multiples_basic;
use vstd::arithmetic::div_mod::lemma_mul_mod_noop_general;
use vstd::arithmetic::mul::lemma_mul_is_commutative;
use vstd::arithmetic::mul::lemma_mul_strictly_positive;
use crate::card::Rank;
use crate::ranks::{
    Ranks5,
    indicator,
    lemma_descending_unique,
    lemma_same_ranks_same_sorted,
    lemma_symmetric_sorted,
    symmetric,
};

verus! {

/// The primes of the thirteen ranks, deuce first.
pub const RANK_PRIMES: [u32; 13] = [2, 3, 5, 7, 11, 13, 17, 19, 23, 29, 31, 37, 41];

/// The largest product of five rank primes: that of five aces.
pub const MAX_PRODUCT: u32 = 115856201;

/// The prime of rank `r`: the primes from 2 to 41 in ascending order.
pub open spec fn rank_prime(r: int) -> int {
    if r == 0 {
        2
    } else if r == 1 {
        3
    } else if r == 2 {
        5
    } else if r == 3 {
        7
    } else if r == 4 {
        11
    } else if r == 5 {
        13
    } else if r == 6 {
        17
    } else if r == 7 {
        19
    } else if r == 8 {
        23
    } else if r == 9 {
        29
    } else if r == 10 {
        31
    } else if r == 11 {
        37
    } else {
        41
    }
}

impl Rank {
    /// The rank's prime.
    pub fn prime(&self) -> (p: u32)
        ensures
            p == rank_prime(self.spec_value()),
    {
        match *self {
            Rank::Deuce => 2,
            Rank::Three => 3,
            Rank::Four => 5,
            Rank::Five => 7,
            Rank::Six => 11,
            Rank::Seven => 13,
            Rank::Eight => 17,
            Rank::Nine => 19,
            Rank::Ten => 23,
            Rank::Jack => 29,
            Rank::Queen => 31,
            Rank::King => 37,
            Rank::Ace => 41,
        }
    }
}

/// The prime of the rank with value `r`.
pub fn prime_of(r: usize) -> (p: u32)
    requires
        r < 13,
    ensures
        p == rank_prime(r as int),
        2 <= p <= 41,
{
    RANK_PRIMES[r]
}

impl Ranks5 {
    /// The product of the primes of the five ranks.
    pub open spec fn prime_product(self) -> int {
        rank_prime(self.a) * rank_prime(self.b) * rank_prime(self.c) * rank_prime(self.d)
            * rank_prime(self.e)
    }
}

/// The product of the primes of five ranks.
pub fn prime_product(r1: usize, r2: usize, r3: usize, r4: usize, r5: usize) -> (p: u32)
    requires
        r1 < 13,
        r2 < 13,
        r3 < 13,
        r4 < 13,
        r5 < 13,
    ensures
        p == (Ranks5 { a: r1 as int, b: r2 as int, c: r3 as int, d: r4 as int, e: r5 as int })
            .prime_product(),
        32 <= p <= MAX_PRODUCT,
{
    let f1 = prime_of(r1);
    let f2 = prime_of(r2);
    let f3 = prime_of(r3);
    let f4 = prime_of(r4);
    let f5 = prime_of(r5);
    assert(4 <= f1 * f2 <= 1681) by (nonlinear_arith)
        requires
            2 <= f1 <= 41,
            2 <= f2 <= 41,
    ;
    let q2: u32 = f1 * f2;
    assert(8 <= q2 * f3 <= 68921) by (nonlinear_arith)
        requires
            4 <= q2 <= 1681,
            2 <= f3 <= 41,
    ;
    let q3: u32 = q2 * f3;
    assert(16 <= q3 * f4 <= 2825761) by (nonlinear_arith)
        requires
            8 <= q3 <= 68921,
            2 <= f4 <= 41,
    ;
    let q4: u32 = q3 * f4;
    assert(32 <= q4 * f5 <= 115856201) by (nonlinear_arith)
        requires
            16 <= q4 <= 2825761,
            2 <= f5 <= 41,
    ;
    q4 * f5
}

/// The product of the primes of five ranks lies between that of five
/// deuces and that of five aces.
pub proof fn lemma_product_bounds(t: Ranks5)
    requires
        t.in_range(),
    ensures
        32 <= t.prime_product() <= MAX_PRODUCT,
{
    let f1 = rank_prime(t.a);
    let f2 = rank_prime(t.b);
    let f3 = rank_prime(t.c);
    let f4 = rank_prime(t.d);
    let f5 = rank_prime(t.e);
    assert(4 <= f1 * f2 <= 1681) by (nonlinear_arith)
        requires
            2 <= f1 <= 41,
            2 <= f2 <= 41,
    ;
    let q2 = f1 * f2;
    assert(8 <= q2 * f3 <= 68921) by (nonlinear_arith)
        requires
            4 <= q2 <= 1681,
            2 <= f3 <= 41,
    ;
    let q3 = q2 * f3;
    assert(16 <= q3 * f4 <= 2825761) by (nonlinear_arith)
        requires
            8 <= q3 <= 68921,
            2 <= f4 <= 41,
    ;
    let q4 = q3 * f4;
    assert(32 <= q4 * f5 <= 115856201) by (nonlinear_arith)
        requires
            16 <= q4 <= 2825761,
            2 <= f5 <= 41,
    ;
}

/// How often the factor `p` can be taken out of `n`.
pub open spec fn multiplicity(n: int, p: int) -> nat
    decreases n,
    when n > 0 && p > 1
    via multiplicity_decreases
{
    if n % p != 0 {
        0
    } else {
        1 + multiplicity(n / p, p)
    }
}

#[via_fn]
proof fn multiplicity_decreases(n: int, p: int) {
    lemma_div_decreases(n, p);
    lemma_fundamental_div_mod(n, p);
    if n % p == 0 && n / p <= 0 {
        assert(p * (n / p) <= 0) by (nonlinear_arith)
            requires
                p > 1,
                n / p <= 0,
        ;
    }
}

/// A product of two numbers that a rank prime does not divide is not
/// divisible by that prime either, for numbers below the prime.
proof fn lemma_residues(v: int, r: int, s: int)
    requires
        0 <= v < 13,
        0 < r < rank_prime(v),
        0 < s < rank_prime(v),
    ensures
        (r * s) % rank_prime(v) != 0,
{
    let x: u16 = r as u16;
    let y: u16 = s as u16;
    if v == 0 {
        assert((x * y) % 2 != 0) by (bit_vector)
            requires
                0 < x < 2,
                0 < y < 2,
        ;
    } else if v == 1 {
        assert((x * y) % 3 != 0) by (bit_vector)
            requires
                0 < x < 3,
                0 < y < 3,
        ;
    } else if v == 2 {
        assert((x * y) % 5 != 0) by (bit_vector)
            requires
                0 < x < 5,
                0 < y < 5,
        ;
    } else if v == 3 {
        assert((x * y) % 7 != 0) by (bit_vector)
            requires
                0 < x < 7,
                0 < y < 7,
        ;
    } else if v == 4 {
        assert((x * y) % 11 != 0) by (bit_vector)
            requires
                0 < x < 11,
                0 < y < 11,
        ;
    } else if v == 5 {
        assert((x * y) % 13 != 0) by (bit_vector)
            requires
                0 < x < 13,
                0 < y < 13,
        ;
    } else if v == 6 {
        assert((x * y) % 17 != 0) by (bit_vector)
            requires
                0 < x < 17,
                0 < y < 17,
        ;
    } else if v == 7 {
        assert((x * y) % 19 != 0) by (bit_vector)
            requires
                0 < x < 19,
                0 < y < 19,
        ;
    } else if v == 8 {
        assert((x * y) % 23 != 0) by (bit_vector)
            requires
                0 < x < 23,
                0 < y < 23,
        ;
    } else if v == 9 {
        assert((x * y) % 29 != 0) by (bit_vector)
            requires
                0 < x < 29,
                0 < y < 29,
        ;
    } else if v == 10 {
        assert((x * y) % 31 != 0) by (bit_vector)
            requires
                0 < x < 31,
                0 < y < 31,
        ;
    } else if v == 11 {
        assert((x * y) % 37 != 0) by (bit_vector)
            requires
                0 < x < 37,
                0 < y < 37,
        ;
    } else {
        assert((x * y) % 41 != 0) by (bit_vector)
            requires
                0 < x < 41,
                0 < y < 41,
        ;
    }
}

/// A rank prime that divides a product divides one of its factors.
pub proof fn lemma_prime_divides_product(v: int, x: int, y: int)
    requires
        0 <= v < 13,
        (x * y) % rank_prime(v) == 0,
    ensures
        x % rank_prime(v) == 0 || y % rank_prime(v) == 0,
{
    let p = rank_prime(v);
    lemma_mul_mod_noop_general(x, y, p);
    if x % p != 0 && y % p != 0 {
        lemma_residues(v, x % p, y % p);
    }
}

/// Multiplying by the prime of a rank adds one to the multiplicity of
/// that prime and leaves the multiplicities of the other rank primes as
/// they are.
pub proof fn lemma_multiplicity_step(m: int, u: int, v: int)
    requires
        m > 0,
        0 <= u < 13,
        0 <= v < 13,
    ensures
        m * rank_prime(u) > 0,
        multiplicity(m * rank_prime(u), rank_prime(v)) == multiplicity(m, rank_prime(v))
            + indicator(u == v),
    decreases m,
{
    let p = rank_prime(v);
    let q = rank_prime(u);
    lemma_mul_strictly_positive(m, q);
    if u == v {
        lemma_mod_multiples_basic(m, p);
        lemma_mul_is_commutative(m, p);
        lemma_div_multiples_vanish(m, p);
    } else if m % p == 0 {
        let k = m / p;
        lemma_fundamental_div_mod(m, p);
        assert(m == p * k);
        assert(0 < k < m) by (nonlinear_arith)
            requires
                m == p * k,
                m > 0,
                p > 1,
        ;
        lemma_multiplicity_step(k, u, v);
        assert(m * q == (k * q) * p) by (nonlinear_arith)
            requires
                m == p * k,
        ;
        lemma_mod_multiples_basic(k * q, p);
        lemma_mul_is_commutative(k * q, p);
        lemma_div_multiples_vanish(k * q, p);
    } else {
        assert(q % p != 0);
        if (m * q) % p == 0 {
            lemma_prime_divides_product(v, m, q);
        }
    }
}

/// The multiplicity of a rank prime in the product of five rank primes
/// is the number of times its rank occurs among the five.
pub proof fn lemma_product_multiplicity(t: Ranks5, v: int)
    requires
        t.in_range(),
        0 <= v < 13,
    ensures
        t.prime_product() > 0,
        multiplicity(t.prime_product(), rank_prime(v)) == t.count(v),
{
    let p = rank_prime(v);
    assert(multiplicity(1, p) == 0);
    lemma_multiplicity_step(1, t.a, v);
    let m1 = rank_prime(t.a);
    assert(1 * m1 == m1);
    lemma_multiplicity_step(m1, t.b, v);
    let m2 = m1 * rank_prime(t.b);
    lemma_multiplicity_step(m2, t.c, v);
    let m3 = m2 * rank_prime(t.c);
    lemma_multiplicity_step(m3, t.d, v);
    let m4 = m3 * rank_prime(t.d);
    lemma_multiplicity_step(m4, t.e, v);
}

/// The prime product does not depend on the order of the ranks.
pub proof fn lemma_prime_product_symmetric()
    ensures
        symmetric(|t: Ranks5| t.prime_product()),
{
    assert forall|t: Ranks5|
        #![trigger t.prime_product()]
        t.swap_ab().prime_product() == t.prime_product() && t.swap_bc().prime_product()
            == t.prime_product() && t.swap_cd().prime_product() == t.prime_product()
            && t.swap_de().prime_product() == t.prime_product() by {
        let a = rank_prime(t.a);
        let b = rank_prime(t.b);
        let c = rank_prime(t.c);
        let d = rank_prime(t.d);
        let e = rank_prime(t.e);
        assert(b * a * c * d * e == a * b * c * d * e) by (nonlinear_arith);
        assert(a * c * b * d * e == a * b * c * d * e) by (nonlinear_arith);
        assert(a * b * d * c * e == a * b * c * d * e) by (nonlinear_arith);
        assert(a * b * c * e * d == a * b * c * d * e) by (nonlinear_arith);
    }
}

/// Two tuples of ranks have the same prime product exactly when they
/// hold the same ranks, each as often.
pub proof fn lemma_prime_product_distinct(s: Ranks5, t: Ranks5)
    requires
        s.in_range(),
        t.in_range(),
    ensures
        s.prime_product() == t.prime_product() <==> s.same_ranks(t),
{
    if s.prime_product() == t.prime_product() {
        assert forall|v: int| s.count(v) == t.count(v) by {
            if 0 <= v < 13 {
                lemma_product_multiplicity(s, v);
                lemma_product_multiplicity(t, v);
            }
        }
    }
    if s.same_ranks(t) {
        let f = |t: Ranks5| t.prime_product();
        lemma_prime_product_symmetric();
        lemma_symmetric_sorted(f, s);
        lemma_symmetric_sorted(f, t);
        lemma_same_ranks_same_sorted(s, t);
        assert(f(s) == f(s.sorted()));
        assert(f(t) == f(t.sorted()));
    }
}

/// Two different descending tuples of ranks have different prime products.
pub proof fn lemma_descending_products_differ(s: Ranks5, t: Ranks5)
    requires
        s.in_range(),
        t.in_range(),
        s.descending(),
        t.descending(),
        s != t,
    ensures
        s.prime_product() != t.prime_product(),
{
    lemma_prime_product_distinct(s, t);
    if s.same_ranks(t) {
        lemma_descending_unique(s, t);
    }
}

} // verus!
