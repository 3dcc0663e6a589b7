//! Binomial coefficients of small order, in closed form, and the facts
//! about them that counting subsets in order needs.

use vstd::prelude::*;

verus! {

/// The number of ways to pick two out of `n`.
pub open spec fn choose2(n: int) -> int {
    n * (n - 1) / 2
}

/// The number of ways to pick three out of `n`.
pub open spec fn choose3(n: int) -> int {
    n * (n - 1) * (n - 2) / 6
}

/// The number of ways to pick four out of `n`.
pub open spec fn choose4(n: int) -> int {
    n * (n - 1) * (n - 2) * (n - 3) / 24
}

/// The number of ways to pick five out of `n`.
pub open spec fn choose5(n: int) -> int {
    n * (n - 1) * (n - 2) * (n - 3) * (n - 4) / 120
}

/// The values of the four coefficients for `n` up to 13.
pub proof fn lemma_choose_values()
    ensures
        choose2(0) == 0,
        choose2(1) == 0,
        choose2(2) == 1,
        choose2(3) == 3,
        choose2(4) == 6,
        choose2(5) == 10,
        choose2(6) == 15,
        choose2(7) == 21,
        choose2(8) == 28,
        choose2(9) == 36,
        choose2(10) == 45,
        choose2(11) == 55,
        choose2(12) == 66,
        choose2(13) == 78,
        choose3(0) == 0,
        choose3(1) == 0,
        choose3(2) == 0,
        choose3(3) == 1,
        choose3(4) == 4,
        choose3(5) == 10,
        choose3(6) == 20,
        choose3(7) == 35,
        choose3(8) == 56,
        choose3(9) == 84,
        choose3(10) == 120,
        choose3(11) == 165,
        choose3(12) == 220,
        choose3(13) == 286,
        choose4(0) == 0,
        choose4(1) == 0,
        choose4(2) == 0,
        choose4(3) == 0,
        choose4(4) == 1,
        choose4(5) == 5,
        choose4(6) == 15,
        choose4(7) == 35,
        choose4(8) == 70,
        choose4(9) == 126,
        choose4(10) == 210,
        choose4(11) == 330,
        choose4(12) == 495,
        choose4(13) == 715,
        choose5(0) == 0,
        choose5(1) == 0,
        choose5(2) == 0,
        choose5(3) == 0,
        choose5(4) == 0,
        choose5(5) == 1,
        choose5(6) == 6,
        choose5(7) == 21,
        choose5(8) == 56,
        choose5(9) == 126,
        choose5(10) == 252,
        choose5(11) == 462,
        choose5(12) == 792,
        choose5(13) == 1287,
{
}

/// Pascal's rule for `n` below 13, and the coefficients' signs.
pub proof fn lemma_pascal(n: int)
    requires
        0 <= n < 13,
    ensures
        choose2(n + 1) == choose2(n) + n,
        choose3(n + 1) == choose3(n) + choose2(n),
        choose4(n + 1) == choose4(n) + choose3(n),
        choose5(n + 1) == choose5(n) + choose4(n),
        0 <= choose2(n) <= 66,
        0 <= choose3(n) <= 220,
        0 <= choose4(n) <= 495,
        0 <= choose5(n) <= 792,
{
    lemma_choose_values();
    if n == 0 {
        assert(choose2(n) == choose2(0) && choose2(n + 1) == choose2(1));
        assert(choose3(n) == choose3(0) && choose3(n + 1) == choose3(1));
        assert(choose4(n) == choose4(0) && choose4(n + 1) == choose4(1));
        assert(choose5(n) == choose5(0) && choose5(n + 1) == choose5(1));
    } else if n == 1 {
        assert(choose2(n) == choose2(1) && choose2(n + 1) == choose2(2));
        assert(choose3(n) == choose3(1) && choose3(n + 1) == choose3(2));
        assert(choose4(n) == choose4(1) && choose4(n + 1) == choose4(2));
        assert(choose5(n) == choose5(1) && choose5(n + 1) == choose5(2));
    } else if n == 2 {
        assert(choose2(n) == choose2(2) && choose2(n + 1) == choose2(3));
        assert(choose3(n) == choose3(2) && choose3(n + 1) == choose3(3));
        assert(choose4(n) == choose4(2) && choose4(n + 1) == choose4(3));
        assert(choose5(n) == choose5(2) && choose5(n + 1) == choose5(3));
    } else if n == 3 {
        assert(choose2(n) == choose2(3) && choose2(n + 1) == choose2(4));
        assert(choose3(n) == choose3(3) && choose3(n + 1) == choose3(4));
        assert(choose4(n) == choose4(3) && choose4(n + 1) == choose4(4));
        assert(choose5(n) == choose5(3) && choose5(n + 1) == choose5(4));
    } else if n == 4 {
        assert(choose2(n) == choose2(4) && choose2(n + 1) == choose2(5));
        assert(choose3(n) == choose3(4) && choose3(n + 1) == choose3(5));
        assert(choose4(n) == choose4(4) && choose4(n + 1) == choose4(5));
        assert(choose5(n) == choose5(4) && choose5(n + 1) == choose5(5));
    } else if n == 5 {
        assert(choose2(n) == choose2(5) && choose2(n + 1) == choose2(6));
        assert(choose3(n) == choose3(5) && choose3(n + 1) == choose3(6));
        assert(choose4(n) == choose4(5) && choose4(n + 1) == choose4(6));
        assert(choose5(n) == choose5(5) && choose5(n + 1) == choose5(6));
    } else if n == 6 {
        assert(choose2(n) == choose2(6) && choose2(n + 1) == choose2(7));
        assert(choose3(n) == choose3(6) && choose3(n + 1) == choose3(7));
        assert(choose4(n) == choose4(6) && choose4(n + 1) == choose4(7));
        assert(choose5(n) == choose5(6) && choose5(n + 1) == choose5(7));
    } else if n == 7 {
        assert(choose2(n) == choose2(7) && choose2(n + 1) == choose2(8));
        assert(choose3(n) == choose3(7) && choose3(n + 1) == choose3(8));
        assert(choose4(n) == choose4(7) && choose4(n + 1) == choose4(8));
        assert(choose5(n) == choose5(7) && choose5(n + 1) == choose5(8));
    } else if n == 8 {
        assert(choose2(n) == choose2(8) && choose2(n + 1) == choose2(9));
        assert(choose3(n) == choose3(8) && choose3(n + 1) == choose3(9));
        assert(choose4(n) == choose4(8) && choose4(n + 1) == choose4(9));
        assert(choose5(n) == choose5(8) && choose5(n + 1) == choose5(9));
    } else if n == 9 {
        assert(choose2(n) == choose2(9) && choose2(n + 1) == choose2(10));
        assert(choose3(n) == choose3(9) && choose3(n + 1) == choose3(10));
        assert(choose4(n) == choose4(9) && choose4(n + 1) == choose4(10));
        assert(choose5(n) == choose5(9) && choose5(n + 1) == choose5(10));
    } else if n == 10 {
        assert(choose2(n) == choose2(10) && choose2(n + 1) == choose2(11));
        assert(choose3(n) == choose3(10) && choose3(n + 1) == choose3(11));
        assert(choose4(n) == choose4(10) && choose4(n + 1) == choose4(11));
        assert(choose5(n) == choose5(10) && choose5(n + 1) == choose5(11));
    } else if n == 11 {
        assert(choose2(n) == choose2(11) && choose2(n + 1) == choose2(12));
        assert(choose3(n) == choose3(11) && choose3(n + 1) == choose3(12));
        assert(choose4(n) == choose4(11) && choose4(n + 1) == choose4(12));
        assert(choose5(n) == choose5(11) && choose5(n + 1) == choose5(12));
    } else if n == 12 {
        assert(choose2(n) == choose2(12) && choose2(n + 1) == choose2(13));
        assert(choose3(n) == choose3(12) && choose3(n + 1) == choose3(13));
        assert(choose4(n) == choose4(12) && choose4(n + 1) == choose4(13));
        assert(choose5(n) == choose5(12) && choose5(n + 1) == choose5(13));
    }
}

/// The coefficients do not decrease as `n` grows.
pub proof fn lemma_choose_monotone(m: int, n: int)
    requires
        0 <= m <= n <= 13,
    ensures
        choose2(m) <= choose2(n),
        choose3(m) <= choose3(n),
        choose4(m) <= choose4(n),
        choose5(m) <= choose5(n),
    decreases n - m,
{
    if m < n {
        lemma_choose_monotone(m, n - 1);
        lemma_pascal(n - 1);
    }
}

/// A coefficient grows with `n` once `n` has reached its order.
pub proof fn lemma_choose_strict(m: int, n: int)
    requires
        0 <= m <= n <= 13,
    ensures
        m < n && n >= 2 ==> choose2(m) < choose2(n),
        m < n && n >= 3 ==> choose3(m) < choose3(n),
        m < n && n >= 4 ==> choose4(m) < choose4(n),
        m < n && n >= 5 ==> choose5(m) < choose5(n),
{
    lemma_choose_values();
    if m < n {
        lemma_choose_monotone(m, n - 1);
        lemma_pascal(n - 1);
    }
}

/// From five on, the number of ways to pick five grows by at least one
/// with each step.
pub proof fn lemma_choose_gap(m: int, n: int)
    requires
        5 <= m <= n <= 13,
    ensures
        choose5(n) - choose5(m) >= n - m,
    decreases n - m,
{
    lemma_choose_values();
    if m < n {
        lemma_choose_gap(m, n - 1);
        lemma_pascal(n - 1);
        lemma_choose_monotone(4, n - 1);
    }
}

} // verus!
