//! The place of a set of ranks among all sets of its size.
//!
//! Sets of ranks are compared by their highest rank first. The number of
//! sets that come before a set in this order is a sum of binomial
//! coefficients, one for each rank of the set.

use vstd::prelude::*;
use crate::binomial::{
    choose2,
    choose3,
    choose4,
    choose5,
    lemma_choose_monotone,
    lemma_choose_strict,
    lemma_choose_values,
    lemma_pascal,
};
use crate::ranks::{Ranks5, distinct};

verus! {

/// The number of pairs `x' > y'` of naturals that come before `x > y`
/// when pairs are compared by their larger element first.
pub open spec fn below2(x: int, y: int) -> int {
    choose2(x) + y
}

/// The number of triples of naturals that come before `x > y > z` when
/// triples are compared largest element first.
pub open spec fn below3(x: int, y: int, z: int) -> int {
    choose3(x) + below2(y, z)
}

/// The number of descending five-tuples of naturals that come before `t`
/// when tuples are compared largest element first.
pub open spec fn below5(t: Ranks5) -> int {
    choose5(t.a) + choose4(t.b) + below3(t.c, t.d, t.e)
}

/// A pair of different naturals below `n` has fewer than `choose2(n)`
/// pairs before it.
pub proof fn lemma_below2_bounds(x: int, y: int, n: int)
    requires
        0 <= y < x < n <= 13,
    ensures
        choose2(x) <= below2(x, y) < choose2(x + 1) <= choose2(n),
{
    lemma_pascal(x);
    lemma_choose_monotone(x + 1, n);
}

/// A triple of different naturals below `n` has fewer than `choose3(n)`
/// triples before it.
pub proof fn lemma_below3_bounds(x: int, y: int, z: int, n: int)
    requires
        0 <= z < y < x < n <= 13,
    ensures
        choose3(x) <= below3(x, y, z) < choose3(x + 1) <= choose3(n),
{
    lemma_below2_bounds(y, z, x);
    lemma_pascal(x);
    lemma_choose_monotone(x + 1, n);
}

/// A tuple of five different ranks has at least as many tuples before it
/// as its highest rank allows, and fewer than the next rank would allow.
pub proof fn lemma_below5_bounds(t: Ranks5)
    requires
        t.in_range(),
        t.strictly_descending(),
    ensures
        choose5(t.a) <= below5(t) < choose5(t.a + 1) <= 1287,
        t.consecutive() <==> below5(t) == choose5(t.a + 1) - 1,
        t.is_wheel() <==> below5(t) == 792,
{
    lemma_choose_values();
    lemma_below3_bounds(t.c, t.d, t.e, t.b);
    lemma_pascal(t.a);
    lemma_pascal(t.b);
    lemma_pascal(t.c);
    lemma_pascal(t.d);
    lemma_choose_monotone(t.b + 1, t.a);
    lemma_choose_monotone(t.a + 1, 13);
    lemma_choose_monotone(t.c + 1, t.b);
    lemma_choose_monotone(t.d + 1, t.c);
    if below5(t) == choose5(t.a + 1) - 1 {
        assert(choose4(t.b + 1) == choose4(t.a));
        assert(choose3(t.c + 1) == choose3(t.b));
        assert(choose2(t.d + 1) == choose2(t.c));
        lemma_choose_strict(t.b + 1, t.a);
        lemma_choose_strict(t.c + 1, t.b);
        lemma_choose_strict(t.d + 1, t.c);
    }
    if below5(t) == 792 && t.a == 12 {
        lemma_choose_strict(0, t.b);
        lemma_choose_strict(0, t.c);
        lemma_choose_strict(0, t.d);
    }
}

/// Of two pairs of different naturals, the one with the larger first
/// element, or else the larger second element, has more pairs before it.
pub proof fn lemma_below2_order(x1: int, y1: int, x2: int, y2: int)
    requires
        0 <= y1 < x1 < 13,
        0 <= y2 < x2 < 13,
    ensures
        below2(x1, y1) < below2(x2, y2) <==> x1 < x2 || (x1 == x2 && y1 < y2),
        below2(x1, y1) == below2(x2, y2) <==> x1 == x2 && y1 == y2,
{
    lemma_below2_bounds(x1, y1, 13);
    lemma_below2_bounds(x2, y2, 13);
    if x1 < x2 {
        lemma_choose_monotone(x1 + 1, x2);
    }
    if x2 < x1 {
        lemma_choose_monotone(x2 + 1, x1);
    }
}

/// Of two triples of different naturals, the one that is larger at the
/// first place where they differ has more triples before it.
pub proof fn lemma_below3_order(x1: int, y1: int, z1: int, x2: int, y2: int, z2: int)
    requires
        0 <= z1 < y1 < x1 < 13,
        0 <= z2 < y2 < x2 < 13,
    ensures
        below3(x1, y1, z1) < below3(x2, y2, z2) <==> x1 < x2 || (x1 == x2 && (y1 < y2 || (y1 == y2
            && z1 < z2))),
        below3(x1, y1, z1) == below3(x2, y2, z2) <==> x1 == x2 && y1 == y2 && z1 == z2,
{
    lemma_below3_bounds(x1, y1, z1, 13);
    lemma_below3_bounds(x2, y2, z2, 13);
    lemma_below2_order(y1, z1, y2, z2);
    if x1 < x2 {
        lemma_choose_monotone(x1 + 1, x2);
    }
    if x2 < x1 {
        lemma_choose_monotone(x2 + 1, x1);
    }
}

/// Of two tuples of four different ranks, the one that is larger at the
/// first place where they differ has more tuples before it.
proof fn lemma_below4_order(
    w1: int,
    x1: int,
    y1: int,
    z1: int,
    w2: int,
    x2: int,
    y2: int,
    z2: int,
)
    requires
        0 <= z1 < y1 < x1 < w1 < 13,
        0 <= z2 < y2 < x2 < w2 < 13,
    ensures
        choose4(w1) + below3(x1, y1, z1) < choose4(w2) + below3(x2, y2, z2) <==> w1 < w2 || (w1
            == w2 && (x1 < x2 || (x1 == x2 && (y1 < y2 || (y1 == y2 && z1 < z2))))),
        choose4(w1) + below3(x1, y1, z1) == choose4(w2) + below3(x2, y2, z2) <==> w1 == w2 && x1
            == x2 && y1 == y2 && z1 == z2,
        choose4(w1) <= choose4(w1) + below3(x1, y1, z1) < choose4(w1 + 1),
{
    lemma_below3_bounds(x1, y1, z1, w1);
    lemma_below3_bounds(x2, y2, z2, w2);
    lemma_below3_order(x1, y1, z1, x2, y2, z2);
    lemma_pascal(w1);
    lemma_pascal(w2);
    if w1 < w2 {
        lemma_choose_monotone(w1 + 1, w2);
    }
    if w2 < w1 {
        lemma_choose_monotone(w2 + 1, w1);
    }
}

/// Of two tuples of five different ranks, the one that comes first when
/// they are compared highest rank first has more tuples before it.
pub proof fn lemma_below5_order(s: Ranks5, t: Ranks5)
    requires
        distinct(s),
        distinct(t),
    ensures
        below5(t) < below5(s) <==> s.above(t),
        below5(t) == below5(s) <==> s == t,
{
    lemma_below4_order(s.b, s.c, s.d, s.e, t.b, t.c, t.d, t.e);
    lemma_below4_order(t.b, t.c, t.d, t.e, s.b, s.c, s.d, s.e);
    lemma_pascal(s.a);
    lemma_pascal(t.a);
    lemma_choose_monotone(s.b + 1, s.a);
    lemma_choose_monotone(t.b + 1, t.a);
    if s.a < t.a {
        lemma_choose_monotone(s.a + 1, t.a);
    }
    if t.a < s.a {
        lemma_choose_monotone(t.a + 1, s.a);
    }
}

} // verus!
