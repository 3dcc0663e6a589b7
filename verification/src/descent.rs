//! The sets of five different ranks, from the highest down.
//!
//! The sets are gone through in descending order, compared by their
//! highest rank first: ace to ten first, six to deuce last. The straights
//! among them are named after their highest rank, the ace of ace to five
//! counting as low.

use vstd::prelude::*;
use crate::binomial::{lemma_choose_values, lemma_pascal};
use crate::places::below5;
use crate::ranks::{Ranks5, distinct};

verus! {

/// The number of straights that come before the tuple `t` of five
/// different ranks in descending order.
pub open spec fn straights_before(t: Ranks5) -> int {
    if t.a == 12 {
        if t.consecutive() {
            0
        } else {
            1
        }
    } else if t.consecutive() {
        13 - t.a
    } else {
        14 - t.a
    }
}

/// The tuple `nxt` of five different ranks follows the tuple `cur` in
/// descending order.
pub open spec fn follows(cur: Ranks5, nxt: Ranks5) -> bool {
    if cur.e > 0 {
        nxt == (Ranks5 { e: cur.e - 1, ..cur })
    } else if cur.d > 1 {
        nxt == (Ranks5 { d: cur.d - 1, e: cur.d - 2, ..cur })
    } else if cur.c > 2 {
        nxt == (Ranks5 { c: cur.c - 1, d: cur.c - 2, e: cur.c - 3, ..cur })
    } else if cur.b > 3 {
        nxt == (Ranks5 { b: cur.b - 1, c: cur.b - 2, d: cur.b - 3, e: cur.b - 4, ..cur })
    } else {
        cur.a > 4 && nxt == (Ranks5 {
            a: cur.a - 1,
            b: cur.a - 2,
            c: cur.a - 3,
            d: cur.a - 4,
            e: cur.a - 5,
        })
    }
}

/// Six, five, four, three, deuce: the last tuple of five different ranks.
pub open spec fn is_last(cur: Ranks5) -> bool {
    cur.a == 4
}

/// The tuple that follows has one tuple fewer after it, and one more
/// straight before it if the tuple it follows is a straight.
pub proof fn lemma_follows_count(cur: Ranks5, nxt: Ranks5)
    requires
        distinct(cur),
        follows(cur, nxt),
    ensures
        distinct(nxt),
        below5(nxt) == below5(cur) - 1,
        0 <= below5(nxt),
        straights_before(nxt) == straights_before(cur) + if cur.consecutive() || cur.is_wheel() {
            1int
        } else {
            0int
        },
{
    lemma_choose_values();
    if cur.e > 0 {
        lemma_pascal(nxt.a);
        lemma_pascal(nxt.b);
        lemma_pascal(nxt.c);
        lemma_pascal(nxt.d);
    } else if cur.d > 1 {
        lemma_pascal(cur.d - 1);
        lemma_pascal(nxt.a);
        lemma_pascal(nxt.b);
        lemma_pascal(nxt.c);
    } else if cur.c > 2 {
        lemma_pascal(cur.c - 1);
        lemma_pascal(cur.c - 2);
        lemma_pascal(nxt.a);
        lemma_pascal(nxt.b);
    } else if cur.b > 3 {
        lemma_pascal(cur.b - 1);
        lemma_pascal(cur.b - 2);
        lemma_pascal(cur.b - 3);
        lemma_pascal(nxt.a);
    } else {
        lemma_pascal(cur.a - 1);
        lemma_pascal(cur.a - 2);
        lemma_pascal(cur.a - 3);
        lemma_pascal(cur.a - 4);
    }
}

/// A tuple that comes before the tuple that follows `cur` comes before
/// `cur` or is `cur`; every tuple does if none follows.
pub proof fn lemma_follows_order(cur: Ranks5, nxt: Ranks5, t: Ranks5)
    requires
        distinct(cur),
        distinct(t),
        is_last(cur) || (follows(cur, nxt) && t.above(nxt)),
    ensures
        t.above(cur) || t == cur,
{
}

/// The five different ranks that follow in descending order, if any
/// follow: the tuples go from ace to ten down to six to deuce, compared
/// by their highest rank first.
pub fn step_down(a: usize, b: usize, c: usize, d: usize, e: usize) -> (next: Option<
    (usize, usize, usize, usize, usize),
>)
    requires
        13 > a > b > c > d > e,
    ensures
        match next {
            Some((a2, b2, c2, d2, e2)) => {
                &&& 13 > a2 > b2 > c2 > d2 > e2
                &&& follows(
                    Ranks5 { a: a as int, b: b as int, c: c as int, d: d as int, e: e as int },
                    Ranks5 { a: a2 as int, b: b2 as int, c: c2 as int, d: d2 as int, e: e2 as int },
                )
            },
            None => a == 4,
        },
{
    if e > 0 {
        Some((a, b, c, d, e - 1))
    } else if d > 1 {
        Some((a, b, c, d - 1, d - 2))
    } else if c > 2 {
        Some((a, b, c - 1, c - 2, c - 3))
    } else if b > 3 {
        Some((a, b - 1, b - 2, b - 3, b - 4))
    } else if a > 4 {
        Some((a - 1, a - 2, a - 3, a - 4, a - 5))
    } else {
        None
    }
}

/// The rank that a straight in descending order is named after.
pub open spec fn top_of(t: Ranks5) -> int {
    if t.is_wheel() {
        3
    } else {
        t.a
    }
}

/// The ranks of the straight that is named after `top`, highest first.
pub fn straight_ranks(top: usize) -> (r: (usize, usize, usize, usize, usize))
    requires
        3 <= top < 13,
    ensures
        ({
            let t = Ranks5 {
                a: r.0 as int,
                b: r.1 as int,
                c: r.2 as int,
                d: r.3 as int,
                e: r.4 as int,
            };
            &&& 13 > r.0 > r.1 > r.2 > r.3 > r.4
            &&& t.consecutive() || t.is_wheel()
            &&& top_of(t) == top
        }),
{
    if top == 3 {
        (12, 3, 2, 1, 0)
    } else {
        (top, top - 1, top - 2, top - 3, top - 4)
    }
}

} // verus!
