//! The flush table, and how it is filled.
//!
//! The table is addressed by the pattern of five different ranks and
//! holds the rank of the flush with those ranks. It is filled from the
//! strongest hand down: first the ten straight flushes, then the other
//! flushes, with a counter that gives each the next rank.

use vstd::prelude::*;
use crate::binomial::lemma_choose_values;
use crate::category::HandRank;
use crate::descent::{
    lemma_follows_count,
    lemma_follows_order,
    step_down,
    straight_ranks,
    straights_before,
    top_of,
};
use crate::masks::{PATTERNS, lemma_pattern_distinct, lemma_pattern_holds, pattern_of};
use crate::places::below5;
use crate::ranking::lemma_descending_shape;
use crate::ranks::{Ranks5, distinct};

verus! {

/// The flush table holds the rank of the flushes with ranks `t`.
pub open spec fn flush_entry(f: Seq<HandRank>, t: Ranks5) -> bool {
    f[t.pattern() as int] == t.rank(true)
}

/// The flush table has an entry for every pattern, and the right one for
/// every pattern of five ranks.
pub open spec fn flushes_filled(f: Seq<HandRank>) -> bool {
    &&& f.len() == PATTERNS
    &&& forall|t: Ranks5| distinct(t) ==> #[trigger] flush_entry(f, t)
}

/// The place of a tuple of five different ranks in the order in which
/// the flush table is filled: straights first.
spec fn flush_stage(t: Ranks5) -> int {
    if t.consecutive() || t.is_wheel() {
        0
    } else {
        1
    }
}

/// The flush table has its full length, and it holds the entries of the
/// stages before `stage` and those of `stage` that `before` lets through.
spec fn flushes_upto(f: Seq<HandRank>, stage: int, before: spec_fn(Ranks5) -> bool) -> bool {
    &&& f.len() == PATTERNS
    &&& forall|t: Ranks5|
        distinct(t) && (flush_stage(t) < stage || (flush_stage(t) == stage && before(t)))
            ==> #[trigger] flush_entry(f, t)
}

/// After the entry of `cur` has been stored, the flush table holds what
/// it held, and the entry of `cur`.
proof fn lemma_set_extends(
    f: Seq<HandRank>,
    stage: int,
    before: spec_fn(Ranks5) -> bool,
    after: spec_fn(Ranks5) -> bool,
    cur: Ranks5,
    value: HandRank,
)
    requires
        flushes_upto(f, stage, before),
        distinct(cur),
        value == cur.rank(true),
        forall|t: Ranks5|
            distinct(t) && flush_stage(t) == stage && #[trigger] after(t) ==> before(t) || t == cur,
    ensures
        flushes_upto(f.update(cur.pattern() as int, value), stage, after),
{
    let f2 = f.update(cur.pattern() as int, value);
    lemma_pattern_holds(cur, 0);
    assert forall|t: Ranks5|
        distinct(t) && (flush_stage(t) < stage || (flush_stage(t) == stage && after(t)))
        implies #[trigger] flush_entry(f2, t) by {
        lemma_pattern_holds(t, 0);
        if t != cur {
            if flush_stage(t) == stage {
                assert(after(t));
                assert(before(t));
            }
            assert(flush_entry(f, t));
            if t.pattern() == cur.pattern() {
                lemma_pattern_distinct(t, cur);
            }
        }
    }
}

/// Builds the flush table: the straight flushes from the ace-high one
/// down to the five-high one, then the other flushes from ace, king,
/// queen, jack, nine down to seven, five, four, three, deuce.
pub fn build_flush_table() -> (flush: Vec<HandRank>)
    ensures
        flushes_filled(flush@),
{
    let mut flush: Vec<HandRank> = Vec::new();
    let mut i: usize = 0;
    while i < PATTERNS
        invariant
            i <= PATTERNS,
            flush.len() == i,
        decreases PATTERNS - i,
    {
        flush.push(0);
        i = i + 1;
    }
    let mut top: usize = 12;
    let mut next: HandRank = 1;
    let mut done = false;
    while !done
        invariant
            3 <= top < 13,
            !done ==> next == 1 + (12 - top),
            flushes_upto(flush@, 0, |t: Ranks5| done || top_of(t) > top),
        decreases
            (if done { 0int } else { 1int }), top,
    {
        let (a, b, c, d, e) = straight_ranks(top);
        let p = pattern_of(a, b, c, d, e);
        let ghost before = |t: Ranks5| done || top_of(t) > top;
        let ghost cur = Ranks5 { a: a as int, b: b as int, c: c as int, d: d as int, e: e as int };
        let ghost f = flush@;
        flush.set(p, next);
        next = next + 1;
        if top > 3 {
            top = top - 1;
        } else {
            done = true;
        }
        proof {
            lemma_descending_shape(cur, true);
            let after = |t: Ranks5| done || top_of(t) > top;
            assert forall|t: Ranks5|
                distinct(t) && flush_stage(t) == 0 && #[trigger] after(t) implies before(t) || t
                == cur by {
                assert(before(t) <==> top_of(t) > top_of(cur));
            }
            lemma_set_extends(f, 0, before, after, cur, (next - 1) as HandRank);
        }
    }
    let mut a: usize = 12;
    let mut b: usize = 11;
    let mut c: usize = 10;
    let mut d: usize = 9;
    let mut e: usize = 8;
    let mut next: HandRank = 323;
    let mut done = false;
    proof {
        lemma_choose_values();
        let first = |t: Ranks5|
            done || t.above(
                Ranks5 { a: a as int, b: b as int, c: c as int, d: d as int, e: e as int },
            );
        let straights = |t: Ranks5| true;
        assert forall|t: Ranks5|
            distinct(t) && (flush_stage(t) < 1 || (flush_stage(t) == 1 && first(t)))
            implies #[trigger] flush_entry(flush@, t) by {
            assert(straights(t));
        }
    }
    while !done
        invariant
            13 > a > b > c > d > e,
            !done ==> next == 323 + 1286 - below5(
                Ranks5 { a: a as int, b: b as int, c: c as int, d: d as int, e: e as int },
            ) - straights_before(
                Ranks5 { a: a as int, b: b as int, c: c as int, d: d as int, e: e as int },
            ),
            0 <= below5(Ranks5 { a: a as int, b: b as int, c: c as int, d: d as int, e: e as int }),
            flushes_upto(
                flush@,
                1,
                |t: Ranks5|
                    done || t.above(
                        Ranks5 { a: a as int, b: b as int, c: c as int, d: d as int, e: e as int },
                    ),
            ),
        decreases
            (if done { 0int } else { 1int }), a, b, c, d, e,
    {
        let ghost cur = Ranks5 { a: a as int, b: b as int, c: c as int, d: d as int, e: e as int };
        let ghost before = |t: Ranks5| done || t.above(cur);
        let ghost f = flush@;
        let ghost value = next;
        let straight = a == e + 4 || (a == 12 && b == 3);
        if !straight {
            let p = pattern_of(a, b, c, d, e);
            flush.set(p, next);
            next = next + 1;
        }
        match step_down(a, b, c, d, e) {
            Some((a2, b2, c2, d2, e2)) => {
                a = a2;
                b = b2;
                c = c2;
                d = d2;
                e = e2;
            },
            None => {
                done = true;
            },
        }
        proof {
            lemma_descending_shape(cur, true);
            let nxt = Ranks5 { a: a as int, b: b as int, c: c as int, d: d as int, e: e as int };
            let after = |t: Ranks5| done || t.above(nxt);
            if !done {
                lemma_follows_count(cur, nxt);
            }
            assert forall|t: Ranks5|
                distinct(t) && flush_stage(t) == 1 && #[trigger] after(t) implies before(t) || t
                == cur by {
                assert(before(t) <==> t.above(cur));
                lemma_follows_order(cur, nxt, t);
            }
            if !straight {
                lemma_set_extends(f, 1, before, after, cur, value);
            } else {
                assert forall|t: Ranks5|
                    distinct(t) && (flush_stage(t) < 1 || (flush_stage(t) == 1 && after(t)))
                    implies #[trigger] flush_entry(flush@, t) by {
                    if flush_stage(t) == 1 {
                        assert(after(t));
                        assert(before(t));
                    }
                }
            }
        }
    }
    assert forall|t: Ranks5| distinct(t) implies #[trigger] flush_entry(flush@, t) by {
        let last = |t: Ranks5|
            done || t.above(
                Ranks5 { a: a as int, b: b as int, c: c as int, d: d as int, e: e as int },
            );
        assert(last(t));
    }
    flush
}

} // verus!
