//! Five ranks taken together, and their arrangement in descending order.
//!
//! Everything that decides a hand's strength besides its suits is a
//! function of the multiset of its five ranks. This module models the
//! five ranks as a tuple, orders it, and shows that a function which does
//! not change when neighbours are exchanged takes the same value on a
//! tuple and on its descending arrangement.

use vstd::prelude::*;

verus! {

/// Five ranks, in some order. A rank is an integer in `0..13`, deuce
/// being 0 and ace 12.
pub struct Ranks5 {
    pub a: int,
    pub b: int,
    pub c: int,
    pub d: int,
    pub e: int,
}

/// 1 if the condition holds, 0 if not.
pub open spec fn indicator(b: bool) -> int {
    if b {
        1
    } else {
        0
    }
}

impl Ranks5 {
    /// How many of the five are equal to `v`.
    pub open spec fn count(self, v: int) -> int {
        indicator(self.a == v) + indicator(self.b == v) + indicator(self.c == v) + indicator(
            self.d == v,
        ) + indicator(self.e == v)
    }

    /// Each of the five is a rank.
    pub open spec fn in_range(self) -> bool {
        &&& 0 <= self.a < 13
        &&& 0 <= self.b < 13
        &&& 0 <= self.c < 13
        &&& 0 <= self.d < 13
        &&& 0 <= self.e < 13
    }

    /// No element is smaller than the one after it.
    pub open spec fn descending(self) -> bool {
        self.a >= self.b >= self.c >= self.d >= self.e
    }

    /// Each element is larger than the one after it.
    pub open spec fn strictly_descending(self) -> bool {
        self.a > self.b > self.c > self.d > self.e
    }

    /// The tuple with its first two elements exchanged.
    pub open spec fn swap_ab(self) -> Ranks5 {
        Ranks5 { a: self.b, b: self.a, ..self }
    }

    /// The tuple with its second and third element exchanged.
    pub open spec fn swap_bc(self) -> Ranks5 {
        Ranks5 { b: self.c, c: self.b, ..self }
    }

    /// The tuple with its third and fourth element exchanged.
    pub open spec fn swap_cd(self) -> Ranks5 {
        Ranks5 { c: self.d, d: self.c, ..self }
    }

    /// The tuple with its last two elements exchanged.
    pub open spec fn swap_de(self) -> Ranks5 {
        Ranks5 { d: self.e, e: self.d, ..self }
    }

    /// The tuple with the larger of its first two elements first.
    pub open spec fn order_ab(self) -> Ranks5 {
        if self.a >= self.b {
            self
        } else {
            self.swap_ab()
        }
    }

    /// The tuple with the larger of its second and third element first.
    pub open spec fn order_bc(self) -> Ranks5 {
        if self.b >= self.c {
            self
        } else {
            self.swap_bc()
        }
    }

    /// The tuple with the larger of its third and fourth element first.
    pub open spec fn order_cd(self) -> Ranks5 {
        if self.c >= self.d {
            self
        } else {
            self.swap_cd()
        }
    }

    /// The tuple with the larger of its last two elements first.
    pub open spec fn order_de(self) -> Ranks5 {
        if self.d >= self.e {
            self
        } else {
            self.swap_de()
        }
    }

    /// One pass that carries the smallest of the first five to the end.
    pub open spec fn sink5(self) -> Ranks5 {
        self.order_ab().order_bc().order_cd().order_de()
    }

    /// One pass that carries the smallest of the first four to the fourth place.
    pub open spec fn sink4(self) -> Ranks5 {
        self.order_ab().order_bc().order_cd()
    }

    /// One pass that carries the smallest of the first three to the third place.
    pub open spec fn sink3(self) -> Ranks5 {
        self.order_ab().order_bc()
    }

    /// The five in descending order: four passes of exchanges of neighbours.
    pub open spec fn sorted(self) -> Ranks5 {
        self.sink5().sink4().sink3().order_ab()
    }

    /// Descending, each rank one below the one before it.
    pub open spec fn consecutive(self) -> bool {
        &&& self.a == self.b + 1
        &&& self.b == self.c + 1
        &&& self.c == self.d + 1
        &&& self.d == self.e + 1
    }

    /// Ace, five, four, three, deuce.
    pub open spec fn is_wheel(self) -> bool {
        self.a == 12 && self.b == 3 && self.c == 2 && self.d == 1 && self.e == 0
    }

    /// This tuple comes before the other when the two are compared
    /// element by element, larger first.
    pub open spec fn above(self, other: Ranks5) -> bool {
        self.a > other.a || (self.a == other.a && (self.b > other.b || (self.b == other.b && (
        self.c > other.c || (self.c == other.c && (self.d > other.d || (self.d == other.d
            && self.e > other.e)))))))
    }

    /// The two tuples hold the same ranks, each as often.
    pub open spec fn same_ranks(self, other: Ranks5) -> bool {
        forall|v: int| self.count(v) == other.count(v)
    }
}

/// A descending tuple of ranks that five different cards can have.
pub open spec fn playable(t: Ranks5) -> bool {
    t.in_range() && t.descending() && t.a != t.e
}

/// Five different ranks in descending order.
pub open spec fn distinct(t: Ranks5) -> bool {
    t.in_range() && t.strictly_descending()
}

/// The function does not change when two neighbours are exchanged.
pub open spec fn symmetric<T>(f: spec_fn(Ranks5) -> T) -> bool {
    forall|t: Ranks5|
        #![trigger f(t)]
        f(t.swap_ab()) == f(t) && f(t.swap_bc()) == f(t) && f(t.swap_cd()) == f(t) && f(
            t.swap_de(),
        ) == f(t)
}

/// The descending arrangement is descending, holds the same ranks, and
/// stays within the ranks.
pub proof fn lemma_sorted(t: Ranks5)
    ensures
        t.sorted().descending(),
        t.sorted().same_ranks(t),
        t.in_range() ==> t.sorted().in_range(),
{
    let t1 = t.sink5();
    let t2 = t1.sink4();
    let t3 = t2.sink3();
    assert forall|v: int| t.sorted().count(v) == t.count(v) by {
        assert(t1.count(v) == t.count(v));
        assert(t2.count(v) == t1.count(v));
        assert(t3.count(v) == t2.count(v));
    }
    assert(t.in_range() ==> t1.in_range());
    assert(t1.in_range() ==> t2.in_range());
    assert(t2.in_range() ==> t3.in_range());
}

/// Two descending tuples that hold the same ranks are the same tuple.
pub proof fn lemma_descending_unique(s: Ranks5, t: Ranks5)
    requires
        s.descending(),
        t.descending(),
        s.same_ranks(t),
    ensures
        s == t,
{
    assert(s.count(s.a) == t.count(s.a));
    assert(s.count(s.b) == t.count(s.b));
    assert(s.count(s.c) == t.count(s.c));
    assert(s.count(s.d) == t.count(s.d));
    assert(s.count(s.e) == t.count(s.e));
    assert(s.count(t.a) == t.count(t.a));
    assert(s.count(t.b) == t.count(t.b));
    assert(s.count(t.c) == t.count(t.c));
    assert(s.count(t.d) == t.count(t.d));
    assert(s.count(t.e) == t.count(t.e));
}

/// Tuples that hold the same ranks have the same descending arrangement.
pub proof fn lemma_same_ranks_same_sorted(s: Ranks5, t: Ranks5)
    requires
        s.same_ranks(t),
    ensures
        s.sorted() == t.sorted(),
{
    lemma_sorted(s);
    lemma_sorted(t);
    assert(s.sorted().same_ranks(t.sorted())) by {
        assert forall|v: int| s.sorted().count(v) == t.sorted().count(v) by {
            assert(s.sorted().count(v) == s.count(v));
            assert(t.sorted().count(v) == t.count(v));
            assert(s.count(v) == t.count(v));
        }
    }
    lemma_descending_unique(s.sorted(), t.sorted());
}

/// A function that does not change when neighbours are exchanged takes
/// the same value on a tuple and on its descending arrangement.
pub proof fn lemma_symmetric_sorted<T>(f: spec_fn(Ranks5) -> T, t: Ranks5)
    requires
        symmetric(f),
    ensures
        f(t.sorted()) == f(t),
{
    let s1 = t.order_ab();
    let s2 = s1.order_bc();
    let s3 = s2.order_cd();
    let s4 = s3.order_de();
    assert(f(s1) == f(t));
    assert(f(s2) == f(s1));
    assert(f(s3) == f(s2));
    assert(f(s4) == f(s3));
    let s5 = s4.order_ab();
    let s6 = s5.order_bc();
    let s7 = s6.order_cd();
    assert(f(s5) == f(s4));
    assert(f(s6) == f(s5));
    assert(f(s7) == f(s6));
    let s8 = s7.order_ab();
    let s9 = s8.order_bc();
    assert(f(s8) == f(s7));
    assert(f(s9) == f(s8));
    let s10 = s9.order_ab();
    assert(f(s10) == f(s9));
}

} // verus!
