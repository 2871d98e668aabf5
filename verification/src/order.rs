//! Orders and stable sorting.

use crate::seqs::lemma_filter_none;
use vstd::prelude::*;
use vstd::seq_lib::*;

verus! {

/// A type whose values can be put in order by what their views say. The order
/// may leave different values tied. It is an order among the values that are
/// [`Ranked::ranked`].
pub trait Ranked: View + Sized {
    /// Whether the value has a place in the order.
    spec fn ranked(a: Self::V) -> bool;

    /// Whether `a` comes before `b`.
    spec fn before(a: Self::V, b: Self::V) -> bool;

    /// Of two values at most one comes before the other, and what does not
    /// come before a value does not come before anything that the value does
    /// not come before.
    proof fn order_laws(a: Self::V, b: Self::V, c: Self::V)
        requires
            Self::ranked(a),
            Self::ranked(b),
            Self::ranked(c),
        ensures
            Self::before(a, b) ==> !Self::before(b, a),
            !Self::before(a, b) && !Self::before(b, c) ==> !Self::before(a, c),
    ;

    /// Whether this value comes before `other`.
    fn is_before(&self, other: &Self) -> (r: bool)
        ensures
            r == Self::before(self@, other@),
    ;
}

/// The views of a list of values.
pub open spec fn views<T: View>(s: Seq<T>) -> Seq<T::V> {
    s.map_values(|x: T| x@)
}

/// The values that are tied with `x`: neither comes before the other.
pub open spec fn tied_with<T: Ranked>(x: T::V) -> spec_fn(T::V) -> bool {
    |y: T::V| !T::before(x, y) && !T::before(y, x)
}

/// No value of `s` comes before one that stands earlier.
pub open spec fn in_order<T: Ranked>(s: Seq<T::V>) -> bool {
    forall|i: int, j: int| #![trigger s[i], s[j]] 0 <= i < j < s.len() ==> !T::before(s[j], s[i])
}

/// `s` is `t` put in order, where tied values keep the order they have in
/// `t`.
pub open spec fn stably_sorted<T: Ranked>(s: Seq<T::V>, t: Seq<T::V>) -> bool {
    &&& in_order::<T>(s)
    &&& s.to_multiset() == t.to_multiset()
    &&& forall|x: T::V| #[trigger]
        T::ranked(x) ==> s.filter(tied_with::<T>(x)) == t.filter(tied_with::<T>(x))
}

/// All values of `s` have a place in the order.
pub open spec fn all_ranked<T: Ranked>(s: Seq<T::V>) -> bool {
    forall|i: int| 0 <= i < s.len() ==> T::ranked(#[trigger] s[i])
}

/// `x` put into `s` before the first value that does not come before it.
pub open spec fn placed<T: Ranked>(s: Seq<T::V>, x: T::V) -> Seq<T::V>
    decreases s.len(),
{
    if s.len() == 0 || !T::before(s[0], x) {
        seq![x] + s
    } else {
        seq![s[0]] + placed::<T>(s.drop_first(), x)
    }
}

/// `t` put in order, where tied values keep their order; see
/// [`sorted_is_stable`].
pub open spec fn sorted<T: Ranked>(t: Seq<T::V>) -> Seq<T::V>
    decreases t.len(),
{
    if t.len() == 0 {
        t
    } else {
        placed::<T>(sorted::<T>(t.drop_first()), t[0])
    }
}

/// Sorting puts the values in order, loses none and adds none, and keeps the
/// order of tied values.
pub proof fn sorted_is_stable<T: Ranked>(t: Seq<T::V>)
    requires
        all_ranked::<T>(t),
    ensures
        stably_sorted::<T>(sorted::<T>(t), t),
        all_ranked::<T>(sorted::<T>(t)),
        sorted::<T>(t).len() == t.len(),
    decreases t.len(),
{
    if t.len() > 0 {
        let rest = t.drop_first();
        assert forall|i: int| 0 <= i < rest.len() implies T::ranked(#[trigger] rest[i]) by {
            assert(rest[i] == t[i + 1]);
        }
        assert(T::ranked(t[0]));
        sorted_is_stable::<T>(rest);
        let at = lemma_placed::<T>(sorted::<T>(rest), t[0]);
        lemma_inserted::<T>(sorted::<T>(rest), rest, t[0], at);
        assert(seq![t[0]] + rest =~= t);
    }
}

/// Values that are in order already stay where they are.
pub proof fn sorted_keeps_order<T: Ranked>(t: Seq<T::V>)
    requires
        in_order::<T>(t),
    ensures
        sorted::<T>(t) == t,
    decreases t.len(),
{
    if t.len() > 0 {
        let rest = t.drop_first();
        assert forall|i: int, j: int| #![trigger rest[i], rest[j]] 0 <= i < j < rest.len() implies !T::before(
        rest[j], rest[i]) by {
            assert(!T::before(t[j + 1], t[i + 1]));
        }
        sorted_keeps_order::<T>(rest);
        if rest.len() > 0 {
            assert(rest[0] == t[1]);
            assert(!T::before(t[1], t[0]));
        }
        assert(seq![t[0]] + rest =~= t);
    }
}

/// The place that [`placed`] finds.
proof fn lemma_placed<T: Ranked>(s: Seq<T::V>, x: T::V) -> (at: int)
    ensures
        0 <= at <= s.len(),
        forall|i: int| 0 <= i < at ==> T::before(#[trigger] s[i], x),
        at < s.len() ==> !T::before(s[at], x),
        placed::<T>(s, x) == s.insert(at, x),
    decreases s.len(),
{
    if s.len() == 0 || !T::before(s[0], x) {
        assert(seq![x] + s =~= s.insert(0, x));
        0
    } else {
        let rest = s.drop_first();
        let at = lemma_placed::<T>(rest, x);
        assert(seq![s[0]] + rest.insert(at, x) =~= s.insert(at + 1, x));
        assert forall|i: int| 0 <= i < at + 1 implies T::before(#[trigger] s[i], x) by {
            if i > 0 {
                assert(s[i] == rest[i - 1]);
            }
        }
        at + 1
    }
}

/// `x` put into the ordered `s` after what comes before it, and before the
/// rest.
proof fn lemma_inserted<T: Ranked>(s: Seq<T::V>, t: Seq<T::V>, x: T::V, at: int)
    requires
        stably_sorted::<T>(s, t),
        all_ranked::<T>(s),
        T::ranked(x),
        0 <= at <= s.len(),
        forall|i: int| 0 <= i < at ==> T::before(#[trigger] s[i], x),
        at < s.len() ==> !T::before(s[at], x),
    ensures
        stably_sorted::<T>(s.insert(at, x), seq![x] + t),
        all_ranked::<T>(s.insert(at, x)),
{
    let u = s.insert(at, x);
    let left = s.take(at);
    let right = s.skip(at);
    assert(u =~= left + seq![x] + right);
    assert(s =~= left + right);
    assert forall|i: int, j: int| #![trigger u[i], u[j]] 0 <= i < j < u.len() implies !T::before(
        u[j],
        u[i],
    ) by {
        if j == at {
            assert(T::before(s[i], x));
            T::order_laws(s[i], x, x);
        } else if i == at {
            assert(u[j] == s[j - 1]);
            if j - 1 > at {
                assert(!T::before(s[j - 1], s[at]));
                T::order_laws(s[j - 1], s[at], x);
            }
        } else {
            let a = if i < at {
                i
            } else {
                i - 1
            };
            let b = if j < at {
                j
            } else {
                j - 1
            };
            assert(u[i] == s[a] && u[j] == s[b]);
        }
    }
    assert forall|z: T::V| #[trigger] T::ranked(z) implies u.filter(tied_with::<T>(z)) == (seq![x]
        + t).filter(tied_with::<T>(z)) by {
        let f = tied_with::<T>(z);
        Seq::filter_distributes_over_add(left + seq![x], right, f);
        Seq::filter_distributes_over_add(left, seq![x], f);
        Seq::filter_distributes_over_add(left, right, f);
        Seq::filter_distributes_over_add(seq![x], t, f);
        assert(s.filter(f) == t.filter(f));
        if f(x) {
            assert forall|i: int| 0 <= i < left.len() implies !f(#[trigger] left[i]) by {
                assert(left[i] == s[i]);
                if f(s[i]) {
                    T::order_laws(s[i], z, x);
                }
            }
            lemma_filter_none(left, f);
            assert(u.filter(f) =~= seq![x].filter(f) + right.filter(f));
            assert(s.filter(f) =~= right.filter(f));
        } else {
            lemma_filter_none(seq![x], f);
            assert(u.filter(f) =~= left.filter(f) + right.filter(f));
            assert((seq![x] + t).filter(f) =~= t.filter(f));
        }
    }
    assert(u.to_multiset() =~= (seq![x] + t).to_multiset()) by {
        lemma_multiset_commutative(seq![x], t);
        lemma_multiset_commutative(left + seq![x], right);
        lemma_multiset_commutative(left, seq![x]);
        lemma_multiset_commutative(left, right);
    }
    assert forall|i: int| 0 <= i < u.len() implies T::ranked(#[trigger] u[i]) by {
        if i < at {
            assert(u[i] == s[i]);
        } else if i > at {
            assert(u[i] == s[i - 1]);
        }
    }
}

/// Puts the values of `v` in order; tied values keep their order.
pub fn stable_sort<T: Ranked>(v: Vec<T>) -> (r: Vec<T>)
    requires
        all_ranked::<T>(views(v@)),
    ensures
        views(r@) == sorted::<T>(views(v@)),
        stably_sorted::<T>(views(r@), views(v@)),
        r@.len() == v@.len(),
{
    let ghost input = views(v@);
    let mut rest = v;
    let mut r: Vec<T> = Vec::new();
    proof {
        assert(input.skip(input.len() as int) =~= views(r@));
        assert(views(rest@) =~= input.take(input.len() as int));
    }
    while rest.len() > 0
        invariant
            rest@.len() <= input.len(),
            views(rest@) == input.take(rest@.len() as int),
            views(r@) == sorted::<T>(input.skip(rest@.len() as int)),
            r@.len() + rest@.len() == input.len(),
        decreases rest@.len(),
    {
        let ghost k = rest@.len() - 1;
        proof {
            assert(views(rest@)[k] == rest@[k]@);
        }
        let ghost longer = rest@;
        let x = rest.pop().unwrap();
        proof {
            assert(x@ == input[k]);
            assert(views(rest@) =~= views(longer).take(k));
            assert(views(rest@) =~= input.take(k));
        }
        let mut at: usize = 0;
        while at < r.len() && r[at].is_before(&x)
            invariant
                at <= r@.len(),
                forall|i: int| 0 <= i < at ==> T::before(#[trigger] views(r@)[i], x@),
            decreases r@.len() - at,
        {
            at += 1;
        }
        proof {
            let p = lemma_placed::<T>(views(r@), x@);
            assert(p == at) by {
                if p < at {
                    assert(T::before(views(r@)[p], x@));
                } else if at < p {
                    assert(T::before(views(r@)[at as int], x@));
                }
            }
            assert(input.skip(k).drop_first() =~= input.skip(k + 1));
            assert(views(r@.insert(at as int, x)) =~= views(r@).insert(at as int, x@));
        }
        r.insert(at, x);
    }
    proof {
        assert(input.skip(0) =~= input);
        sorted_is_stable::<T>(input);
    }
    r
}

} // verus!
