//! Facts about sequences that hold keyed entries.

use vstd::prelude::*;

verus! {

pub proof fn lemma_filter_all<T>(s: Seq<T>, f: spec_fn(T) -> bool)
    requires
        forall|i: int| 0 <= i < s.len() ==> f(#[trigger] s[i]),
    ensures
        s.filter(f) == s,
    decreases s.len(),
{
    reveal(Seq::filter);
    if s.len() > 0 {
        assert forall|i: int| 0 <= i < s.drop_last().len() implies f(#[trigger] s.drop_last()[i]) by {
            assert(s.drop_last()[i] == s[i]);
        }
        lemma_filter_all(s.drop_last(), f);
        assert(f(s[s.len() - 1]));
        assert(s.drop_last().push(s.last()) =~= s);
    }
}

pub proof fn lemma_filter_none<T>(s: Seq<T>, f: spec_fn(T) -> bool)
    requires
        forall|i: int| 0 <= i < s.len() ==> !f(#[trigger] s[i]),
    ensures
        s.filter(f) == Seq::<T>::empty(),
    decreases s.len(),
{
    reveal(Seq::filter);
    if s.len() > 0 {
        assert forall|i: int| 0 <= i < s.drop_last().len() implies !f(#[trigger] s.drop_last()[i]) by {
            assert(s.drop_last()[i] == s[i]);
        }
        lemma_filter_none(s.drop_last(), f);
        assert(!f(s[s.len() - 1]));
    }
}

/// Leaving out the one entry that does not meet `f` removes it.
pub proof fn lemma_filter_removes<T>(s: Seq<T>, at: int, f: spec_fn(T) -> bool)
    requires
        0 <= at < s.len(),
        !f(s[at]),
        forall|i: int| 0 <= i < s.len() && i != at ==> f(#[trigger] s[i]),
    ensures
        s.filter(f) == s.remove(at),
{
    let left = s.take(at);
    let x = seq![s[at]];
    let right = s.skip(at + 1);
    assert(s =~= left + x + right);
    Seq::filter_distributes_over_add(left + x, right, f);
    Seq::filter_distributes_over_add(left, x, f);
    lemma_filter_all(left, f);
    lemma_filter_none(x, f);
    lemma_filter_all(right, f);
    assert(s.filter(f) =~= left + right);
    assert(s.remove(at) =~= left + right);
}

/// Two entries that meet `f` are both kept.
pub proof fn lemma_filter_two<T>(s: Seq<T>, f: spec_fn(T) -> bool, i: int, j: int)
    requires
        0 <= i < j < s.len(),
        f(s[i]),
        f(s[j]),
    ensures
        s.filter(f).len() >= 2,
{
    let left = s.take(i + 1);
    let right = s.skip(i + 1);
    assert(s =~= left + right);
    Seq::filter_distributes_over_add(left, right, f);
    assert(left[i] == s[i]);
    assert(right[j - i - 1] == s[j]);
    left.lemma_filter_contains(f, i);
    right.lemma_filter_contains(f, j - i - 1);
    assert(left.filter(f).len() >= 1);
    assert(right.filter(f).len() >= 1);
}

/// Two entries that meet `f` keep their order.
pub proof fn lemma_filter_keeps_order<T>(s: Seq<T>, f: spec_fn(T) -> bool, i: int, j: int) -> (r: (
    int,
    int,
))
    requires
        0 <= i < j < s.len(),
        f(s[i]),
        f(s[j]),
    ensures
        0 <= r.0 < r.1 < s.filter(f).len(),
        s.filter(f)[r.0] == s[i],
        s.filter(f)[r.1] == s[j],
{
    let left = s.take(i + 1);
    let right = s.skip(i + 1);
    assert(s =~= left + right);
    Seq::filter_distributes_over_add(left, right, f);
    assert(left[i] == s[i]);
    assert(right[j - i - 1] == s[j]);
    left.lemma_filter_contains(f, i);
    right.lemma_filter_contains(f, j - i - 1);
    let a = choose|a: int| 0 <= a < left.filter(f).len() && left.filter(f)[a] == s[i];
    let b = choose|b: int| 0 <= b < right.filter(f).len() && right.filter(f)[b] == s[j];
    assert(s.filter(f)[a] == s[i]);
    assert(s.filter(f)[left.filter(f).len() + b] == s[j]);
    (a, left.filter(f).len() + b)
}

/// What is kept stood there in the same order.
pub proof fn lemma_filter_had_order<T>(s: Seq<T>, f: spec_fn(T) -> bool, a: int, b: int) -> (r: (
    int,
    int,
))
    requires
        0 <= a < b < s.filter(f).len(),
    ensures
        0 <= r.0 < r.1 < s.len(),
        s[r.0] == s.filter(f)[a],
        s[r.1] == s.filter(f)[b],
    decreases s.len(),
{
    reveal(Seq::filter);
    let rest = s.drop_last();
    if b < rest.filter(f).len() {
        let r = lemma_filter_had_order(rest, f, a, b);
        assert(rest[r.0] == s[r.0] && rest[r.1] == s[r.1]);
        r
    } else {
        assert(f(s.last()));
        assert(s.filter(f) == rest.filter(f).push(s.last()));
        let i = lemma_filter_had(rest, f, a);
        assert(rest[i] == s[i]);
        (i, s.len() - 1)
    }
}

/// What is kept was there and meets `f`.
pub proof fn lemma_filter_had<T>(s: Seq<T>, f: spec_fn(T) -> bool, a: int) -> (i: int)
    requires
        0 <= a < s.filter(f).len(),
    ensures
        0 <= i < s.len(),
        s[i] == s.filter(f)[a],
        f(s[i]),
    decreases s.len(),
{
    reveal(Seq::filter);
    let rest = s.drop_last();
    if a < rest.filter(f).len() {
        let i = lemma_filter_had(rest, f, a);
        assert(rest[i] == s[i]);
        i
    } else {
        s.len() - 1
    }
}

} // verus!
