//! Facts about sequences that the rest of the library leans on: the first element with a
//! property, and sums.
use vstd::prelude::*;

verus! {

/// Whether `i` is the first index at which `f` holds.
pub open spec fn is_first<T>(s: Seq<T>, f: spec_fn(T) -> bool, i: int) -> bool {
    &&& 0 <= i < s.len()
    &&& f(s[i])
    &&& forall|j: int| 0 <= j < i ==> !f(#[trigger] s[j])
}

/// The first index at which `f` holds, if it holds anywhere.
pub open spec fn first_where<T>(s: Seq<T>, f: spec_fn(T) -> bool) -> Option<int> {
    if exists|i: int| is_first(s, f, i) {
        Some(choose|i: int| is_first(s, f, i))
    } else {
        None
    }
}

pub proof fn lemma_first_is<T>(s: Seq<T>, f: spec_fn(T) -> bool, i: int)
    requires
        is_first(s, f, i),
    ensures
        first_where(s, f) == Some(i),
{
    let k = choose|k: int| is_first(s, f, k);
    assert(is_first(s, f, k));
    if k < i {
        assert(!f(s[k]));
    } else if i < k {
        assert(!f(s[i]));
    }
}

pub proof fn lemma_first_none<T>(s: Seq<T>, f: spec_fn(T) -> bool)
    requires
        forall|i: int| 0 <= i < s.len() ==> !f(#[trigger] s[i]),
    ensures
        first_where(s, f) is None,
{
}

pub proof fn lemma_first_some<T>(s: Seq<T>, f: spec_fn(T) -> bool)
    ensures
        first_where(s, f) matches Some(i) ==> is_first(s, f, i),
{
}

/// Where `f` holds at `i`, there is a first index, and it is no later.
pub proof fn lemma_first_exists<T>(s: Seq<T>, f: spec_fn(T) -> bool, i: int)
    requires
        0 <= i < s.len(),
        f(s[i]),
    ensures
        first_where(s, f) is Some,
        is_first(s, f, first_where(s, f)->Some_0),
        first_where(s, f)->Some_0 <= i,
    decreases i,
{
    if forall|j: int| 0 <= j < i ==> !f(#[trigger] s[j]) {
        lemma_first_is(s, f, i);
    } else {
        let j = choose|j: int| 0 <= j < i && f(#[trigger] s[j]);
        lemma_first_exists(s, f, j);
    }
}

/// The sum of `f` over a sequence.
pub open spec fn sum_by<T>(s: Seq<T>, f: spec_fn(T) -> int) -> int
    decreases s.len(),
{
    if s.len() == 0 {
        0
    } else {
        sum_by(s.drop_last(), f) + f(s.last())
    }
}

pub proof fn lemma_sum_push<T>(s: Seq<T>, f: spec_fn(T) -> int, x: T)
    ensures
        sum_by(s.push(x), f) == sum_by(s, f) + f(x),
{
    assert(s.push(x).drop_last() =~= s);
}

pub proof fn lemma_sum_take<T>(s: Seq<T>, f: spec_fn(T) -> int, i: int)
    requires
        0 <= i < s.len(),
    ensures
        sum_by(s.take(i + 1), f) == sum_by(s.take(i), f) + f(s[i]),
{
    assert(s.take(i + 1).drop_last() =~= s.take(i));
}

/// Changing one element, or what `f` gives for it, changes the sum by that much.
pub proof fn lemma_sum_differs_at<T>(
    s: Seq<T>,
    f: spec_fn(T) -> int,
    t: Seq<T>,
    g: spec_fn(T) -> int,
    i: int,
)
    requires
        0 <= i < s.len(),
        t.len() == s.len(),
        forall|j: int| 0 <= j < s.len() && j != i ==> f(#[trigger] s[j]) == g(#[trigger] t[j]),
    ensures
        sum_by(t, g) == sum_by(s, f) - f(s[i]) + g(t[i]),
    decreases s.len(),
{
    if i == s.len() - 1 {
        lemma_sum_same(s.drop_last(), f, t.drop_last(), g);
    } else {
        lemma_sum_differs_at(s.drop_last(), f, t.drop_last(), g, i);
    }
}

pub proof fn lemma_sum_same<T>(
    s: Seq<T>,
    f: spec_fn(T) -> int,
    t: Seq<T>,
    g: spec_fn(T) -> int,
)
    requires
        t.len() == s.len(),
        forall|j: int| 0 <= j < s.len() ==> f(#[trigger] s[j]) == g(#[trigger] t[j]),
    ensures
        sum_by(t, g) == sum_by(s, f),
    decreases s.len(),
{
    if s.len() > 0 {
        lemma_sum_same(s.drop_last(), f, t.drop_last(), g);
    }
}

/// Terms that are zero add nothing to the sum of those before them.
pub proof fn lemma_sum_zero_beyond<T>(s: Seq<T>, f: spec_fn(T) -> int, k: int)
    requires
        0 <= k <= s.len(),
        forall|j: int| k <= j < s.len() ==> f(#[trigger] s[j]) == 0,
    ensures
        sum_by(s, f) == sum_by(s.take(k), f),
    decreases s.len(),
{
    if k == s.len() {
        assert(s.take(k) =~= s);
    } else {
        lemma_sum_zero_beyond(s.drop_last(), f, k);
        assert(s.drop_last().take(k) =~= s.take(k));
    }
}

/// No sum of the first of some nonnegative terms exceeds that of all.
pub proof fn lemma_sum_first<T>(s: Seq<T>, f: spec_fn(T) -> int, k: int)
    requires
        0 <= k <= s.len(),
        forall|j: int| 0 <= j < s.len() ==> f(#[trigger] s[j]) >= 0,
    ensures
        sum_by(s.take(k), f) <= sum_by(s, f),
    decreases s.len(),
{
    if k == s.len() {
        assert(s.take(k) =~= s);
    } else {
        let t = s.drop_last();
        assert forall|j: int| 0 <= j < t.len() implies f(#[trigger] t[j]) >= 0 by {
            assert(t[j] == s[j]);
        }
        lemma_sum_first(t, f, k);
        assert(t.take(k) =~= s.take(k));
        assert(f(s[s.len() - 1]) >= 0);
    }
}

/// A sum of nonnegative terms is nonnegative, and no term exceeds it.
pub proof fn lemma_sum_bounds<T>(s: Seq<T>, f: spec_fn(T) -> int)
    requires
        forall|j: int| 0 <= j < s.len() ==> f(#[trigger] s[j]) >= 0,
    ensures
        sum_by(s, f) >= 0,
        forall|j: int| 0 <= j < s.len() ==> f(#[trigger] s[j]) <= sum_by(s, f),
    decreases s.len(),
{
    if s.len() > 0 {
        let t = s.drop_last();
        lemma_sum_bounds(t, f);
        assert forall|j: int| 0 <= j < s.len() implies f(#[trigger] s[j]) <= sum_by(s, f) by {
            if j < t.len() {
                assert(f(t[j]) <= sum_by(t, f));
            }
        }
    }
}

/// A sum is made of its terms, one by one, and the order in which they come is the one in which
/// they stand.
pub proof fn law_sums_add_up<T>(s: Seq<T>, t: Seq<T>, f: spec_fn(T) -> int, x: T)
    ensures
        sum_by(Seq::<T>::empty(), f) == 0,
        sum_by(s.push(x), f) == sum_by(s, f) + f(x),
        sum_by(s + t, f) == sum_by(s, f) + sum_by(t, f),
    decreases t.len(),
{
    lemma_sum_push(s, f, x);
    if t.len() == 0 {
        assert(s + t =~= s);
    } else {
        law_sums_add_up(s, t.drop_last(), f, x);
        assert((s + t).drop_last() =~= s + t.drop_last());
    }
}

/// What is found is the first element of its kind, and nothing is found where there is none.
pub proof fn law_the_first_is_found<T>(s: Seq<T>, f: spec_fn(T) -> bool, i: int)
    ensures
        0 <= i < s.len() && f(s[i]) && (forall|j: int| 0 <= j < i ==> !f(#[trigger] s[j]))
            ==> first_where(s, f) == Some(i),
        (forall|j: int| 0 <= j < s.len() ==> !f(#[trigger] s[j])) ==> first_where(s, f) is None,
{
    if 0 <= i < s.len() && f(s[i]) && (forall|j: int| 0 <= j < i ==> !f(#[trigger] s[j])) {
        lemma_first_is(s, f, i);
    }
    if forall|j: int| 0 <= j < s.len() ==> !f(#[trigger] s[j]) {
        lemma_first_none(s, f);
    }
}

} // verus!
