//! Lists that are filtered and mapped in one go.

use vstd::prelude::*;

verus! {

/// What `f` makes of each item, in order, without the items that it drops.
pub open spec fn filter_mapped<A, B>(s: Seq<A>, f: spec_fn(A) -> Option<B>) -> Seq<B>
    decreases s.len(),
{
    if s.len() == 0 {
        Seq::empty()
    } else {
        let rest = filter_mapped(s.drop_last(), f);
        match f(s.last()) {
            Some(b) => rest.push(b),
            None => rest,
        }
    }
}

/// One item more.
pub proof fn lemma_filter_mapped_step<A, B>(s: Seq<A>, f: spec_fn(A) -> Option<B>, i: int)
    requires
        0 <= i < s.len(),
    ensures
        filter_mapped(s.take(i + 1), f) == match f(s[i]) {
            Some(b) => filter_mapped(s.take(i), f).push(b),
            None => filter_mapped(s.take(i), f),
        },
{
    assert(s.take(i + 1).drop_last() =~= s.take(i));
    assert(s.take(i + 1).last() == s[i]);
}

/// Every result comes from an item.
pub proof fn lemma_filter_mapped_source<A, B>(s: Seq<A>, f: spec_fn(A) -> Option<B>, k: int)
    requires
        0 <= k < filter_mapped(s, f).len(),
    ensures
        exists|i: int| 0 <= i < s.len() && f(#[trigger] s[i]) == Some(filter_mapped(s, f)[k]),
    decreases s.len(),
{
    let rest = filter_mapped(s.drop_last(), f);
    if k < rest.len() {
        lemma_filter_mapped_source(s.drop_last(), f, k);
        let i = choose|i: int|
            0 <= i < s.drop_last().len() && f(#[trigger] s.drop_last()[i]) == Some(rest[k]);
        assert(s.drop_last()[i] == s[i]);
    } else {
        assert(f(s[s.len() - 1]) == Some(filter_mapped(s, f)[k]));
    }
}

/// Every item that is not dropped has a result.
pub proof fn lemma_filter_mapped_keeps<A, B>(s: Seq<A>, f: spec_fn(A) -> Option<B>, i: int)
    requires
        0 <= i < s.len(),
        f(s[i]) is Some,
    ensures
        filter_mapped(s, f).contains(f(s[i])->0),
    decreases s.len(),
{
    let rest = filter_mapped(s.drop_last(), f);
    if i == s.len() - 1 {
        assert(filter_mapped(s, f)[rest.len() as int] == f(s[i])->0);
    } else {
        assert(s.drop_last()[i] == s[i]);
        lemma_filter_mapped_keeps(s.drop_last(), f, i);
        let k = choose|k: int| 0 <= k < rest.len() && rest[k] == f(s[i])->0;
        assert(filter_mapped(s, f)[k] == f(s[i])->0);
    }
}

/// The sum of what `f` counts in each item.
pub open spec fn sum_by<A>(s: Seq<A>, f: spec_fn(A) -> nat) -> nat
    decreases s.len(),
{
    if s.len() == 0 {
        0
    } else {
        sum_by(s.drop_last(), f) + f(s.last())
    }
}

/// One item more.
pub proof fn lemma_sum_step<A>(s: Seq<A>, f: spec_fn(A) -> nat, i: int)
    requires
        0 <= i < s.len(),
    ensures
        sum_by(s.take(i + 1), f) == sum_by(s.take(i), f) + f(s[i]),
{
    assert(s.take(i + 1).drop_last() =~= s.take(i));
    assert(s.take(i + 1).last() == s[i]);
}

/// The sum over the first items is at most the sum over all.
pub proof fn lemma_sum_grows<A>(s: Seq<A>, f: spec_fn(A) -> nat, i: int)
    requires
        0 <= i <= s.len(),
    ensures
        sum_by(s.take(i), f) <= sum_by(s, f),
    decreases s.len() - i,
{
    if i == s.len() {
        assert(s.take(i) =~= s);
    } else {
        lemma_sum_step(s, f, i);
        lemma_sum_grows(s, f, i + 1);
    }
}

/// What is counted in one item is at most the sum.
pub proof fn lemma_sum_covers<A>(s: Seq<A>, f: spec_fn(A) -> nat, i: int)
    requires
        0 <= i < s.len(),
    ensures
        f(s[i]) <= sum_by(s, f),
{
    lemma_sum_step(s, f, i);
    lemma_sum_grows(s, f, i + 1);
}

/// Nothing is left exactly where every item is dropped.
pub proof fn lemma_filter_mapped_empty<A, B>(s: Seq<A>, f: spec_fn(A) -> Option<B>)
    ensures
        filter_mapped(s, f).len() == 0 <==> forall|i: int|
            0 <= i < s.len() ==> f(#[trigger] s[i]) is None,
{
    if filter_mapped(s, f).len() == 0 {
        assert forall|i: int| 0 <= i < s.len() implies f(#[trigger] s[i]) is None by {
            if f(s[i]) is Some {
                lemma_filter_mapped_keeps(s, f, i);
            }
        }
    } else if forall|i: int| 0 <= i < s.len() ==> f(#[trigger] s[i]) is None {
        lemma_filter_mapped_source(s, f, 0);
    }
}

/// Where no item is dropped, each has its result in its place.
pub proof fn lemma_filter_mapped_all<A, B>(s: Seq<A>, f: spec_fn(A) -> Option<B>)
    requires
        forall|i: int| 0 <= i < s.len() ==> f(#[trigger] s[i]) is Some,
    ensures
        filter_mapped(s, f).len() == s.len(),
        forall|i: int|
            0 <= i < s.len() ==> f(#[trigger] s[i]) == Some(filter_mapped(s, f)[i]),
    decreases s.len(),
{
    if s.len() > 0 {
        assert forall|i: int| 0 <= i < s.drop_last().len() implies f(
            #[trigger] s.drop_last()[i],
        ) is Some by {
            assert(s.drop_last()[i] == s[i]);
        }
        lemma_filter_mapped_all(s.drop_last(), f);
        assert(f(s[s.len() - 1]) is Some);
        assert forall|i: int| 0 <= i < s.len() implies f(#[trigger] s[i]) == Some(
            filter_mapped(s, f)[i],
        ) by {
            if i < s.len() - 1 {
                assert(s.drop_last()[i] == s[i]);
            }
        }
    }
}

/// A sum is zero exactly where nothing is counted in any item.
pub proof fn lemma_sum_zero<A>(s: Seq<A>, f: spec_fn(A) -> nat)
    ensures
        sum_by(s, f) == 0 <==> forall|i: int| 0 <= i < s.len() ==> f(#[trigger] s[i]) == 0,
    decreases s.len(),
{
    if sum_by(s, f) == 0 {
        assert forall|i: int| 0 <= i < s.len() implies f(#[trigger] s[i]) == 0 by {
            lemma_sum_covers(s, f, i);
        }
    }
    if s.len() > 0 && forall|i: int| 0 <= i < s.len() ==> f(#[trigger] s[i]) == 0 {
        assert forall|i: int| 0 <= i < s.drop_last().len() implies f(
            #[trigger] s.drop_last()[i],
        ) == 0 by {
            assert(s.drop_last()[i] == s[i]);
        }
        lemma_sum_zero(s.drop_last(), f);
        assert(f(s[s.len() - 1]) == 0);
    }
}

/// Where a single item is not dropped, its result is all that there is.
pub proof fn lemma_filter_mapped_one<A, B>(s: Seq<A>, f: spec_fn(A) -> Option<B>, i: int)
    requires
        0 <= i < s.len(),
        f(s[i]) is Some,
        forall|j: int| 0 <= j < s.len() && j != i ==> f(#[trigger] s[j]) is None,
    ensures
        filter_mapped(s, f) == seq![f(s[i])->0],
    decreases s.len(),
{
    let init = s.drop_last();
    if i == s.len() - 1 {
        assert forall|j: int| 0 <= j < init.len() implies f(#[trigger] init[j]) is None by {
            assert(init[j] == s[j]);
        }
        lemma_filter_mapped_empty(init, f);
        assert(filter_mapped(init, f) =~= Seq::<B>::empty());
        assert(filter_mapped(s, f) =~= seq![f(s[i])->0]);
    } else {
        assert forall|j: int| 0 <= j < init.len() && j != i implies f(
            #[trigger] init[j],
        ) is None by {
            assert(init[j] == s[j]);
        }
        assert(init[i] == s[i]);
        lemma_filter_mapped_one(init, f, i);
        assert(f(s[s.len() - 1]) is None);
    }
}

/// Where two items are not dropped, there are two results at least.
pub proof fn lemma_filter_mapped_two<A, B>(s: Seq<A>, f: spec_fn(A) -> Option<B>, i: int, j: int)
    requires
        0 <= i < j < s.len(),
        f(s[i]) is Some,
        f(s[j]) is Some,
    ensures
        filter_mapped(s, f).len() >= 2,
    decreases s.len(),
{
    let init = s.drop_last();
    assert(init[i] == s[i]);
    if j == s.len() - 1 {
        lemma_filter_mapped_keeps(init, f, i);
    } else {
        assert(init[j] == s[j]);
        lemma_filter_mapped_two(init, f, i, j);
    }
}

/// Two lists, one behind the other.
pub proof fn lemma_filter_mapped_concat<A, B>(s: Seq<A>, t: Seq<A>, f: spec_fn(A) -> Option<B>)
    ensures
        filter_mapped(s + t, f) == filter_mapped(s, f) + filter_mapped(t, f),
    decreases t.len(),
{
    if t.len() == 0 {
        assert(s + t =~= s);
        assert(filter_mapped(s, f) + filter_mapped(t, f) =~= filter_mapped(s, f));
    } else {
        assert((s + t).drop_last() =~= s + t.drop_last());
        assert((s + t).last() == t.last());
        lemma_filter_mapped_concat(s, t.drop_last(), f);
        let rest = filter_mapped(t.drop_last(), f);
        match f(t.last()) {
            Some(b) => {
                assert(filter_mapped(s, f) + rest.push(b) =~= (filter_mapped(s, f) + rest).push(b));
            },
            None => {},
        }
    }
}

/// The places that the results come from, in order.
pub proof fn lemma_filter_mapped_places<A, B>(s: Seq<A>, f: spec_fn(A) -> Option<B>) -> (places:
    Seq<int>)
    ensures
        places.len() == filter_mapped(s, f).len(),
        forall|k: int|
            0 <= k < places.len() ==> 0 <= #[trigger] places[k] < s.len() && f(s[places[k]])
                == Some(filter_mapped(s, f)[k]),
        forall|k: int, l: int|
            0 <= k < l < places.len() ==> #[trigger] places[k] < #[trigger] places[l],
    decreases s.len(),
{
    if s.len() == 0 {
        Seq::empty()
    } else {
        let init = s.drop_last();
        let before = lemma_filter_mapped_places(init, f);
        assert forall|k: int| 0 <= k < before.len() implies 0 <= #[trigger] before[k] < s.len()
            && f(s[before[k]]) == Some(filter_mapped(init, f)[k]) by {
            assert(init[before[k]] == s[before[k]]);
        }
        match f(s.last()) {
            Some(_) => before.push(s.len() - 1),
            None => before,
        }
    }
}

} // verus!
