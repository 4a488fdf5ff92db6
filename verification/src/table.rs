//! Tables keyed by path.

use vstd::prelude::*;

use crate::list::filter_mapped;
use crate::path::{paths_equal, same_path};
use crate::text::{lemma_texts_push, texts};

verus! {

/// A table from paths to values, in the order in which the paths first came. Paths
/// that are the same share one entry.
#[derive(Clone, Debug, PartialEq, Eq)]
pub struct PathTable<V> {
    pub entries: Vec<(String, V)>,
}

impl<V: View> View for PathTable<V> {
    type V = Seq<(Seq<char>, V::V)>;

    open spec fn view(&self) -> Seq<(Seq<char>, V::V)> {
        self.entries@.map_values(|e: (String, V)| (e.0@, e.1@))
    }
}

/// The first entry for a path, at `from` or later.
pub open spec fn position<T>(t: Seq<(Seq<char>, T)>, path: Seq<char>, from: int) -> Option<int>
    decreases t.len() - from,
{
    if from < 0 || from >= t.len() {
        None
    } else if same_path(t[from].0, path) {
        Some(from)
    } else {
        position(t, path, from + 1)
    }
}

/// The value for a path.
pub open spec fn lookup<T>(t: Seq<(Seq<char>, T)>, path: Seq<char>) -> Option<T> {
    match position(t, path, 0) {
        Some(i) => Some(t[i].1),
        None => None,
    }
}

/// The table with a value for a path. An entry that is there keeps its place and the
/// path it has.
pub open spec fn inserted<T>(t: Seq<(Seq<char>, T)>, path: Seq<char>, value: T) -> Seq<
    (Seq<char>, T),
> {
    match position(t, path, 0) {
        Some(i) => t.update(i, (t[i].0, value)),
        None => t.push((path, value)),
    }
}

/// The table that a list of pairs makes, put in one after the other.
pub open spec fn collected<T>(pairs: Seq<(Seq<char>, T)>) -> Seq<(Seq<char>, T)>
    decreases pairs.len(),
{
    if pairs.len() == 0 {
        Seq::empty()
    } else {
        inserted(collected(pairs.drop_last()), pairs.last().0, pairs.last().1)
    }
}

/// No two entries are for the same path.
pub open spec fn distinct_paths<T>(t: Seq<(Seq<char>, T)>) -> bool {
    forall|i: int, j: int|
        0 <= i < j < t.len() ==> !same_path((#[trigger] t[i]).0, (#[trigger] t[j]).0)
}

/// What a found entry means.
pub proof fn lemma_position<T>(t: Seq<(Seq<char>, T)>, path: Seq<char>, from: int)
    requires
        0 <= from,
    ensures
        match position(t, path, from) {
            Some(i) => from <= i < t.len() && same_path(t[i].0, path) && forall|j: int|
                from <= j < i ==> !same_path((#[trigger] t[j]).0, path),
            None => forall|j: int| from <= j < t.len() ==> !same_path((#[trigger] t[j]).0, path),
        },
    decreases t.len() - from,
{
    if from < t.len() && !same_path(t[from].0, path) {
        lemma_position(t, path, from + 1);
    }
}

impl<V: View> PathTable<V> {
    /// The empty table.
    pub fn new() -> (r: Self)
        ensures
            r@ == Seq::<(Seq<char>, V::V)>::empty(),
            distinct_paths(r@),
    {
        let r = PathTable { entries: Vec::new() };
        proof {
            assert(r@ =~= Seq::<(Seq<char>, V::V)>::empty());
        }
        r
    }

    /// The place of the entry for a path.
    pub fn find(&self, path: &str) -> (r: Option<usize>)
        ensures
            match r {
                Some(i) => position(self@, path@, 0) == Some(i as int) && i < self.entries@.len(),
                None => position(self@, path@, 0) == None::<int>,
            },
    {
        let mut i: usize = 0;
        while i < self.entries.len()
            invariant
                i <= self.entries@.len(),
                position(self@, path@, 0) == position(self@, path@, i as int),
            decreases self.entries@.len() - i,
        {
            proof {
                assert(self@[i as int].0 == self.entries@[i as int].0@);
            }
            if paths_equal(self.entries[i].0.as_str(), path) {
                return Some(i);
            }
            i += 1;
        }
        None
    }

    /// The value for a path.
    pub fn get(&self, path: &str) -> (r: Option<&V>)
        ensures
            match r {
                Some(v) => {
                    &&& lookup(self@, path@) == Some(v@)
                    &&& position(self@, path@, 0) matches Some(i) && *v == self.entries@[i].1
                },
                None => lookup(self@, path@) == None::<V::V>,
            },
    {
        match self.find(path) {
            Some(i) => {
                proof {
                    assert(self@[i as int].1 == self.entries@[i as int].1@);
                }
                Some(&self.entries[i].1)
            },
            None => None,
        }
    }

    /// Whether there is a value for a path.
    pub fn contains(&self, path: &str) -> (r: bool)
        ensures
            r == (lookup(self@, path@) is Some),
    {
        self.find(path).is_some()
    }

    /// The paths that there are values for.
    pub fn paths(&self) -> (r: Vec<String>)
        ensures
            texts(r@) == self@.map_values(|e: (Seq<char>, V::V)| e.0),
    {
        broadcast use lemma_texts_push;

        let ghost all = self@.map_values(|e: (Seq<char>, V::V)| e.0);
        let mut out: Vec<String> = Vec::new();
        let mut i: usize = 0;
        proof {
            assert(texts(out@) =~= all.take(0));
        }
        while i < self.entries.len()
            invariant
                i <= self.entries@.len(),
                all == self@.map_values(|e: (Seq<char>, V::V)| e.0),
                texts(out@) == all.take(i as int),
            decreases self.entries@.len() - i,
        {
            proof {
                assert(all[i as int] == self.entries@[i as int].0@);
                assert(all.take(i + 1) =~= all.take(i as int).push(all[i as int]));
            }
            out.push(self.entries[i].0.clone());
            i += 1;
        }
        proof {
            assert(all.take(all.len() as int) =~= all);
        }
        out
    }

    /// Puts in a value for a path.
    pub fn insert(&mut self, path: String, value: V)
        ensures
            final(self)@ == inserted(old(self)@, path@, value@),
            distinct_paths(old(self)@) ==> distinct_paths(final(self)@),
    {
        let ghost before = self@;
        match self.find(path.as_str()) {
            Some(i) => {
                let kept = self.entries[i].0.clone();
                self.entries[i] = (kept, value);
                proof {
                    assert(before[i as int].0 == kept@);
                    assert(self@ =~= before.update(i as int, (before[i as int].0, value@)));
                }
            },
            None => {
                self.entries.push((path, value));
                proof {
                    assert(self@ =~= before.push((path@, value@)));
                }
            },
        }
        proof {
            if distinct_paths(before) {
                law_insert_keeps_paths_distinct(before, path@, value@);
            }
        }
    }
}

/// What was put in for a path is found for it and for every path that is the same;
/// nothing changes for the others.
pub proof fn law_insert_then_lookup<T>(
    t: Seq<(Seq<char>, T)>,
    path: Seq<char>,
    value: T,
    other: Seq<char>,
)
    ensures
        lookup(inserted(t, path, value), other) == if same_path(path, other) {
            Some(value)
        } else {
            lookup(t, other)
        },
{
    let u = inserted(t, path, value);
    lemma_position(t, path, 0);
    lemma_position(t, other, 0);
    lemma_position(u, other, 0);
    match position(t, path, 0) {
        Some(i) => {
            assert forall|j: int| 0 <= j < t.len() implies (#[trigger] u[j]).0 == t[j].0 by {}
            if same_path(path, other) {
                assert(u[i].0 == t[i].0);
                assert(same_path(u[i].0, other));
                let k = position(u, other, 0)->0;
                if k < i {
                    assert(same_path(t[k].0, path));
                }
            } else {
                match position(t, other, 0) {
                    Some(k) => {
                        assert(u[k].0 == t[k].0);
                        let m = position(u, other, 0)->0;
                        assert(u[m].0 == t[m].0);
                    },
                    None => {
                        if position(u, other, 0) is Some {
                            let m = position(u, other, 0)->0;
                            assert(same_path(t[m].0, other));
                        }
                    },
                }
            }
        },
        None => {
            let n = t.len() as int;
            assert(u[n] == (path, value));
            assert forall|j: int| 0 <= j < t.len() implies (#[trigger] u[j]) == t[j] by {}
            match position(u, other, 0) {
                Some(m) => {
                    if m < n {
                        assert(same_path(t[m].0, other));
                        let k = position(t, other, 0)->0;
                        assert(u[k] == t[k]);
                    } else if position(t, other, 0) is Some {
                        let k = position(t, other, 0)->0;
                        assert(u[k] == t[k]);
                    }
                },
                None => {
                    if position(t, other, 0) is Some {
                        let k = position(t, other, 0)->0;
                        assert(u[k] == t[k]);
                    }
                },
            }
        },
    }
}

/// Putting in a value keeps the paths distinct.
pub proof fn law_insert_keeps_paths_distinct<T>(
    t: Seq<(Seq<char>, T)>,
    path: Seq<char>,
    value: T,
)
    requires
        distinct_paths(t),
    ensures
        distinct_paths(inserted(t, path, value)),
{
    let u = inserted(t, path, value);
    lemma_position(t, path, 0);
    assert forall|i: int, j: int| 0 <= i < j < u.len() implies !same_path(
        (#[trigger] u[i]).0,
        (#[trigger] u[j]).0,
    ) by {
        if j < t.len() {
            assert(u[i].0 == t[i].0);
            assert(u[j].0 == t[j].0);
        } else {
            assert(u[i].0 == t[i].0);
            assert(u[j].0 == path);
        }
    }
}

/// A table that was put together has distinct paths.
pub proof fn law_collected_paths_are_distinct<T>(pairs: Seq<(Seq<char>, T)>)
    ensures
        distinct_paths(collected(pairs)),
    decreases pairs.len(),
{
    if pairs.len() > 0 {
        law_collected_paths_are_distinct(pairs.drop_last());
        law_insert_keeps_paths_distinct(
            collected(pairs.drop_last()),
            pairs.last().0,
            pairs.last().1,
        );
    }
}

/// The last pair of a list that is for a path.
pub open spec fn last_value<T>(pairs: Seq<(Seq<char>, T)>, path: Seq<char>) -> Option<T>
    decreases pairs.len(),
{
    if pairs.len() == 0 {
        None
    } else if same_path(pairs.last().0, path) {
        Some(pairs.last().1)
    } else {
        last_value(pairs.drop_last(), path)
    }
}

/// Of the pairs for one path the last one counts.
pub proof fn law_last_pair_wins<T>(pairs: Seq<(Seq<char>, T)>, path: Seq<char>)
    ensures
        lookup(collected(pairs), path) == last_value(pairs, path),
    decreases pairs.len(),
{
    if pairs.len() > 0 {
        law_last_pair_wins(pairs.drop_last(), path);
        law_insert_then_lookup(
            collected(pairs.drop_last()),
            pairs.last().0,
            pairs.last().1,
            path,
        );
    }
}

/// In a table with distinct paths every entry is found by its path.
pub proof fn lemma_entry_is_found<T>(t: Seq<(Seq<char>, T)>, i: int)
    requires
        distinct_paths(t),
        0 <= i < t.len(),
    ensures
        position(t, t[i].0, 0) == Some(i),
        lookup(t, t[i].0) == Some(t[i].1),
{
    lemma_position(t, t[i].0, 0);
}

/// Paths that are the same are looked up alike.
pub proof fn lemma_lookup_by_same_path<T>(t: Seq<(Seq<char>, T)>, a: Seq<char>, b: Seq<char>)
    requires
        same_path(a, b),
    ensures
        lookup(t, a) == lookup(t, b),
{
    lemma_position(t, a, 0);
    lemma_position(t, b, 0);
}

/// What counts for a path comes from a pair for it, and every pair for it counts or is
/// overridden.
pub proof fn lemma_last_value<T>(pairs: Seq<(Seq<char>, T)>, path: Seq<char>)
    ensures
        match last_value(pairs, path) {
            Some(value) => exists|k: int|
                0 <= k < pairs.len() && same_path((#[trigger] pairs[k]).0, path) && pairs[k].1
                    == value,
            None => forall|k: int|
                0 <= k < pairs.len() ==> !same_path((#[trigger] pairs[k]).0, path),
        },
    decreases pairs.len(),
{
    if pairs.len() > 0 {
        let rest = pairs.drop_last();
        let end = pairs.len() - 1;
        if same_path(pairs.last().0, path) {
            assert(same_path(pairs[end].0, path));
        } else {
            lemma_last_value(rest, path);
            match last_value(rest, path) {
                Some(value) => {
                    let k = choose|k: int|
                        0 <= k < rest.len() && same_path((#[trigger] rest[k]).0, path) && rest[k].1
                            == value;
                    assert(pairs[k] == rest[k]);
                },
                None => {
                    assert forall|k: int| 0 <= k < pairs.len() implies !same_path(
                        (#[trigger] pairs[k]).0,
                        path,
                    ) by {
                        if k < end {
                            assert(rest[k] == pairs[k]);
                        }
                    }
                },
            }
        }
    }
}

/// The entry is for the path.
pub open spec fn is_for<T>(entry: Option<(Seq<char>, T)>, path: Seq<char>) -> bool {
    entry matches Some((p, _)) && same_path(p, path)
}

/// In a table that is put together from lines, the last line for a path counts, and a
/// path has no value exactly where no line is for it.
pub proof fn lemma_last_line_counts<A, T>(
    lines: Seq<A>,
    f: spec_fn(A) -> Option<(Seq<char>, T)>,
    path: Seq<char>,
)
    ensures
        match lookup(collected(filter_mapped(lines, f)), path) {
            Some(value) => exists|i: int|
                #![trigger lines[i]]
                0 <= i < lines.len() && is_for(f(lines[i]), path) && (f(lines[i]) matches Some(
                    (_, v),
                ) && v == value) && forall|j: int|
                    i < j < lines.len() ==> !is_for(f(#[trigger] lines[j]), path),
            None => forall|i: int| 0 <= i < lines.len() ==> !is_for(f(#[trigger] lines[i]), path),
        },
    decreases lines.len(),
{
    if lines.len() > 0 {
        let init = lines.drop_last();
        let end = lines.len() - 1;
        assert forall|i: int| 0 <= i < end implies init[i] == #[trigger] lines[i] by {}
        lemma_last_line_counts(init, f, path);
        let before = filter_mapped(init, f);
        match f(lines.last()) {
            Some((p, v)) => {
                assert(before.push((p, v)).drop_last() =~= before);
                law_insert_then_lookup(collected(before), p, v, path);
                if same_path(p, path) {
                    assert(is_for(f(lines[end]), path));
                }
            },
            None => {},
        }
        if !is_for(f(lines.last()), path) {
            match lookup(collected(before), path) {
                Some(value) => {
                    let i = choose|i: int|
                        #![trigger init[i]]
                        0 <= i < init.len() && is_for(f(init[i]), path) && (f(init[i]) matches Some(
                            (_, v),
                        ) && v == value) && forall|j: int|
                            i < j < init.len() ==> !is_for(f(#[trigger] init[j]), path);
                    assert(lines[i] == init[i]);
                    assert forall|j: int| i < j < lines.len() implies !is_for(
                        f(#[trigger] lines[j]),
                        path,
                    ) by {
                        if j < end {
                            assert(init[j] == lines[j]);
                        }
                    }
                },
                None => {
                    assert forall|i: int| 0 <= i < lines.len() implies !is_for(
                        f(#[trigger] lines[i]),
                        path,
                    ) by {
                        if i < end {
                            assert(init[i] == lines[i]);
                        }
                    }
                },
            }
        }
    }
}

/// A value for a new path comes last. One for a path that is there takes the place of the
/// value there, under the path as it was first written.
pub proof fn law_new_paths_come_last<T>(
    t: Seq<(Seq<char>, T)>,
    path: Seq<char>,
    value: T,
    i: int,
)
    ensures
        (forall|j: int| 0 <= j < t.len() ==> !same_path((#[trigger] t[j]).0, path)) ==> inserted(
            t,
            path,
            value,
        ) == t.push((path, value)),
        0 <= i < t.len() && same_path(t[i].0, path) && (forall|j: int|
            0 <= j < i ==> !same_path((#[trigger] t[j]).0, path)) ==> {
            &&& inserted(t, path, value) == t.update(i, (t[i].0, value))
            &&& lookup(t, path) == Some(t[i].1)
        },
{
    lemma_position(t, path, 0);
}

/// Pairs are put in one by one.
pub proof fn law_pairs_are_put_in_one_by_one<T>(
    pairs: Seq<(Seq<char>, T)>,
    path: Seq<char>,
    value: T,
)
    ensures
        collected(Seq::<(Seq<char>, T)>::empty()).len() == 0,
        collected(pairs.push((path, value))) == inserted(collected(pairs), path, value),
{
    assert(pairs.push((path, value)).drop_last() =~= pairs);
}

/// A line more puts in what it is read as, if it is read.
pub proof fn lemma_line_is_put_in<A, T>(
    lines: Seq<A>,
    line: A,
    f: spec_fn(A) -> Option<(Seq<char>, T)>,
)
    ensures
        collected(filter_mapped(lines.push(line), f)) == match f(line) {
            Some((path, value)) => inserted(collected(filter_mapped(lines, f)), path, value),
            None => collected(filter_mapped(lines, f)),
        },
{
    assert(lines.push(line).drop_last() =~= lines);
    if let Some((path, value)) = f(line) {
        law_pairs_are_put_in_one_by_one(filter_mapped(lines, f), path, value);
    }
}

proof fn lemma_last_value_is_there<T>(pairs: Seq<(Seq<char>, T)>, path: Seq<char>, j: int)
    requires
        0 <= j < pairs.len(),
        same_path(pairs[j].0, path),
    ensures
        last_value(pairs, path) is Some,
    decreases pairs.len(),
{
    if !same_path(pairs.last().0, path) {
        lemma_last_value_is_there(pairs.drop_last(), path, j);
    }
}

/// A table writes each path as the first pair for it does.
pub proof fn law_first_pair_names_the_path<T>(pairs: Seq<(Seq<char>, T)>, k: int) -> (i: int)
    requires
        0 <= k < collected(pairs).len(),
    ensures
        0 <= i < pairs.len(),
        pairs[i].0 == collected(pairs)[k].0,
        forall|j: int| 0 <= j < i ==> !same_path((#[trigger] pairs[j]).0, pairs[i].0),
    decreases pairs.len(),
{
    let rest = pairs.drop_last();
    let before = collected(rest);
    let path = pairs.last().0;
    lemma_position(before, path, 0);
    if k < before.len() {
        let i = law_first_pair_names_the_path(rest, k);
        assert(pairs[i] == rest[i]);
        assert forall|j: int| 0 <= j < i implies !same_path(
            (#[trigger] pairs[j]).0,
            pairs[i].0,
        ) by {
            assert(pairs[j] == rest[j]);
        }
        i
    } else {
        let i = pairs.len() - 1;
        assert forall|j: int| 0 <= j < i implies !same_path(
            (#[trigger] pairs[j]).0,
            pairs[i].0,
        ) by {
            if same_path(pairs[j].0, path) {
                assert(pairs[j] == rest[j]);
                lemma_last_value_is_there(rest, path, j);
                law_last_pair_wins(rest, path);
            }
        }
        i
    }
}

} // verus!
