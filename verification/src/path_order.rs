//! The order of paths: by their components, one after the other.

use vstd::prelude::*;

use crate::path::{
    components, components_of, current_component, parent_component, paths_equal, root_component,
    same_path,
};
use crate::text::{chars_of, same_text, texts};

verus! {

/// One text comes before another: at the first place where they differ it has the
/// smaller character, or it ends there.
pub open spec fn text_before(a: Seq<char>, b: Seq<char>) -> bool
    decreases a.len(),
{
    if b.len() == 0 {
        false
    } else if a.len() == 0 {
        true
    } else if a[0] != b[0] {
        a[0] < b[0]
    } else {
        text_before(a.skip(1), b.skip(1))
    }
}

/// The root comes before the current directory, that before the parent directory, and
/// that before every name.
pub open spec fn component_rank(c: Seq<char>) -> int {
    if c == root_component() {
        0
    } else if c == current_component() {
        1
    } else if c == parent_component() {
        2
    } else {
        3
    }
}

/// One component comes before another.
pub open spec fn component_before(a: Seq<char>, b: Seq<char>) -> bool {
    if component_rank(a) != component_rank(b) {
        component_rank(a) < component_rank(b)
    } else {
        text_before(a, b)
    }
}

/// One row of components comes before another.
pub open spec fn components_before(a: Seq<Seq<char>>, b: Seq<Seq<char>>) -> bool
    decreases a.len(),
{
    if b.len() == 0 {
        false
    } else if a.len() == 0 {
        true
    } else if a[0] != b[0] {
        component_before(a[0], b[0])
    } else {
        components_before(a.skip(1), b.skip(1))
    }
}

/// One path comes before another.
pub open spec fn path_before(a: Seq<char>, b: Seq<char>) -> bool {
    components_before(components_of(a), components_of(b))
}

/// Whether one text comes before another.
fn text_precedes(a: &str, b: &str) -> (r: bool)
    ensures
        r == text_before(a@, b@),
{
    let left = chars_of(a);
    let right = chars_of(b);
    let mut i: usize = 0;
    proof {
        assert(a@.skip(0) =~= a@);
        assert(b@.skip(0) =~= b@);
    }
    while i < left.len() && i < right.len()
        invariant
            i <= left@.len(),
            i <= right@.len(),
            left@ == a@,
            right@ == b@,
            text_before(a@, b@) == text_before(a@.skip(i as int), b@.skip(i as int)),
        decreases left@.len() - i,
    {
        proof {
            assert(a@.skip(i as int)[0] == a@[i as int]);
            assert(b@.skip(i as int)[0] == b@[i as int]);
            assert(a@.skip(i as int).skip(1) =~= a@.skip(i + 1));
            assert(b@.skip(i as int).skip(1) =~= b@.skip(i + 1));
        }
        if left[i] != right[i] {
            return left[i] < right[i];
        }
        i += 1;
    }
    i < right.len()
}

/// The rank of a component.
fn rank(c: &str) -> (r: u8)
    ensures
        r == component_rank(c@),
{
    proof {
        reveal_strlit(".");
        reveal_strlit("..");
        reveal_strlit("/");
        assert("."@ =~= current_component());
        assert(".."@ =~= parent_component());
        assert("/"@ =~= root_component());
    }
    if same_text(c, "/") {
        0
    } else if same_text(c, ".") {
        1
    } else if same_text(c, "..") {
        2
    } else {
        3
    }
}

/// Whether one component comes before another.
fn component_precedes(a: &str, b: &str) -> (r: bool)
    ensures
        r == component_before(a@, b@),
{
    let left: u8 = rank(a);
    let right: u8 = rank(b);
    if left != right {
        left < right
    } else {
        text_precedes(a, b)
    }
}

/// Whether one path comes before another.
pub fn path_precedes(a: &str, b: &str) -> (r: bool)
    ensures
        r == path_before(a@, b@),
{
    let left = components(a);
    let right = components(b);
    let ghost x = components_of(a@);
    let ghost y = components_of(b@);
    let mut i: usize = 0;
    proof {
        assert(x.skip(0) =~= x);
        assert(y.skip(0) =~= y);
        assert(texts(left@).len() == left@.len());
        assert(texts(right@).len() == right@.len());
    }
    while i < left.len() && i < right.len()
        invariant
            i <= left@.len(),
            i <= right@.len(),
            x == components_of(a@),
            y == components_of(b@),
            x == texts(left@),
            y == texts(right@),
            x.len() == left@.len(),
            y.len() == right@.len(),
            components_before(x, y) == components_before(x.skip(i as int), y.skip(i as int)),
        decreases left@.len() - i,
    {
        proof {
            assert(x.skip(i as int)[0] == left@[i as int]@);
            assert(y.skip(i as int)[0] == right@[i as int]@);
            assert(x.skip(i as int).skip(1) =~= x.skip(i + 1));
            assert(y.skip(i as int).skip(1) =~= y.skip(i + 1));
        }
        if !same_text(left[i].as_str(), right[i].as_str()) {
            return component_precedes(left[i].as_str(), right[i].as_str());
        }
        i += 1;
    }
    i < right.len()
}

/// The list with a path put in its place, looked for from the `i`th place on. A path
/// that the list has already is not put in again.
pub open spec fn placed(list: Seq<Seq<char>>, path: Seq<char>, i: int) -> Seq<Seq<char>>
    decreases list.len() - i,
{
    if i < 0 || i >= list.len() {
        list.push(path)
    } else if same_path(list[i], path) {
        list
    } else if path_before(path, list[i]) {
        list.insert(i, path)
    } else {
        placed(list, path, i + 1)
    }
}

/// The paths of a list in order, each once.
pub open spec fn ordered(paths: Seq<Seq<char>>) -> Seq<Seq<char>>
    decreases paths.len(),
{
    if paths.len() == 0 {
        Seq::empty()
    } else {
        placed(ordered(paths.drop_last()), paths.last(), 0)
    }
}

/// Puts a path in its place.
fn place(list: &mut Vec<String>, path: &str)
    ensures
        texts(final(list)@) == placed(texts(old(list)@), path@, 0),
{
    let ghost before = texts(list@);
    let mut i: usize = 0;
    while i < list.len()
        invariant
            i <= list@.len(),
            list@ == old(list)@,
            before == texts(list@),
            placed(before, path@, 0) == placed(before, path@, i as int),
        decreases list@.len() - i,
    {
        proof {
            assert(before[i as int] == list@[i as int]@);
        }
        if paths_equal(list[i].as_str(), path) {
            return;
        }
        if path_precedes(path, list[i].as_str()) {
            list.insert(i, path.to_owned());
            proof {
                assert(texts(list@) =~= before.insert(i as int, path@));
            }
            return;
        }
        i += 1;
    }
    list.push(path.to_owned());
    proof {
        assert(texts(list@) =~= before.push(path@));
    }
}

/// Sorts paths, and drops those that are the same as an earlier one.
pub fn sort_paths(paths: &Vec<String>) -> (r: Vec<String>)
    ensures
        texts(r@) == ordered(texts(paths@)),
{
    let mut list: Vec<String> = Vec::new();
    let mut i: usize = 0;
    let ghost all = texts(paths@);
    proof {
        assert(all.take(0) =~= Seq::<Seq<char>>::empty());
        assert(texts(list@) =~= Seq::<Seq<char>>::empty());
    }
    while i < paths.len()
        invariant
            i <= paths@.len(),
            all == texts(paths@),
            texts(list@) == ordered(all.take(i as int)),
        decreases paths@.len() - i,
    {
        proof {
            assert(all.take(i + 1).drop_last() =~= all.take(i as int));
            assert(all.take(i + 1).last() == paths@[i as int]@);
        }
        place(&mut list, paths[i].as_str());
        i += 1;
    }
    proof {
        assert(all.take(all.len() as int) =~= all);
    }
    list
}

proof fn lemma_text_order(a: Seq<char>, b: Seq<char>, c: Seq<char>)
    ensures
        !text_before(a, a),
        a == b || text_before(a, b) || text_before(b, a),
        text_before(a, b) && text_before(b, c) ==> text_before(a, c),
    decreases a.len(),
{
    if a.len() > 0 {
        lemma_text_order(a.skip(1), a.skip(1), a.skip(1));
    }
    if a.len() == 0 && b.len() == 0 {
        assert(a =~= b);
    }
    if a.len() > 0 && b.len() > 0 {
        if a[0] == b[0] {
            lemma_text_order(a.skip(1), b.skip(1), c.skip(1));
            if a.skip(1) == b.skip(1) {
                assert(a =~= seq![a[0]] + a.skip(1));
                assert(b =~= seq![b[0]] + b.skip(1));
            }
        }
    }
}

proof fn lemma_component_order(a: Seq<char>, b: Seq<char>, c: Seq<char>)
    ensures
        !component_before(a, a),
        a == b || component_before(a, b) || component_before(b, a),
        component_before(a, b) && component_before(b, c) ==> component_before(a, c),
{
    lemma_text_order(a, b, c);
}

proof fn lemma_components_order(a: Seq<Seq<char>>, b: Seq<Seq<char>>, c: Seq<Seq<char>>)
    ensures
        !components_before(a, a),
        a == b || components_before(a, b) || components_before(b, a),
        components_before(a, b) && components_before(b, c) ==> components_before(a, c),
    decreases a.len(),
{
    if a.len() > 0 {
        lemma_components_order(a.skip(1), a.skip(1), a.skip(1));
    }
    if a.len() == 0 && b.len() == 0 {
        assert(a =~= b);
    }
    if a.len() > 0 && b.len() > 0 {
        if a[0] == b[0] {
            lemma_components_order(a.skip(1), b.skip(1), c.skip(1));
            if a.skip(1) == b.skip(1) {
                assert(a =~= seq![a[0]] + a.skip(1));
                assert(b =~= seq![b[0]] + b.skip(1));
            }
        }
        if c.len() > 0 {
            lemma_component_order(a[0], b[0], c[0]);
            lemma_component_order(b[0], a[0], a[0]);
        } else {
            lemma_component_order(a[0], b[0], a[0]);
        }
    }
}

/// Of two paths that are not the same exactly one comes before the other; a path that
/// comes before another comes before all that the other comes before.
pub proof fn law_paths_are_totally_ordered(a: Seq<char>, b: Seq<char>, c: Seq<char>)
    ensures
        same_path(a, b) <==> !path_before(a, b) && !path_before(b, a),
        !(path_before(a, b) && path_before(b, a)),
        path_before(a, b) && path_before(b, c) ==> path_before(a, c),
{
    let (x, y, z) = (components_of(a), components_of(b), components_of(c));
    lemma_components_order(x, y, z);
    lemma_components_order(x, y, x);
    lemma_components_order(y, x, y);
}

/// Each path of the list comes before the next ones.
pub open spec fn increasing(list: Seq<Seq<char>>) -> bool {
    forall|i: int, j: int|
        0 <= i < j < list.len() ==> path_before(#[trigger] list[i], #[trigger] list[j])
}

/// The list has the path.
pub open spec fn has_path(list: Seq<Seq<char>>, path: Seq<char>) -> bool {
    exists|i: int| 0 <= i < list.len() && same_path(#[trigger] list[i], path)
}

proof fn lemma_placed(list: Seq<Seq<char>>, path: Seq<char>, i: int)
    requires
        increasing(list),
        0 <= i <= list.len(),
        forall|j: int| 0 <= j < i ==> path_before(#[trigger] list[j], path),
    ensures
        increasing(placed(list, path, i)),
        has_path(placed(list, path, i), path),
        forall|p: Seq<char>|
            #![trigger has_path(placed(list, path, i), p)]
            has_path(placed(list, path, i), p) <==> has_path(list, p) || same_path(path, p),
    decreases list.len() - i,
{
    let out = placed(list, path, i);
    if i == list.len() {
        assert(out =~= list.push(path));
        assert(out[list.len() as int] == path);
        assert forall|p: Seq<char>|
            #![trigger has_path(out, p)]
            has_path(out, p) <==> has_path(list, p) || same_path(path, p) by {
            if has_path(list, p) {
                let k = choose|k: int| 0 <= k < list.len() && same_path(#[trigger] list[k], p);
                assert(out[k] == list[k]);
            }
            if has_path(out, p) {
                let k = choose|k: int| 0 <= k < out.len() && same_path(#[trigger] out[k], p);
                if k < list.len() {
                    assert(list[k] == out[k]);
                }
            }
        }
    } else if same_path(list[i], path) {
        assert(has_path(list, path));
        assert forall|p: Seq<char>|
            #![trigger has_path(out, p)]
            has_path(out, p) <==> has_path(list, p) || same_path(path, p) by {
            if same_path(path, p) {
                assert(same_path(list[i], p));
            }
        }
    } else if path_before(path, list[i]) {
        assert(out =~= list.insert(i, path));
        assert(out[i] == path);
        assert forall|a: int, b: int| 0 <= a < b < out.len() implies path_before(
            #[trigger] out[a],
            #[trigger] out[b],
        ) by {
            if b == i {
                assert(out[a] == list[a]);
            } else if a == i {
                assert(out[b] == list[b - 1]);
                if b - 1 > i {
                    law_paths_are_totally_ordered(path, list[i], list[b - 1]);
                }
            } else {
                let x = if a < i {
                    a
                } else {
                    a - 1
                };
                let y = if b < i {
                    b
                } else {
                    b - 1
                };
                assert(out[a] == list[x]);
                assert(out[b] == list[y]);
            }
        }
        assert forall|p: Seq<char>|
            #![trigger has_path(out, p)]
            has_path(out, p) <==> has_path(list, p) || same_path(path, p) by {
            if has_path(list, p) {
                let k = choose|k: int| 0 <= k < list.len() && same_path(#[trigger] list[k], p);
                if k < i {
                    assert(out[k] == list[k]);
                } else {
                    assert(out[k + 1] == list[k]);
                }
            }
            if has_path(out, p) {
                let k = choose|k: int| 0 <= k < out.len() && same_path(#[trigger] out[k], p);
                if k < i {
                    assert(list[k] == out[k]);
                } else if k > i {
                    assert(list[k - 1] == out[k]);
                }
            }
        }
    } else {
        law_paths_are_totally_ordered(list[i], path, path);
        lemma_placed(list, path, i + 1);
    }
}

/// Ordering a list of paths leaves each in it once, in order, and no others.
pub proof fn law_ordered_paths(paths: Seq<Seq<char>>)
    ensures
        increasing(ordered(paths)),
        forall|p: Seq<char>| #[trigger] has_path(ordered(paths), p) <==> has_path(paths, p),
    decreases paths.len(),
{
    if paths.len() > 0 {
        let rest = paths.drop_last();
        law_ordered_paths(rest);
        lemma_placed(ordered(rest), paths.last(), 0);
        assert forall|p: Seq<char>| #[trigger] has_path(ordered(paths), p) <==> has_path(
            paths,
            p,
        ) by {
            assert(has_path(ordered(rest), p) <==> has_path(rest, p));
            if has_path(rest, p) {
                let k = choose|k: int| 0 <= k < rest.len() && same_path(#[trigger] rest[k], p);
                assert(paths[k] == rest[k]);
            }
            if has_path(paths, p) {
                let k = choose|k: int| 0 <= k < paths.len() && same_path(#[trigger] paths[k], p);
                if k < rest.len() {
                    assert(rest[k] == paths[k]);
                }
            }
            assert(paths[paths.len() - 1] == paths.last());
        }
    }
}

/// Texts are ordered by the first character in which they differ, and a text comes before
/// every longer one that begins with it.
pub proof fn law_texts_differ_at_one_character(
    common: Seq<char>,
    x: char,
    a: Seq<char>,
    y: char,
    b: Seq<char>,
)
    requires
        x != y,
    ensures
        text_before(common + seq![x] + a, common + seq![y] + b) <==> (x as int) < (y as int),
        text_before(common, common + seq![x] + a),
        !text_before(common + seq![x] + a, common),
    decreases common.len(),
{
    let left = common + seq![x] + a;
    let right = common + seq![y] + b;
    if common.len() > 0 {
        let rest = common.skip(1);
        law_texts_differ_at_one_character(rest, x, a, y, b);
        assert(left.skip(1) =~= rest + seq![x] + a);
        assert(right.skip(1) =~= rest + seq![y] + b);
        assert(left[0] == common[0] && right[0] == common[0]);
    }
}

/// Components are ordered as the root, the current directory, the parent directory, and
/// then the names by their texts.
pub proof fn law_special_components_come_first(a: Seq<char>, b: Seq<char>)
    ensures
        component_before(seq!['/'], seq!['.']),
        component_before(seq!['.'], seq!['.', '.']),
        a != seq!['/'] && a != seq!['.'] && a != seq!['.', '.'] ==> component_before(
            seq!['.', '.'],
            a,
        ),
        a != seq!['/'] && a != seq!['.'] && a != seq!['.', '.'] && b != seq!['/'] && b != seq!['.']
            && b != seq!['.', '.'] ==> (component_before(a, b) <==> text_before(a, b)),
{
    assert(seq!['/'][0] == '/');
    assert(seq!['.'][0] == '.');
    assert(seq!['.'].len() != seq!['.', '.'].len());
    assert(seq!['/'].len() != seq!['.', '.'].len());
}

/// Paths are ordered by the first component in which they differ, and a path comes before
/// every longer one that begins with its components.
pub proof fn law_paths_differ_at_one_component(
    common: Seq<Seq<char>>,
    x: Seq<char>,
    a: Seq<Seq<char>>,
    y: Seq<char>,
    b: Seq<Seq<char>>,
)
    requires
        x != y,
    ensures
        components_before(common + seq![x] + a, common + seq![y] + b) <==> component_before(x, y),
        components_before(common, common + seq![x] + a),
        !components_before(common + seq![x] + a, common),
        forall|p: Seq<char>, q: Seq<char>| #[trigger]
            path_before(p, q) <==> components_before(components_of(p), components_of(q)),
    decreases common.len(),
{
    let left = common + seq![x] + a;
    let right = common + seq![y] + b;
    if common.len() > 0 {
        let rest = common.skip(1);
        law_paths_differ_at_one_component(rest, x, a, y, b);
        assert(left.skip(1) =~= rest + seq![x] + a);
        assert(right.skip(1) =~= rest + seq![y] + b);
        assert(left[0] == common[0] && right[0] == common[0]);
    }
}

proof fn lemma_placed_is_given(list: Seq<Seq<char>>, path: Seq<char>, i: int, k: int)
    requires
        0 <= i <= list.len(),
        0 <= k < placed(list, path, i).len(),
    ensures
        placed(list, path, i)[k] == path || list.contains(placed(list, path, i)[k]),
    decreases list.len() - i,
{
    let out = placed(list, path, i);
    if i == list.len() {
        if k < list.len() {
            assert(out[k] == list[k]);
        }
    } else if same_path(list[i], path) {
    } else if path_before(path, list[i]) {
        if k < i {
            assert(out[k] == list[k]);
        } else if k > i {
            assert(out[k] == list[k - 1]);
        }
    } else {
        lemma_placed_is_given(list, path, i + 1, k);
    }
}

/// Ordering makes up no paths: each that comes out went in, as it is written.
pub proof fn law_ordered_paths_are_given(paths: Seq<Seq<char>>, k: int)
    requires
        0 <= k < ordered(paths).len(),
    ensures
        paths.contains(ordered(paths)[k]),
    decreases paths.len(),
{
    let rest = paths.drop_last();
    let before = ordered(rest);
    lemma_placed_is_given(before, paths.last(), 0, k);
    let path = ordered(paths)[k];
    if path == paths.last() {
        assert(paths[paths.len() - 1] == path);
    } else {
        let j = choose|j: int| 0 <= j < before.len() && before[j] == path;
        law_ordered_paths_are_given(rest, j);
        let i = choose|i: int| 0 <= i < rest.len() && rest[i] == path;
        assert(paths[i] == path);
    }
}

proof fn lemma_placed_again(list: Seq<Seq<char>>, path: Seq<char>, i: int, k: int)
    requires
        increasing(list),
        0 <= i <= k < list.len(),
        same_path(list[k], path),
    ensures
        placed(list, path, i) == list,
    decreases k - i,
{
    if !same_path(list[i], path) {
        law_paths_are_totally_ordered(path, list[i], list[k]);
        law_paths_are_totally_ordered(path, list[k], list[k]);
        lemma_placed_again(list, path, i + 1, k);
    }
}

proof fn lemma_placed_adds(list: Seq<Seq<char>>, path: Seq<char>, i: int)
    requires
        0 <= i <= list.len(),
        forall|k: int| 0 <= k < list.len() ==> !same_path(#[trigger] list[k], path),
    ensures
        placed(list, path, i).len() == list.len() + 1,
        placed(list, path, i).contains(path),
    decreases list.len() - i,
{
    let out = placed(list, path, i);
    if i == list.len() {
        assert(out[i] == path);
    } else {
        assert(!same_path(list[i], path));
        if path_before(path, list[i]) {
            assert(out[i] == path);
        } else {
            lemma_placed_adds(list, path, i + 1);
        }
    }
}

/// A path more is put in, unless the same path is there: then the one that came first
/// stays, as it is written.
pub proof fn law_path_that_comes_first_stays(paths: Seq<Seq<char>>, path: Seq<char>)
    ensures
        ordered(Seq::empty()).len() == 0,
        has_path(paths, path) ==> ordered(paths.push(path)) == ordered(paths),
        !has_path(paths, path) ==> ordered(paths.push(path)).contains(path) && ordered(
            paths.push(path),
        ).len() == ordered(paths).len() + 1,
{
    let list = ordered(paths);
    assert(paths.push(path).drop_last() =~= paths);
    law_ordered_paths(paths);
    assert(has_path(list, path) <==> has_path(paths, path));
    if has_path(paths, path) {
        let k = choose|k: int| 0 <= k < list.len() && same_path(#[trigger] list[k], path);
        lemma_placed_again(list, path, 0, k);
    } else {
        lemma_placed_adds(list, path, 0);
    }
}

/// Each path that comes out is written as the first of those that are the same.
pub proof fn law_first_spelling_is_kept(paths: Seq<Seq<char>>, k: int) -> (i: int)
    requires
        0 <= k < ordered(paths).len(),
    ensures
        0 <= i < paths.len(),
        paths[i] == ordered(paths)[k],
        forall|j: int| 0 <= j < i ==> !same_path(#[trigger] paths[j], paths[i]),
    decreases paths.len(),
{
    let rest = paths.drop_last();
    let last = paths.last();
    assert(rest.push(last) =~= paths);
    law_path_that_comes_first_stays(rest, last);
    lemma_placed_is_given(ordered(rest), last, 0, k);
    let path = ordered(paths)[k];
    if ordered(rest).contains(path) {
        let m = choose|m: int| 0 <= m < ordered(rest).len() && ordered(rest)[m] == path;
        let i = law_first_spelling_is_kept(rest, m);
        assert forall|j: int| 0 <= j < i implies !same_path(#[trigger] paths[j], paths[i]) by {
            assert(paths[j] == rest[j]);
        }
        i
    } else {
        let i = paths.len() - 1;
        assert(!has_path(rest, last));
        assert forall|j: int| 0 <= j < i implies !same_path(#[trigger] paths[j], paths[i]) by {
            assert(paths[j] == rest[j]);
        }
        i
    }
}

} // verus!
