//! Display paths of renamed files, such as `src/{old => new}.rs`.

use vstd::prelude::*;
use vstd::slice::slice_subrange;

use crate::text::{
    chars_of, find, find_char, find_text, law_split_at_the_first_pattern, lemma_find_char,
    lemma_find_char_at, lemma_find_text, lemma_rfind_char, lemma_split_text, occurs_at,
    pair_option, rfind, rfind_char, split_once, split_text, text_of, trim, trimmed,
};

verus! {

/// What stands on the two sides of an arrow, if there is something on both.
pub open spec fn around_arrow(s: Seq<char>, arrow: Seq<char>) -> Option<(Seq<char>, Seq<char>)> {
    match split_text(s, arrow) {
        Some((left, right)) => if trimmed(left).len() > 0 && trimmed(right).len() > 0 {
            Some((trimmed(left), trimmed(right)))
        } else {
            None
        },
        None => None,
    }
}

/// What stands on the two sides of a double arrow, or else of a single one.
pub open spec fn around_arrows(s: Seq<char>) -> Option<(Seq<char>, Seq<char>)> {
    match around_arrow(s, " => "@) {
        Some(sides) => Some(sides),
        None => around_arrow(s, " -> "@),
    }
}

/// The first opening brace and the last closing one, if they are in that order.
pub open spec fn braces(s: Seq<char>) -> Option<(int, int)> {
    match (find_char(s, '{', 0), rfind_char(s, '}', s.len() as int)) {
        (Some(open), Some(close)) => if close > open {
            Some((open, close))
        } else {
            None
        },
        _ => None,
    }
}

/// The two paths that a display path with a rename in braces stands for.
pub open spec fn around_braced_arrows(s: Seq<char>) -> Option<(Seq<char>, Seq<char>)> {
    match braces(s) {
        Some((open, close)) => match around_arrows(s.subrange(open + 1, close)) {
            Some((left, right)) => Some(
                (
                    s.take(open) + left + s.skip(close + 1),
                    s.take(open) + right + s.skip(close + 1),
                ),
            ),
            None => None,
        },
        None => None,
    }
}

/// The old and the new path that a display path stands for. A path that shows no
/// rename is both.
pub open spec fn display_paths(s: Seq<char>) -> (Seq<char>, Seq<char>) {
    match around_braced_arrows(s) {
        Some(paths) => paths,
        None => match around_arrows(s) {
            Some(paths) => paths,
            None => (s, s),
        },
    }
}

/// Takes apart what stands around an arrow.
fn split_arrow(s: &str, arrow: &str) -> (r: Option<(String, String)>)
    ensures
        pair_option(r) == around_arrow(s@, arrow@),
{
    match split_once(s, arrow) {
        Some((left, right)) => {
            let left = trim(left.as_str());
            let right = trim(right.as_str());
            if !left.as_str().is_empty() && !right.as_str().is_empty() {
                Some((left, right))
            } else {
                None
            }
        },
        None => None,
    }
}

/// Takes apart what stands around the arrow of a rename.
fn split_arrows(s: &str) -> (r: Option<(String, String)>)
    ensures
        pair_option(r) == around_arrows(s@),
{
    let sides = split_arrow(s, " => ");
    if sides.is_some() {
        sides
    } else {
        split_arrow(s, " -> ")
    }
}

/// Takes apart a display path with a rename in braces.
fn split_braced(s: &str) -> (r: Option<(String, String)>)
    ensures
        pair_option(r) == around_braced_arrows(s@),
{
    let chars = chars_of(s);
    let len: usize = chars.len();
    proof {
        lemma_find_char(s@, '{', 0);
        lemma_rfind_char(s@, '}', s@.len() as int);
    }
    match (find(chars.as_slice(), '{', 0), rfind(chars.as_slice(), '}')) {
        (Some(open), Some(close)) => if close > open {
            let prefix = text_of(slice_subrange(chars.as_slice(), 0, open));
            let suffix = text_of(slice_subrange(chars.as_slice(), close + 1, len));
            let inner = text_of(slice_subrange(chars.as_slice(), open + 1, close));
            proof {
                assert(prefix@ =~= s@.take(open as int));
                assert(suffix@ =~= s@.skip(close + 1));
            }
            match split_arrows(inner.as_str()) {
                Some((left, right)) => {
                    let old_path = prefix.clone().concat(left.as_str()).concat(suffix.as_str());
                    let new_path = prefix.concat(right.as_str()).concat(suffix.as_str());
                    Some((old_path, new_path))
                },
                None => None,
            }
        } else {
            None
        },
        _ => None,
    }
}

/// Expands a display path of a rename or move into the old and the new path.
///
/// - `old/path => new/path`
/// - `old/path -> new/path`
/// - `src/{old => new}.rs`
pub fn split_display_path(path: &str) -> (r: (String, String))
    ensures
        (r.0@, r.1@) == display_paths(path@),
{
    match split_braced(path) {
        Some(paths) => paths,
        None => match split_arrows(path) {
            Some(paths) => paths,
            None => (path.to_owned(), path.to_owned()),
        },
    }
}

/// A path with no arrow in it stands for itself.
pub proof fn law_plain_path_is_kept(path: Seq<char>)
    requires
        find_text(path, " => "@, 0) is None,
        find_text(path, " -> "@, 0) is None,
    ensures
        display_paths(path) == (path, path),
{
    match braces(path) {
        Some((open, close)) => {
            lemma_find_char(path, '{', 0);
            lemma_rfind_char(path, '}', path.len() as int);
            let inner = path.subrange(open + 1, close);
            lemma_none_within(path, " => "@, open + 1, close);
            lemma_none_within(path, " -> "@, open + 1, close);
        },
        None => {},
    }
}

/// A part of a text holds no pattern that the text does not hold.
proof fn lemma_none_within(s: Seq<char>, pat: Seq<char>, from: int, to: int)
    requires
        0 <= from <= to <= s.len(),
        find_text(s, pat, 0) is None,
    ensures
        find_text(s.subrange(from, to), pat, 0) is None,
{
    let part = s.subrange(from, to);
    lemma_find_text(s, pat, 0);
    lemma_find_text(part, pat, 0);
    match find_text(part, pat, 0) {
        Some(i) => {
            assert(s.subrange(from + i, from + i + pat.len()) =~= part.subrange(i, i + pat.len()));
            assert(occurs_at(s, pat, from + i));
        },
        None => {},
    }
}

/// `old => new` stands for the two paths, without the whitespace around them, where
/// they are not blank, the arrow between them is the first one, and no braces hold a
/// rename.
pub proof fn law_double_arrow_splits(old_path: Seq<char>, new_path: Seq<char>)
    requires
        trimmed(old_path).len() > 0,
        trimmed(new_path).len() > 0,
        forall|j: int|
            0 <= j < old_path.len() ==> !#[trigger] occurs_at(
                old_path + " => "@ + new_path,
                " => "@,
                j,
            ),
        around_braced_arrows(old_path + " => "@ + new_path) is None,
    ensures
        display_paths(old_path + " => "@ + new_path) == (trimmed(old_path), trimmed(new_path)),
{
    lemma_split_text(old_path, " => "@, new_path);
}

/// `old -> new` stands for the two paths, where moreover no double arrow splits it.
pub proof fn law_single_arrow_splits(old_path: Seq<char>, new_path: Seq<char>)
    requires
        trimmed(old_path).len() > 0,
        trimmed(new_path).len() > 0,
        forall|j: int|
            0 <= j < old_path.len() ==> !#[trigger] occurs_at(
                old_path + " -> "@ + new_path,
                " -> "@,
                j,
            ),
        around_braced_arrows(old_path + " -> "@ + new_path) is None,
        around_arrow(old_path + " -> "@ + new_path, " => "@) is None,
    ensures
        display_paths(old_path + " -> "@ + new_path) == (trimmed(old_path), trimmed(new_path)),
{
    lemma_split_text(old_path, " -> "@, new_path);
}

/// `prefix{rename}suffix` stands for `prefix`, the old name, `suffix` and `prefix`, the
/// new name, `suffix`, where the braces are the first and the last.
pub proof fn law_braces_expand(
    prefix: Seq<char>,
    rename: Seq<char>,
    suffix: Seq<char>,
    old_name: Seq<char>,
    new_name: Seq<char>,
)
    requires
        !prefix.contains('{'),
        !suffix.contains('}'),
        around_arrows(rename) == Some((old_name, new_name)),
    ensures
        display_paths(prefix + seq!['{'] + rename + seq!['}'] + suffix) == (
            prefix + old_name + suffix,
            prefix + new_name + suffix,
        ),
{
    let s = prefix + seq!['{'] + rename + seq!['}'] + suffix;
    let open = prefix.len() as int;
    let close = open + 1 + rename.len();
    assert forall|j: int| 0 <= j < open implies #[trigger] s[j] != '{' by {
        assert(s[j] == prefix[j]);
        assert(prefix.contains(prefix[j]));
    }
    assert(s[open] == '{');
    lemma_find_char_at(s, '{', 0, open);
    assert forall|j: int| close < j < s.len() implies #[trigger] s[j] != '}' by {
        assert(s[j] == suffix[j - close - 1]);
        assert(suffix.contains(suffix[j - close - 1]));
    }
    assert(s[close] == '}');
    lemma_rfind_char(s, '}', s.len() as int);
    assert(braces(s) == Some((open, close)));
    assert(s.subrange(open + 1, close) =~= rename);
    assert(s.take(open) =~= prefix);
    assert(s.skip(close + 1) =~= suffix);
}

/// `old => new` names the two sides of the arrow, where they are not blank and the
/// arrow between them is the first one; so it does between braces.
pub proof fn law_rename_names_both_sides(old_name: Seq<char>, new_name: Seq<char>)
    requires
        trimmed(old_name).len() > 0,
        trimmed(new_name).len() > 0,
        forall|j: int|
            0 <= j < old_name.len() ==> !#[trigger] occurs_at(
                old_name + " => "@ + new_name,
                " => "@,
                j,
            ),
    ensures
        around_arrows(old_name + " => "@ + new_name) == Some(
            (trimmed(old_name), trimmed(new_name)),
        ),
{
    lemma_split_text(old_name, " => "@, new_name);
}

/// `old -> new` names the two sides of the arrow, where moreover no double arrow splits
/// it; so it does between braces.
pub proof fn law_single_arrow_names_both_sides(old_name: Seq<char>, new_name: Seq<char>)
    requires
        trimmed(old_name).len() > 0,
        trimmed(new_name).len() > 0,
        forall|j: int|
            0 <= j < old_name.len() ==> !#[trigger] occurs_at(
                old_name + " -> "@ + new_name,
                " -> "@,
                j,
            ),
        around_arrow(old_name + " -> "@ + new_name, " => "@) is None,
    ensures
        around_arrows(old_name + " -> "@ + new_name) == Some(
            (trimmed(old_name), trimmed(new_name)),
        ),
{
    lemma_split_text(old_name, " -> "@, new_name);
}

/// The two sides of an arrow: what stands before and behind the first one, without the
/// whitespace around them, where neither is blank. There are none where the arrow stands
/// nowhere, or where one of them is blank.
pub proof fn law_sides_of_an_arrow(s: Seq<char>, arrow: Seq<char>)
    ensures
        match around_arrow(s, arrow) {
            Some((left, right)) => {
                &&& left.len() > 0
                &&& right.len() > 0
                &&& exists|a: Seq<char>, b: Seq<char>|
                    #![trigger a + arrow + b]
                    a + arrow + b == s && left == trimmed(a) && right == trimmed(b) && forall|
                        j: int,
                    |
                        0 <= j < a.len() ==> #[trigger] s.subrange(j, j + arrow.len()) != arrow
            },
            None => forall|a: Seq<char>, b: Seq<char>|
                #![trigger a + arrow + b]
                a + arrow + b == s && (forall|j: int|
                    0 <= j < a.len() ==> #[trigger] s.subrange(j, j + arrow.len()) != arrow)
                    ==> trimmed(a).len() == 0 || trimmed(b).len() == 0,
        },
{
    law_split_at_the_first_pattern(s, arrow);
    match around_arrow(s, arrow) {
        Some(_) => {
            let (a, b) = split_text(s, arrow)->0;
            assert(a + arrow + b == s);
        },
        None => {
            assert forall|a: Seq<char>, b: Seq<char>|
                #![trigger a + arrow + b]
                a + arrow + b == s && (forall|j: int|
                    0 <= j < a.len() ==> #[trigger] s.subrange(j, j + arrow.len())
                        != arrow) implies trimmed(a).len() == 0 || trimmed(b).len() == 0 by {
                assert forall|j: int| 0 <= j < a.len() implies !#[trigger] occurs_at(
                    a + arrow + b,
                    arrow,
                    j,
                ) by {
                    assert(s.subrange(j, j + arrow.len()) != arrow);
                }
                lemma_split_text(a, arrow, b);
            }
        },
    }
}

/// A double arrow goes before a single one, and without either there are no sides.
pub proof fn law_double_arrows_go_first(s: Seq<char>)
    ensures
        around_arrow(s, " => "@) is Some ==> around_arrows(s) == around_arrow(s, " => "@),
        around_arrow(s, " => "@) is None ==> around_arrows(s) == around_arrow(s, " -> "@),
{
}

/// A display path without an opening brace, or without a closing one behind it, stands
/// for the two sides of its arrow, or for itself where it has none.
pub proof fn law_without_braces_the_arrow_counts(s: Seq<char>)
    requires
        forall|i: int, j: int|
            0 <= i < j < s.len() ==> !(#[trigger] s[i] == '{' && #[trigger] s[j] == '}'),
    ensures
        display_paths(s) == match around_arrows(s) {
            Some(sides) => sides,
            None => (s, s),
        },
{
    lemma_find_char(s, '{', 0);
    lemma_rfind_char(s, '}', s.len() as int);
    match (find_char(s, '{', 0), rfind_char(s, '}', s.len() as int)) {
        (Some(open), Some(close)) => {
            if close > open {
                assert(!(s[open] == '{' && s[close] == '}'));
            }
        },
        _ => {},
    }
}

/// Braces without a rename between them are part of the path: it stands for the two sides
/// of its arrow, or for itself where it has none.
pub proof fn law_braces_without_a_rename_are_kept(
    prefix: Seq<char>,
    inner: Seq<char>,
    suffix: Seq<char>,
)
    requires
        !prefix.contains('{'),
        !suffix.contains('}'),
        around_arrows(inner) is None,
    ensures
        ({
            let s = prefix + seq!['{'] + inner + seq!['}'] + suffix;
            display_paths(s) == match around_arrows(s) {
                Some(sides) => sides,
                None => (s, s),
            }
        }),
{
    let s = prefix + seq!['{'] + inner + seq!['}'] + suffix;
    let open = prefix.len() as int;
    let close = open + 1 + inner.len();
    assert forall|j: int| 0 <= j < open implies #[trigger] s[j] != '{' by {
        assert(s[j] == prefix[j]);
        assert(prefix.contains(prefix[j]));
    }
    assert(s[open] == '{');
    lemma_find_char_at(s, '{', 0, open);
    assert forall|j: int| close < j < s.len() implies #[trigger] s[j] != '}' by {
        assert(s[j] == suffix[j - close - 1]);
        assert(suffix.contains(suffix[j - close - 1]));
    }
    assert(s[close] == '}');
    lemma_rfind_char(s, '}', s.len() as int);
    assert(s.subrange(open + 1, close) =~= inner);
}

} // verus!
