//! Revisions: ranges of git and jj, and the commits they stand for.

use vstd::prelude::*;

use crate::command::{printed, successful_output, utf8_printed, CommandOutput};
use crate::content::{law_lines_read_back, terminated};
use crate::list::{
    filter_mapped, lemma_filter_mapped_one, lemma_filter_mapped_source, lemma_filter_mapped_step,
    lemma_filter_mapped_two,
};
use crate::text::{
    chars_of, find_text, is_whitespace, law_split_at_the_first_pattern, lemma_find_text,
    lemma_split_text, lemma_texts_push, lemma_trimmed_keeps, lines, lines_of, occurs_at,
    pair_option, split_once, split_text, text_option, texts, trim, trimmed,
};

verus! {

/// The two revisions whose merge base a range such as `A...B` starts from.
pub open spec fn merge_base_sides(range: Seq<char>) -> Option<(Seq<char>, Seq<char>)> {
    split_text(range, "..."@)
}

/// The old and the new revision of a git range. `merge_base` is that of the sides of
/// `A...B`, where there is one; it is not looked at for the other forms.
pub open spec fn git_refs(range: Seq<char>, merge_base: Option<Seq<char>>) -> (
    Seq<char>,
    Seq<char>,
) {
    match merge_base_sides(range) {
        Some((a, b)) => match merge_base {
            Some(base) => (base, b),
            None => (a + "^"@, b),
        },
        None => match split_text(range, ".."@) {
            Some((old_ref, new_ref)) => (old_ref, new_ref),
            None => (range + "^"@, range),
        },
    }
}

/// The two revisions of a jj range `A..B` with something on both sides.
pub open spec fn jj_range(revset: Seq<char>) -> Option<(Seq<char>, Seq<char>)> {
    match split_text(revset, ".."@) {
        Some((old_rev, new_rev)) => if old_rev.len() > 0 && new_rev.len() > 0 {
            Some((old_rev, new_rev))
        } else {
            None
        },
        None => None,
    }
}

/// The old and the new revision of a jj revset: the sides of a range, or what comes
/// before its roots and its heads.
pub open spec fn jj_refs(revset: Seq<char>) -> (Seq<char>, Seq<char>) {
    match jj_range(revset) {
        Some(sides) => sides,
        None => ("roots("@ + revset + ")-"@, "heads("@ + revset + ")"@),
    }
}

/// The range of commits that lines are counted for, from the commits that the old and
/// the new revision of the revset stand for. A revset other than a range may have no
/// commit before it; then its head is compared to the commit before.
pub open spec fn jj_commit_range(
    revset: Seq<char>,
    old_commit: Option<Seq<char>>,
    new_commit: Option<Seq<char>>,
) -> Option<Seq<char>> {
    match (old_commit, new_commit) {
        (Some(a), Some(b)) => Some(a + ".."@ + b),
        (None, Some(b)) => if jj_range(revset) is None {
            Some(b + "^.."@ + b)
        } else {
            None
        },
        _ => None,
    }
}

/// A line without whitespace around it, if something is left.
pub open spec fn not_blank(line: Seq<char>) -> Option<Seq<char>> {
    if trimmed(line).len() > 0 {
        Some(trimmed(line))
    } else {
        None
    }
}

/// The lines that are not blank.
pub open spec fn filled_lines(lines: Seq<Seq<char>>) -> Seq<Seq<char>> {
    filter_mapped(lines, |line: Seq<char>| not_blank(line))
}

/// A hexadecimal digit.
pub open spec fn is_hex(c: char) -> bool {
    '0' <= c <= '9' || 'a' <= c <= 'f' || 'A' <= c <= 'F'
}

/// A git commit hash: forty hexadecimal digits.
pub open spec fn is_commit_id(s: Seq<char>) -> bool {
    s.len() == 40 && forall|i: int| 0 <= i < s.len() ==> is_hex(#[trigger] s[i])
}

/// The commit hash that an output holds, if that is all it holds.
pub open spec fn only_commit_id(output: Seq<char>) -> Option<Seq<char>> {
    let ids = filled_lines(lines_of(output));
    if ids.len() == 1 && is_commit_id(ids[0]) {
        Some(ids[0])
    } else {
        None
    }
}

/// The two revisions to ask git the merge base of.
pub fn merge_base_operands(range: &str) -> (r: Option<(String, String)>)
    ensures
        pair_option(r) == merge_base_sides(range@),
{
    split_once(range, "...")
}

/// Parses a git commit range into the old and the new revision. Handles single commits,
/// `A..B` and `A...B`; for the last, `merge_base` is the merge base of its sides, if git
/// gave one.
pub fn parse_git_range(range: &str, merge_base: Option<String>) -> (r: (String, String))
    ensures
        (r.0@, r.1@) == git_refs(range@, text_option(merge_base)),
{
    match split_once(range, "...") {
        Some((a, b)) => match merge_base {
            Some(base) => (base, b),
            None => (a.concat("^"), b),
        },
        None => match split_once(range, "..") {
            Some(sides) => sides,
            None => (range.to_owned().concat("^"), range.to_owned()),
        },
    }
}

/// Parses a jj range of the form `A..B`.
pub fn parse_jj_range(revset: &str) -> (r: Option<(String, String)>)
    ensures
        pair_option(r) == jj_range(revset@),
{
    match split_once(revset, "..") {
        Some((old_rev, new_rev)) => {
            if old_rev.as_str().is_empty() || new_rev.as_str().is_empty() {
                return None;
            }
            Some((old_rev, new_rev))
        },
        None => None,
    }
}

/// The old and the new revision of a jj revset.
pub fn jj_revisions(revset: &str) -> (r: (String, String))
    ensures
        (r.0@, r.1@) == jj_refs(revset@),
{
    match parse_jj_range(revset) {
        Some(sides) => sides,
        None => (
            "roots(".to_owned().concat(revset).concat(")-"),
            "heads(".to_owned().concat(revset).concat(")"),
        ),
    }
}

/// The range of commits to count lines for.
pub fn jj_stats_range(
    revset: &str,
    old_commit: Option<String>,
    new_commit: Option<String>,
) -> (r: Option<String>)
    ensures
        text_option(r) == jj_commit_range(
            revset@,
            text_option(old_commit),
            text_option(new_commit),
        ),
{
    match (old_commit, new_commit) {
        (Some(a), Some(b)) => Some(a.concat("..").concat(b.as_str())),
        (None, Some(b)) => if parse_jj_range(revset).is_none() {
            Some(b.clone().concat("^..").concat(b.as_str()))
        } else {
            None
        },
        _ => None,
    }
}

/// Whether the text is a commit hash.
fn commit_id(s: &str) -> (r: bool)
    ensures
        r == is_commit_id(s@),
{
    let chars = chars_of(s);
    if chars.len() != 40 {
        return false;
    }
    let mut i: usize = 0;
    while i < chars.len()
        invariant
            i <= chars@.len(),
            chars@ == s@,
            chars@.len() == 40,
            forall|j: int| 0 <= j < i ==> is_hex(#[trigger] chars@[j]),
        decreases chars@.len() - i,
    {
        let c = chars[i];
        if !(('0' <= c && c <= '9') || ('a' <= c && c <= 'f') || ('A' <= c && c <= 'F')) {
            proof {
                assert(!is_hex(s@[i as int]));
            }
            return false;
        }
        i += 1;
    }
    true
}

/// Reads the commit hash from what `jj log` printed.
pub fn parse_commit_id(output: &str) -> (r: Option<String>)
    ensures
        text_option(r) == only_commit_id(output@),
{
    broadcast use lemma_texts_push;

    let all = lines(output);
    let mut ids: Vec<String> = Vec::new();
    let mut i: usize = 0;
    proof {
        assert(texts(all@).take(0) =~= Seq::<Seq<char>>::empty());
        assert(texts(ids@) =~= Seq::<Seq<char>>::empty());
    }
    while i < all.len()
        invariant
            i <= all@.len(),
            texts(all@) == lines_of(output@),
            texts(ids@) == filled_lines(texts(all@).take(i as int)),
        decreases all@.len() - i,
    {
        proof {
            lemma_filter_mapped_step(texts(all@), |line: Seq<char>| not_blank(line), i as int);
            assert(texts(all@)[i as int] == all@[i as int]@);
        }
        let line = trim(all[i].as_str());
        if !line.as_str().is_empty() {
            ids.push(line);
        }
        i += 1;
    }
    proof {
        assert(texts(all@).take(all@.len() as int) =~= texts(all@));
        assert(texts(ids@).len() == ids@.len());
    }
    if ids.len() != 1 {
        return None;
    }
    proof {
        assert(texts(ids@)[0] == ids@[0]@);
    }
    if commit_id(ids[0].as_str()) {
        Some(ids[0].clone())
    } else {
        None
    }
}

/// The git commit that a revset stands for, from what jj printed; none where it failed.
pub fn jj_to_git_commit(output: &Option<CommandOutput>) -> (r: Option<String>)
    ensures
        text_option(r) == match printed(*output) {
            Some(text) => only_commit_id(text),
            None => None,
        },
        utf8_printed(*output) matches Some(text) ==> text_option(r) == only_commit_id(text),
{
    match successful_output(output) {
        Some(text) => parse_commit_id(text.as_str()),
        None => None,
    }
}

/// `A..B` is the range from `A` to `B`, where the dots between them are the first ones
/// and there are no three dots in a row; the merge base does not matter.
pub proof fn law_two_dots_name_both_ends(
    a: Seq<char>,
    b: Seq<char>,
    merge_base: Option<Seq<char>>,
)
    requires
        find_text(a + ".."@ + b, "..."@, 0) is None,
        forall|j: int| 0 <= j < a.len() ==> !#[trigger] occurs_at(a + ".."@ + b, ".."@, j),
    ensures
        git_refs(a + ".."@ + b, merge_base) == (a, b),
{
    lemma_split_text(a, ".."@, b);
}

/// `A...B` is the range from the merge base to `B`, or from before `A` where there is
/// none, where the dots between them are the first ones.
pub proof fn law_three_dots_start_at_the_merge_base(
    a: Seq<char>,
    b: Seq<char>,
    merge_base: Option<Seq<char>>,
)
    requires
        forall|j: int| 0 <= j < a.len() ==> !#[trigger] occurs_at(a + "..."@ + b, "..."@, j),
    ensures
        git_refs(a + "..."@ + b, merge_base) == (
            match merge_base {
                Some(base) => base,
                None => a + "^"@,
            },
            b,
        ),
{
    lemma_split_text(a, "..."@, b);
}

/// A single commit is compared to the one before it.
pub proof fn law_single_commit_starts_before_it(
    commit: Seq<char>,
    merge_base: Option<Seq<char>>,
)
    requires
        find_text(commit, ".."@, 0) is None,
    ensures
        git_refs(commit, merge_base) == (commit + "^"@, commit),
{
    lemma_find_text(commit, ".."@, 0);
    lemma_find_text(commit, "..."@, 0);
    match find_text(commit, "..."@, 0) {
        Some(i) => {
            reveal_strlit("..");
            reveal_strlit("...");
            let found = commit.subrange(i, i + "..."@.len());
            assert(found =~= "..."@);
            assert forall|k: int| 0 <= k < 2 implies commit.subrange(i, i + ".."@.len())[k]
                == ".."@[k] by {
                assert(found[k] == "..."@[k]);
            }
            assert(commit.subrange(i, i + ".."@.len()) =~= ".."@);
            assert(occurs_at(commit, ".."@, i));
        },
        None => {},
    }
}

/// Where git and jj both see a range with two ends, they see the same ends.
pub proof fn law_git_and_jj_ranges_agree(range: Seq<char>, merge_base: Option<Seq<char>>)
    requires
        merge_base_sides(range) is None,
        jj_range(range) is Some,
    ensures
        jj_range(range) == Some(git_refs(range, merge_base)),
        jj_refs(range) == git_refs(range, merge_base),
{
}

/// A commit is only ever taken from an output that holds nothing but one commit hash.
pub proof fn law_commit_is_a_hash(output: Seq<char>)
    ensures
        only_commit_id(output) matches Some(commit) ==> is_commit_id(commit),
{
}

/// A commit hash by itself, with or without a line feed behind it, is read as that
/// commit.
pub proof fn law_commit_id_reads_back(commit: Seq<char>)
    requires
        is_commit_id(commit),
    ensures
        only_commit_id(commit) == Some(commit),
        only_commit_id(commit.push('\n')) == Some(commit),
{
    assert forall|i: int| 0 <= i < commit.len() implies !is_whitespace(#[trigger] commit[i])
        && commit[i] != '\n' && commit[i] != '\r' by {
        assert(is_hex(commit[i]));
    }
    assert(!commit.contains('\n'));
    lemma_trimmed_keeps(commit);
    let none = Seq::<Seq<char>>::empty();
    let one = seq![commit];
    assert(none.push(commit) =~= one);
    law_lines_read_back(none, false, commit);
    assert(terminated(none, false) + commit =~= commit);
    law_lines_read_back(one, false, Seq::empty());
    assert(one.skip(1) =~= none);
    assert(terminated(one, false) =~= commit.push('\n'));
    let f = |line: Seq<char>| not_blank(line);
    assert(one.drop_last() =~= none);
    assert(filter_mapped(none, f) =~= none);
    assert(filter_mapped(one, f) =~= one);
}

/// A revset is a jj range exactly where something stands on both sides of the first two
/// dots in it, and these are its ends. Any other revset runs from what comes before its
/// roots to its heads.
pub proof fn law_jj_ranges_have_two_ends(revset: Seq<char>)
    ensures
        match jj_range(revset) {
            Some((a, b)) => {
                &&& a + ".."@ + b == revset
                &&& a.len() > 0
                &&& b.len() > 0
                &&& forall|j: int|
                    0 <= j < a.len() ==> #[trigger] revset.subrange(j, j + 2) != ".."@
                &&& jj_refs(revset) == (a, b)
            },
            None => {
                &&& jj_refs(revset).0 == "roots("@ + revset + ")-"@
                &&& jj_refs(revset).1 == "heads("@ + revset + ")"@
                &&& forall|a: Seq<char>, b: Seq<char>|
                    #![trigger a + ".."@ + b]
                    a.len() > 0 && b.len() > 0 && a + ".."@ + b == revset ==> exists|j: int|
                        0 <= j < a.len() && #[trigger] revset.subrange(j, j + 2) == ".."@
            },
        },
{
    reveal_strlit("..");
    law_split_at_the_first_pattern(revset, ".."@);
    if jj_range(revset) is None {
        assert forall|a: Seq<char>, b: Seq<char>|
            #![trigger a + ".."@ + b]
            a.len() > 0 && b.len() > 0 && a + ".."@ + b == revset implies exists|j: int|
            0 <= j < a.len() && #[trigger] revset.subrange(j, j + 2) == ".."@ by {
            if forall|j: int| 0 <= j < a.len() ==> #[trigger] revset.subrange(j, j + 2) != ".."@ {
                assert forall|j: int| 0 <= j < a.len() implies !#[trigger] occurs_at(
                    a + ".."@ + b,
                    ".."@,
                    j,
                ) by {
                    assert(revset.subrange(j, j + 2) != ".."@);
                }
                lemma_split_text(a, ".."@, b);
            }
        }
    }
}

/// Lines are counted from the old commit to the new one. Where only the new one is
/// known, they are counted from the commit before it, but not for a range, whose old end
/// must be known.
pub proof fn law_lines_are_counted_from_old_to_new(
    revset: Seq<char>,
    old_commit: Seq<char>,
    new_commit: Seq<char>,
)
    ensures
        jj_commit_range(revset, Some(old_commit), Some(new_commit)) == Some(
            old_commit + ".."@ + new_commit,
        ),
        jj_commit_range(revset, Some(old_commit), None) is None,
        jj_commit_range(revset, None, None) is None,
        jj_range(revset) is Some ==> jj_commit_range(revset, None, Some(new_commit)) is None,
        jj_range(revset) is None ==> jj_commit_range(revset, None, Some(new_commit)) == Some(
            new_commit + "^.."@ + new_commit,
        ),
{
}

/// The text is forty digits of the hexadecimal system, small or capital.
pub open spec fn is_hash(s: Seq<char>) -> bool {
    &&& s.len() == 40
    &&& forall|i: int|
        #![trigger s[i]]
        0 <= i < s.len() ==> {
            ||| 48 <= s[i] as int <= 57
            ||| 65 <= s[i] as int <= 70
            ||| 97 <= s[i] as int <= 102
        }
}

/// An output gives a commit exactly where one line of it, without the whitespace around
/// it, is a hash of forty hexadecimal digits, and every other line is blank.
pub proof fn law_commit_is_the_only_line(output: Seq<char>, commit: Seq<char>)
    ensures
        only_commit_id(output) == Some(commit) <==> is_hash(commit) && exists|i: int|
            #![trigger lines_of(output)[i]]
            0 <= i < lines_of(output).len() && trimmed(lines_of(output)[i]) == commit && forall|
                j: int,
            |
                0 <= j < lines_of(output).len() && j != i ==> trimmed(
                    #[trigger] lines_of(output)[j],
                ).len() == 0,
{
    let lines = lines_of(output);
    let f = |line: Seq<char>| not_blank(line);
    let ids = filled_lines(lines);
    assert(is_commit_id(commit) <==> is_hash(commit)) by {
        if is_commit_id(commit) {
            assert forall|i: int|
                #![trigger commit[i]]
                0 <= i < commit.len() implies 48 <= commit[i] as int <= 57 || 65 <= commit[i] as int
                <= 70 || 97 <= commit[i] as int <= 102 by {
                assert(is_hex(commit[i]));
            }
        }
    }
    if only_commit_id(output) == Some(commit) {
        lemma_filter_mapped_source(lines, f, 0);
        let i = choose|i: int| 0 <= i < lines.len() && f(#[trigger] lines[i]) == Some(ids[0]);
        assert forall|j: int| 0 <= j < lines.len() && j != i implies trimmed(
            #[trigger] lines[j],
        ).len() == 0 by {
            if trimmed(lines[j]).len() > 0 {
                assert(f(lines[j]) is Some);
                if i < j {
                    lemma_filter_mapped_two(lines, f, i, j);
                } else {
                    lemma_filter_mapped_two(lines, f, j, i);
                }
            }
        }
        assert(trimmed(lines[i]) == commit);
    }
    if is_hash(commit) && exists|i: int|
        #![trigger lines[i]]
        0 <= i < lines.len() && trimmed(lines[i]) == commit && forall|j: int|
            0 <= j < lines.len() && j != i ==> trimmed(#[trigger] lines[j]).len() == 0 {
        let i = choose|i: int|
            #![trigger lines[i]]
            0 <= i < lines.len() && trimmed(lines[i]) == commit && forall|j: int|
                0 <= j < lines.len() && j != i ==> trimmed(#[trigger] lines[j]).len() == 0;
        assert forall|j: int| 0 <= j < lines.len() && j != i implies f(
            #[trigger] lines[j],
        ) is None by {
            assert(trimmed(lines[j]).len() == 0);
        }
        lemma_filter_mapped_one(lines, f, i);
    }
}

/// The two sides of a range with three dots are what stands before the first three dots,
/// and all that stands behind them.
pub proof fn law_first_three_dots_part_the_sides(range: Seq<char>)
    ensures
        match merge_base_sides(range) {
            Some((a, b)) => a + "..."@ + b == range && forall|j: int|
                0 <= j < a.len() ==> #[trigger] range.subrange(j, j + 3) != "..."@,
            None => forall|j: int|
                0 <= j && j + 3 <= range.len() ==> #[trigger] range.subrange(j, j + 3) != "..."@,
        },
{
    reveal_strlit("...");
    law_split_at_the_first_pattern(range, "..."@);
}

} // verus!
