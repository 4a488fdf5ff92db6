//! Renames that git and jj report.

use vstd::prelude::*;

use crate::command::{printed, successful_output, utf8_printed, CommandOutput};
use crate::content::{is_line, law_printed_lines_come_last};
use crate::display_path::{display_paths, split_display_path};
use crate::list::{
    filter_mapped, lemma_filter_mapped_keeps, lemma_filter_mapped_source, lemma_filter_mapped_step,
};
use crate::path::{lemma_fields_nonempty, paths_equal, same_path};
use crate::table::{
    collected, distinct_paths, inserted, is_for, last_value, law_collected_paths_are_distinct,
    law_last_pair_wins, lemma_last_line_counts, lemma_last_value, lemma_line_is_put_in, lookup,
    PathTable,
};
use crate::text::{
    fields, fields_of, is_whitespace, law_fields_join_again, lemma_find_char, lemma_first_field,
    lemma_single_field, lemma_trimmed_keeps, lines, lines_of, occurs_at, pair_option,
    starts_with_char, strip_prefix, texts, trim, trimmed,
};

verus! {

/// For each new path the old one.
pub type RenameMap = PathTable<String>;

/// The old and the new path that a line of `jj diff --summary` gives, if it tells of a
/// rename between two paths.
pub open spec fn jj_rename(line: Seq<char>) -> Option<(Seq<char>, Seq<char>)> {
    let line = trimmed(line);
    if occurs_at(line, "R "@, 0) {
        let paths = display_paths(line.skip("R "@.len() as int));
        if same_path(paths.0, paths.1) {
            None
        } else {
            Some(paths)
        }
    } else {
        None
    }
}

/// The old and the new path that a line of `git diff --name-status` gives, if it tells
/// of a rename.
pub open spec fn git_rename(line: Seq<char>) -> Option<(Seq<char>, Seq<char>)> {
    let f = fields_of(trimmed(line), '\t');
    if f[0].len() > 0 && f[0][0] == 'R' && f.len() >= 3 && trimmed(f[1]).len() > 0 && trimmed(
        f[2],
    ).len() > 0 {
        Some((trimmed(f[1]), trimmed(f[2])))
    } else {
        None
    }
}

/// A rename as an entry of the table: by its new path.
pub open spec fn by_new_path(rename: Option<(Seq<char>, Seq<char>)>) -> Option<
    (Seq<char>, Seq<char>),
> {
    match rename {
        Some((old_path, new_path)) => Some((new_path, old_path)),
        None => None,
    }
}

/// The renames that lines of `jj diff --summary` tell of.
pub open spec fn jj_rename_pairs(lines: Seq<Seq<char>>) -> Seq<(Seq<char>, Seq<char>)> {
    filter_mapped(lines, |line: Seq<char>| by_new_path(jj_rename(line)))
}

/// The renames that lines of `git diff --name-status` tell of.
pub open spec fn git_rename_pairs(lines: Seq<Seq<char>>) -> Seq<(Seq<char>, Seq<char>)> {
    filter_mapped(lines, |line: Seq<char>| by_new_path(git_rename(line)))
}

/// The table for an output of `jj diff --summary`.
pub open spec fn jj_rename_table(output: Seq<char>) -> Seq<(Seq<char>, Seq<char>)> {
    collected(jj_rename_pairs(lines_of(output)))
}

/// The table for an output of `git diff --name-status`.
pub open spec fn git_rename_table(output: Seq<char>) -> Seq<(Seq<char>, Seq<char>)> {
    collected(git_rename_pairs(lines_of(output)))
}

/// Reads a line of `jj diff --summary`.
pub fn parse_jj_summary_rename(line: &str) -> (r: Option<(String, String)>)
    ensures
        pair_option(r) == jj_rename(line@),
{
    let line = trim(line);
    match strip_prefix(line.as_str(), "R ") {
        Some(renamed) => {
            let (old_path, new_path) = split_display_path(renamed.as_str());
            if paths_equal(old_path.as_str(), new_path.as_str()) {
                None
            } else {
                Some((old_path, new_path))
            }
        },
        None => None,
    }
}

/// Reads the output of `jj diff --summary`.
pub fn parse_jj_summary_renames(output: &str) -> (r: RenameMap)
    ensures
        r@ == jj_rename_table(output@),
        distinct_paths(r@),
{
    let all = lines(output);
    let mut table: RenameMap = PathTable::new();
    let mut i: usize = 0;
    proof {
        assert(texts(all@).take(0) =~= Seq::<Seq<char>>::empty());
    }
    while i < all.len()
        invariant
            i <= all@.len(),
            texts(all@) == lines_of(output@),
            table@ == collected(jj_rename_pairs(texts(all@).take(i as int))),
        decreases all@.len() - i,
    {
        let ghost before = jj_rename_pairs(texts(all@).take(i as int));
        proof {
            lemma_filter_mapped_step(
                texts(all@),
                |line: Seq<char>| by_new_path(jj_rename(line)),
                i as int,
            );
            assert(texts(all@)[i as int] == all@[i as int]@);
        }
        match parse_jj_summary_rename(all[i].as_str()) {
            Some((old_path, new_path)) => {
                proof {
                    let next = before.push((new_path@, old_path@));
                    assert(next.drop_last() =~= before);
                    assert(collected(next) == inserted(collected(before), new_path@, old_path@));
                }
                table.insert(new_path, old_path);
            },
            None => {},
        }
        i += 1;
    }
    proof {
        assert(texts(all@).take(all@.len() as int) =~= texts(all@));
        law_collected_paths_are_distinct(jj_rename_pairs(lines_of(output@)));
    }
    table
}

/// The renames, from what jj printed; none where it failed.
pub fn jj_rename_map(output: &Option<CommandOutput>) -> (r: RenameMap)
    ensures
        r@ == match printed(*output) {
            Some(text) => jj_rename_table(text),
            None => Seq::empty(),
        },
        utf8_printed(*output) matches Some(text) ==> r@ == jj_rename_table(text),
        distinct_paths(r@),
{
    match successful_output(output) {
        Some(text) => parse_jj_summary_renames(text.as_str()),
        None => PathTable::new(),
    }
}

/// Reads a line of `git diff --name-status`.
pub fn parse_git_name_status_rename(line: &str) -> (r: Option<(String, String)>)
    ensures
        pair_option(r) == git_rename(line@),
{
    let line = trim(line);
    let parts = fields(line.as_str(), '\t');
    proof {
        lemma_fields_nonempty(line@, '\t');
        assert(texts(parts@).len() == parts@.len());
        assert(texts(parts@)[0] == parts@[0]@);
    }
    if !starts_with_char(parts[0].as_str(), 'R') || parts.len() < 3 {
        return None;
    }
    proof {
        assert(texts(parts@)[1] == parts@[1]@);
        assert(texts(parts@)[2] == parts@[2]@);
    }
    let old_path = trim(parts[1].as_str());
    let new_path = trim(parts[2].as_str());
    if old_path.as_str().is_empty() || new_path.as_str().is_empty() {
        return None;
    }
    Some((old_path, new_path))
}

/// Reads the output of `git diff --name-status`.
pub fn parse_git_name_status_renames(output: &str) -> (r: RenameMap)
    ensures
        r@ == git_rename_table(output@),
        distinct_paths(r@),
{
    let all = lines(output);
    let mut table: RenameMap = PathTable::new();
    let mut i: usize = 0;
    proof {
        assert(texts(all@).take(0) =~= Seq::<Seq<char>>::empty());
    }
    while i < all.len()
        invariant
            i <= all@.len(),
            texts(all@) == lines_of(output@),
            table@ == collected(git_rename_pairs(texts(all@).take(i as int))),
        decreases all@.len() - i,
    {
        let ghost before = git_rename_pairs(texts(all@).take(i as int));
        proof {
            lemma_filter_mapped_step(
                texts(all@),
                |line: Seq<char>| by_new_path(git_rename(line)),
                i as int,
            );
            assert(texts(all@)[i as int] == all@[i as int]@);
        }
        match parse_git_name_status_rename(all[i].as_str()) {
            Some((old_path, new_path)) => {
                proof {
                    let next = before.push((new_path@, old_path@));
                    assert(next.drop_last() =~= before);
                    assert(collected(next) == inserted(collected(before), new_path@, old_path@));
                }
                table.insert(new_path, old_path);
            },
            None => {},
        }
        i += 1;
    }
    proof {
        assert(texts(all@).take(all@.len() as int) =~= texts(all@));
        law_collected_paths_are_distinct(git_rename_pairs(lines_of(output@)));
    }
    table
}

/// The renames, from what git printed; none where it failed.
pub fn git_rename_map(output: &Option<CommandOutput>) -> (r: RenameMap)
    ensures
        r@ == match printed(*output) {
            Some(text) => git_rename_table(text),
            None => Seq::empty(),
        },
        utf8_printed(*output) matches Some(text) ==> r@ == git_rename_table(text),
        distinct_paths(r@),
{
    match successful_output(output) {
        Some(text) => parse_git_name_status_renames(text.as_str()),
        None => PathTable::new(),
    }
}

/// A line of `jj diff --summary` that begins with `R` and shows a move between two paths
/// is read as that rename.
pub proof fn law_jj_rename_reads_back(shown: Seq<char>)
    requires
        shown.len() > 0,
        !is_whitespace(shown.last()),
    ensures
        jj_rename("R "@ + shown) == if same_path(display_paths(shown).0, display_paths(shown).1) {
            None
        } else {
            Some(display_paths(shown))
        },
{
    reveal_strlit("R ");
    let line = "R "@ + shown;
    assert(line.last() == shown.last());
    lemma_trimmed_keeps(line);
    assert(line.subrange(0, "R "@.len() as int) =~= "R "@);
    assert(line.skip("R "@.len() as int) =~= shown);
}

/// A line of `git diff --name-status` that gives `R` with a score and two paths is read
/// as the rename of the one to the other, without the whitespace around them.
pub proof fn law_git_rename_reads_back(
    score: Seq<char>,
    old_path: Seq<char>,
    new_path: Seq<char>,
)
    requires
        !score.contains('\t'),
        !old_path.contains('\t'),
        !new_path.contains('\t'),
        trimmed(old_path).len() > 0,
        trimmed(new_path).len() > 0,
        !is_whitespace(new_path.last()),
    ensures
        git_rename(seq!['R'] + score + seq!['\t'] + (old_path + seq!['\t'] + new_path)) == Some(
            (trimmed(old_path), trimmed(new_path)),
        ),
{
    let status = seq!['R'] + score;
    let rest = old_path + seq!['\t'] + new_path;
    let line = status + seq!['\t'] + rest;
    assert(new_path.len() > 0);
    assert(line.last() == new_path.last());
    assert(line[0] == 'R');
    lemma_trimmed_keeps(line);
    assert(!status.contains('\t')) by {
        assert forall|i: int| 0 <= i < status.len() implies status[i] != '\t' by {
            if i > 0 {
                assert(status[i] == score[i - 1]);
                assert(score.contains(score[i - 1]));
            }
        }
    }
    lemma_first_field(status, '\t', rest);
    lemma_first_field(old_path, '\t', new_path);
    lemma_single_field(new_path, '\t');
}

/// A rename to the path.
pub open spec fn is_rename_to(rename: Option<(Seq<char>, Seq<char>)>, path: Seq<char>) -> bool {
    rename matches Some((_, new_path)) && same_path(new_path, path)
}

/// A rename from the path, as it is written.
pub open spec fn is_rename_from(rename: Option<(Seq<char>, Seq<char>)>, path: Seq<char>) -> bool {
    rename matches Some((old_path, _)) && old_path == path
}

/// The old path that a table from git gives is one that a line of the output gives for
/// the new path; a path that it has nothing for is the new path of no line.
pub proof fn law_git_renames_are_listed(output: Seq<char>, path: Seq<char>)
    ensures
        match lookup(git_rename_table(output), path) {
            Some(old_path) => exists|i: int|
                #![trigger lines_of(output)[i]]
                0 <= i < lines_of(output).len() && is_rename_to(
                    git_rename(lines_of(output)[i]),
                    path,
                ) && is_rename_from(git_rename(lines_of(output)[i]), old_path),
            None => forall|i: int|
                #![trigger lines_of(output)[i]]
                0 <= i < lines_of(output).len() ==> !is_rename_to(
                    git_rename(lines_of(output)[i]),
                    path,
                ),
        },
{
    let f = |line: Seq<char>| git_rename(line);
    lemma_listed(lines_of(output), f, path);
    assert((|line: Seq<char>| by_new_path(f(line))) =~= (|line: Seq<char>|
        by_new_path(git_rename(line))));
}

/// The old path that a table from jj gives is one that a line of the output gives for
/// the new path; a path that it has nothing for is the new path of no line.
pub proof fn law_jj_renames_are_listed(output: Seq<char>, path: Seq<char>)
    ensures
        match lookup(jj_rename_table(output), path) {
            Some(old_path) => exists|i: int|
                #![trigger lines_of(output)[i]]
                0 <= i < lines_of(output).len() && is_rename_to(
                    jj_rename(lines_of(output)[i]),
                    path,
                ) && is_rename_from(jj_rename(lines_of(output)[i]), old_path),
            None => forall|i: int|
                #![trigger lines_of(output)[i]]
                0 <= i < lines_of(output).len() ==> !is_rename_to(
                    jj_rename(lines_of(output)[i]),
                    path,
                ),
        },
{
    let f = |line: Seq<char>| jj_rename(line);
    lemma_listed(lines_of(output), f, path);
    assert((|line: Seq<char>| by_new_path(f(line))) =~= (|line: Seq<char>|
        by_new_path(jj_rename(line))));
}

proof fn lemma_listed(
    lines: Seq<Seq<char>>,
    f: spec_fn(Seq<char>) -> Option<(Seq<char>, Seq<char>)>,
    path: Seq<char>,
)
    ensures
        match lookup(
            collected(filter_mapped(lines, |line: Seq<char>| by_new_path(f(line)))),
            path,
        ) {
            Some(old_path) => exists|i: int|
                #![trigger lines[i]]
                0 <= i < lines.len() && is_rename_to(f(lines[i]), path) && is_rename_from(
                    f(lines[i]),
                    old_path,
                ),
            None => forall|i: int|
                #![trigger lines[i]]
                0 <= i < lines.len() ==> !is_rename_to(f(lines[i]), path),
        },
{
    let g = |line: Seq<char>| by_new_path(f(line));
    let pairs = filter_mapped(lines, g);
    law_last_pair_wins(pairs, path);
    lemma_last_value(pairs, path);
    match last_value(pairs, path) {
        Some(old_path) => {
            let k = choose|k: int|
                0 <= k < pairs.len() && same_path((#[trigger] pairs[k]).0, path) && pairs[k].1
                    == old_path;
            lemma_filter_mapped_source(lines, g, k);
            let i = choose|i: int| 0 <= i < lines.len() && g(#[trigger] lines[i]) == Some(pairs[k]);
            assert(f(lines[i]) == Some((old_path, pairs[k].0)));
        },
        None => {
            assert forall|i: int|
                #![trigger lines[i]]
                0 <= i < lines.len() implies !is_rename_to(f(lines[i]), path) by {
                match f(lines[i]) {
                    Some((from, to)) => {
                        assert(g(lines[i]) == Some((to, from)));
                        lemma_filter_mapped_keeps(lines, g, i);
                        let k = choose|k: int| 0 <= k < pairs.len() && pairs[k] == (to, from);
                        assert(!same_path(pairs[k].0, path));
                    },
                    None => {},
                }
            }
        },
    }
}

/// A line of `git diff --name-status` is a rename exactly where, without the whitespace
/// around it, it begins with `R` and has at least three fields, of which the second and
/// the third are not blank; these are the old and the new path.
pub proof fn law_git_renames_begin_with_r(line: Seq<char>)
    ensures
        ({
            let f = fields_of(trimmed(line), '\t');
            match git_rename(line) {
                Some((old_path, new_path)) => {
                    &&& trimmed(line)[0] == 'R'
                    &&& f.len() >= 3
                    &&& old_path == trimmed(f[1])
                    &&& new_path == trimmed(f[2])
                    &&& old_path.len() > 0
                    &&& new_path.len() > 0
                },
                None => {
                    ||| trimmed(line).len() == 0
                    ||| trimmed(line)[0] != 'R'
                    ||| f.len() < 3
                    ||| trimmed(f[1]).len() == 0
                    ||| trimmed(f[2]).len() == 0
                },
            }
        }),
{
    let s = trimmed(line);
    let f = fields_of(s, '\t');
    law_fields_join_again(s, '\t');
    lemma_find_char(s, '\t', 0);
    if f[0].len() > 0 {
        assert(f[0][0] == s[0]);
    } else if s.len() > 0 && f.len() >= 3 {
        assert(s[0] == '\t');
    }
}

/// A line of `jj diff --summary` is a rename exactly where, without the whitespace around
/// it, it begins with `R` and a space, and what follows stands for two different paths.
pub proof fn law_jj_renames_begin_with_r(line: Seq<char>)
    ensures
        ({
            let s = trimmed(line);
            let begins = s.len() >= 2 && s[0] == 'R' && s[1] == ' ';
            match jj_rename(line) {
                Some(paths) => begins && paths == display_paths(s.skip(2)) && !same_path(
                    paths.0,
                    paths.1,
                ),
                None => begins ==> same_path(
                    display_paths(s.skip(2)).0,
                    display_paths(s.skip(2)).1,
                ),
            }
        }),
{
    reveal_strlit("R ");
    let s = trimmed(line);
    if s.len() >= 2 {
        let front = s.subrange(0, 2);
        assert(front[0] == s[0] && front[1] == s[1]);
        if s[0] == 'R' && s[1] == ' ' {
            assert(front =~= "R "@);
        }
    }
}

/// Of the renames to one path, in the output of git, the last one counts.
pub proof fn law_last_git_rename_counts(output: Seq<char>, path: Seq<char>)
    ensures
        lookup(git_rename_table(output), path) matches Some(old_path) ==> exists|i: int|
            #![trigger lines_of(output)[i]]
            0 <= i < lines_of(output).len() && is_rename_to(git_rename(lines_of(output)[i]), path)
                && is_rename_from(git_rename(lines_of(output)[i]), old_path) && forall|j: int|
                i < j < lines_of(output).len() ==> !is_rename_to(
                    git_rename(#[trigger] lines_of(output)[j]),
                    path,
                ),
{
    let lines = lines_of(output);
    let f = |line: Seq<char>| by_new_path(git_rename(line));
    lemma_last_line_counts(lines, f, path);
    if let Some(old_path) = lookup(git_rename_table(output), path) {
        let i = choose|i: int|
            #![trigger lines[i]]
            0 <= i < lines.len() && is_for(f(lines[i]), path) && (f(lines[i]) matches Some((_, v))
                && v == old_path) && forall|j: int|
                i < j < lines.len() ==> !is_for(f(#[trigger] lines[j]), path);
        assert(is_rename_to(git_rename(lines[i]), path));
        assert forall|j: int| i < j < lines.len() implies !is_rename_to(
            git_rename(#[trigger] lines[j]),
            path,
        ) by {
            assert(!is_for(f(lines[j]), path));
        }
    }
}

/// Of the renames to one path, in the output of jj, the last one counts.
pub proof fn law_last_jj_rename_counts(output: Seq<char>, path: Seq<char>)
    ensures
        lookup(jj_rename_table(output), path) matches Some(old_path) ==> exists|i: int|
            #![trigger lines_of(output)[i]]
            0 <= i < lines_of(output).len() && is_rename_to(jj_rename(lines_of(output)[i]), path)
                && is_rename_from(jj_rename(lines_of(output)[i]), old_path) && forall|j: int|
                i < j < lines_of(output).len() ==> !is_rename_to(
                    jj_rename(#[trigger] lines_of(output)[j]),
                    path,
                ),
{
    let lines = lines_of(output);
    let f = |line: Seq<char>| by_new_path(jj_rename(line));
    lemma_last_line_counts(lines, f, path);
    if let Some(old_path) = lookup(jj_rename_table(output), path) {
        let i = choose|i: int|
            #![trigger lines[i]]
            0 <= i < lines.len() && is_for(f(lines[i]), path) && (f(lines[i]) matches Some((_, v))
                && v == old_path) && forall|j: int|
                i < j < lines.len() ==> !is_for(f(#[trigger] lines[j]), path);
        assert(is_rename_to(jj_rename(lines[i]), path));
        assert forall|j: int| i < j < lines.len() implies !is_rename_to(
            jj_rename(#[trigger] lines[j]),
            path,
        ) by {
            assert(!is_for(f(lines[j]), path));
        }
    }
}

/// A line that is printed behind others puts in the old path under the new one, if it
/// tells of a rename, and changes nothing else.
pub proof fn law_another_line_puts_in_its_rename(output: Seq<char>, line: Seq<char>)
    requires
        output.len() == 0 || output.last() == '\n',
        is_line(line, false),
    ensures
        git_rename_table(Seq::empty()).len() == 0,
        git_rename_table(output + line + seq!['\n']) == match git_rename(line) {
            Some((old_path, new_path)) => inserted(git_rename_table(output), new_path, old_path),
            None => git_rename_table(output),
        },
        jj_rename_table(Seq::empty()).len() == 0,
        jj_rename_table(output + line + seq!['\n']) == match jj_rename(line) {
            Some((old_path, new_path)) => inserted(jj_rename_table(output), new_path, old_path),
            None => jj_rename_table(output),
        },
{
    let lines = lines_of(output);
    law_printed_lines_come_last(output, line);
    lemma_line_is_put_in(lines, line, |line: Seq<char>| by_new_path(git_rename(line)));
    lemma_line_is_put_in(lines, line, |line: Seq<char>| by_new_path(jj_rename(line)));
}

} // verus!
