//! Counts of added and deleted lines, as `git diff --numstat` prints them.

use vstd::prelude::*;

use crate::command::{printed, successful_output, utf8_printed, CommandOutput};
use crate::content::{is_line, law_printed_lines_come_last};
use crate::list::{filter_mapped, lemma_filter_mapped_step};
use crate::number::{
    decimal, is_digit, law_decimal_has_only_digits, law_decimal_reads_back, parse_u32, parsed_u32,
};
use crate::table::{
    collected, distinct_paths, inserted, is_for, law_collected_paths_are_distinct,
    lemma_last_line_counts, lemma_line_is_put_in, lookup, PathTable,
};
use crate::text::{
    fields, fields_of, lemma_first_field, lemma_single_field, lines, lines_of, texts,
};

verus! {

/// For each path the added and the deleted lines.
pub type FileStats = PathTable<(u32, u32)>;

/// What a line says of a file: the added and the deleted lines and the path, with tabs
/// between them. A line that does not read so, such as that of a binary file, says
/// nothing.
pub open spec fn numstat_entry(line: Seq<char>) -> Option<(Seq<char>, (u32, u32))> {
    let f = fields_of(line, '\t');
    if f.len() >= 3 {
        match (parsed_u32(f[0]), parsed_u32(f[1])) {
            (Some(added), Some(deleted)) => Some((f[2], (added, deleted))),
            _ => None,
        }
    } else {
        None
    }
}

/// What the lines say, in order.
pub open spec fn numstat_pairs(lines: Seq<Seq<char>>) -> Seq<(Seq<char>, (u32, u32))> {
    filter_mapped(lines, |line: Seq<char>| numstat_entry(line))
}

/// The table that the output stands for. A later line for a path overrides an earlier.
pub open spec fn numstat_table(output: Seq<char>) -> Seq<(Seq<char>, (u32, u32))> {
    collected(numstat_pairs(lines_of(output)))
}

/// Reads one line.
fn parse_numstat_line(line: &str) -> (r: Option<(String, (u32, u32))>)
    ensures
        match r {
            Some((path, counts)) => numstat_entry(line@) == Some((path@, counts)),
            None => numstat_entry(line@) is None,
        },
{
    let parts = fields(line, '\t');
    proof {
        assert(texts(parts@).len() == parts@.len());
    }
    if parts.len() < 3 {
        return None;
    }
    proof {
        assert(texts(parts@)[0] == parts@[0]@);
        assert(texts(parts@)[1] == parts@[1]@);
        assert(texts(parts@)[2] == parts@[2]@);
    }
    match (parse_u32(parts[0].as_str()), parse_u32(parts[1].as_str())) {
        (Some(added), Some(deleted)) => Some((parts[2].clone(), (added, deleted))),
        _ => None,
    }
}

/// Reads the output of `git diff --numstat`.
pub fn parse_numstat(output: &str) -> (r: FileStats)
    ensures
        r@ == numstat_table(output@),
        distinct_paths(r@),
{
    let all = lines(output);
    let mut table: FileStats = PathTable::new();
    let mut i: usize = 0;
    proof {
        assert(texts(all@).take(0) =~= Seq::<Seq<char>>::empty());
    }
    while i < all.len()
        invariant
            i <= all@.len(),
            texts(all@) == lines_of(output@),
            table@ == collected(numstat_pairs(texts(all@).take(i as int))),
        decreases all@.len() - i,
    {
        let ghost before = numstat_pairs(texts(all@).take(i as int));
        proof {
            lemma_filter_mapped_step(
                texts(all@),
                |line: Seq<char>| numstat_entry(line),
                i as int,
            );
            assert(texts(all@)[i as int] == all@[i as int]@);
        }
        match parse_numstat_line(all[i].as_str()) {
            Some((path, counts)) => {
                proof {
                    let next = before.push((path@, counts));
                    assert(next.drop_last() =~= before);
                    assert(collected(next) == inserted(collected(before), path@, counts));
                }
                table.insert(path, counts);
            },
            None => {},
        }
        i += 1;
    }
    proof {
        assert(texts(all@).take(all@.len() as int) =~= texts(all@));
        law_collected_paths_are_distinct(numstat_pairs(lines_of(output@)));
    }
    table
}

/// The counts, from what git printed; none where it failed.
pub fn git_diff_stats(output: &Option<CommandOutput>) -> (r: FileStats)
    ensures
        r@ == match printed(*output) {
            Some(text) => numstat_table(text),
            None => Seq::empty(),
        },
        utf8_printed(*output) matches Some(text) ==> r@ == numstat_table(text),
        distinct_paths(r@),
{
    match successful_output(output) {
        Some(text) => parse_numstat(text.as_str()),
        None => PathTable::new(),
    }
}

/// A line that gives two counts and a path without a tab is read as these.
pub proof fn law_numstat_line_reads_back(added: u32, deleted: u32, path: Seq<char>)
    requires
        !path.contains('\t'),
    ensures
        numstat_entry(
            decimal(added as nat) + seq!['\t'] + (decimal(deleted as nat) + seq!['\t'] + path),
        ) == Some((path, (added, deleted))),
{
    assert forall|n: nat| !(#[trigger] decimal(n)).contains('\t') by {
        if decimal(n).contains('\t') {
            let i = choose|i: int| 0 <= i < decimal(n).len() && decimal(n)[i] == '\t';
            law_decimal_has_only_digits(n, i);
            assert(is_digit('\t'));
        }
    }
    let rest = decimal(deleted as nat) + seq!['\t'] + path;
    lemma_first_field(decimal(added as nat), '\t', rest);
    lemma_first_field(decimal(deleted as nat), '\t', path);
    lemma_single_field(path, '\t');
    law_decimal_reads_back(added);
    law_decimal_reads_back(deleted);
}

/// A line counts for a path exactly where it has at least three fields with tabs between
/// them, of which the first two are numbers; the third is the path, whatever it is.
pub proof fn law_numstat_lines_have_two_numbers(line: Seq<char>)
    ensures
        ({
            let f = fields_of(line, '\t');
            match numstat_entry(line) {
                Some((path, counts)) => f.len() >= 3 && path == f[2] && parsed_u32(f[0]) == Some(
                    counts.0,
                ) && parsed_u32(f[1]) == Some(counts.1),
                None => f.len() < 3 || parsed_u32(f[0]) is None || parsed_u32(f[1]) is None,
            }
        }),
{
}

/// The counts of a path are those of the last line of the output that counts for it, and
/// there are none exactly where no line does.
pub proof fn law_last_count_of_a_path(output: Seq<char>, path: Seq<char>)
    ensures
        match lookup(numstat_table(output), path) {
            Some(counts) => exists|i: int|
                #![trigger lines_of(output)[i]]
                0 <= i < lines_of(output).len() && is_for(numstat_entry(lines_of(output)[i]), path)
                    && (numstat_entry(lines_of(output)[i]) matches Some((_, c)) && c == counts)
                    && forall|j: int|
                    i < j < lines_of(output).len() ==> !is_for(
                        numstat_entry(#[trigger] lines_of(output)[j]),
                        path,
                    ),
            None => forall|i: int|
                0 <= i < lines_of(output).len() ==> !is_for(
                    numstat_entry(#[trigger] lines_of(output)[i]),
                    path,
                ),
        },
{
    lemma_last_line_counts(lines_of(output), |line: Seq<char>| numstat_entry(line), path);
}

/// A line that git prints behind others puts in its counts, if it counts for a path, and
/// changes nothing else.
pub proof fn law_another_line_puts_in_its_counts(output: Seq<char>, line: Seq<char>)
    requires
        output.len() == 0 || output.last() == '\n',
        is_line(line, false),
    ensures
        numstat_table(Seq::empty()).len() == 0,
        numstat_table(output + line + seq!['\n']) == match numstat_entry(line) {
            Some((path, counts)) => inserted(numstat_table(output), path, counts),
            None => numstat_table(output),
        },
{
    law_printed_lines_come_last(output, line);
    lemma_line_is_put_in(lines_of(output), line, |line: Seq<char>| numstat_entry(line));
}

} // verus!
