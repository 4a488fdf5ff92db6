//! Holding one run of a diff against another.

use vstd::prelude::*;

use crate::compare::{
    deep_compare_files, file_difference, law_comparison_ignores_the_path,
    law_no_difference_means_same, same_report,
};
use crate::difft::DifftFile;
use crate::display_path::{display_paths, split_display_path};
use crate::list::{
    filter_mapped, lemma_filter_mapped_empty, lemma_filter_mapped_keeps,
    lemma_filter_mapped_places, lemma_filter_mapped_source, lemma_filter_mapped_step,
};
use crate::number::{decimal, write_decimal};
use crate::path::same_path;
use crate::table::{
    collected, last_value, law_collected_paths_are_distinct, law_last_pair_wins,
    lemma_entry_is_found, lemma_lookup_by_same_path, lemma_position, lookup, position, PathTable,
};
use crate::text::{join, joined, lemma_texts_push, texts};
use crate::vcs::{is_git, uses_git};

verus! {

/// Fails where an operation that only git supports is asked of another system.
pub fn require_git(vcs: &str, operation: &str) -> (r: Result<(), String>)
    ensures
        match r {
            Ok(_) => is_git(vcs@),
            Err(message) => !is_git(vcs@) && message@ == operation@ + " only supports git"@,
        },
{
    if uses_git(vcs) {
        Ok(())
    } else {
        Err(operation.to_owned().concat(" only supports git"))
    }
}

/// The path that a file ends up at.
pub open spec fn final_path(file: DifftFile) -> Seq<char> {
    display_paths(file.path@).1
}

/// Where each file of a run stands, by the path that it ends up at.
pub open spec fn path_index(files: Seq<DifftFile>) -> Seq<(Seq<char>, usize)> {
    collected(path_places(files))
}

/// The place of each file with the path that it ends up at.
pub open spec fn path_places(files: Seq<DifftFile>) -> Seq<(Seq<char>, usize)> {
    Seq::new(files.len(), |i: int| (final_path(files[i]), i as usize))
}

/// Indexes the files of a run by the path that they end up at. Of several files that
/// end up at one path the last one counts.
pub(crate) fn index_by_path(files: &Vec<DifftFile>) -> (r: PathTable<usize>)
    ensures
        r@ == path_index(files@),
{
    let mut table: PathTable<usize> = PathTable::new();
    let mut i: usize = 0;
    let ghost places = path_places(files@);
    proof {
        assert(places.take(0) =~= Seq::<(Seq<char>, usize)>::empty());
    }
    while i < files.len()
        invariant
            i <= files@.len(),
            places == path_places(files@),
            table@ == collected(places.take(i as int)),
        decreases files@.len() - i,
    {
        let (_, path) = split_display_path(files[i].path.as_str());
        proof {
            assert(places.take(i + 1).drop_last() =~= places.take(i as int));
            assert(places.take(i + 1).last() == (path@, i));
        }
        table.insert(path, i);
        i += 1;
    }
    proof {
        assert(places.take(places.len() as int) =~= places);
    }
    table
}

/// The places of an index are places of files.
proof fn lemma_index_places(files: Seq<DifftFile>, n: int)
    requires
        0 <= n <= files.len() <= usize::MAX,
    ensures
        forall|k: int|
            0 <= k < collected(path_places(files).take(n)).len() ==> (#[trigger] collected(
                path_places(files).take(n),
            )[k]).1 < files.len(),
    decreases n,
{
    let places = path_places(files);
    if n > 0 {
        lemma_index_places(files, n - 1);
        assert(places.take(n).drop_last() =~= places.take(n - 1));
        assert(places.take(n).last() == places[n - 1]);
        let before = collected(places.take(n - 1));
        lemma_position(before, places[n - 1].0, 0);
    }
}

/// The file of a run that ends up at a path.
pub open spec fn file_for(files: Seq<DifftFile>, path: Seq<char>) -> Option<DifftFile> {
    match lookup(path_index(files), path) {
        Some(i) => Some(files[i as int]),
        None => None,
    }
}

/// The paths of an index.
pub open spec fn index_paths(index: Seq<(Seq<char>, usize)>) -> Seq<Seq<char>> {
    index.map_values(|e: (Seq<char>, usize)| e.0)
}

/// Finds the file of a run that ends up at a path.
pub(crate) fn find_by_path<'a>(
    files: &'a Vec<DifftFile>,
    index: &PathTable<usize>,
    path: &str,
) -> (r: Option<&'a DifftFile>)
    requires
        index@ == path_index(files@),
    ensures
        match r {
            Some(file) => file_for(files@, path@) == Some(*file),
            None => file_for(files@, path@) is None,
        },
{
    proof {
        lemma_index_places(files@, files.len() as int);
        assert(path_places(files@).take(files@.len() as int) =~= path_places(files@));
        lemma_position(index@, path@, 0);
    }
    match index.get(path) {
        Some(at) => Some(&files[*at]),
        None => None,
    }
}

/// What is wrong with a path of the sequential run: the parallel run lacks it, or has
/// another report on it.
pub open spec fn sequential_error(
    current: Seq<DifftFile>,
    parallel: Seq<DifftFile>,
    entry: (Seq<char>, usize),
) -> Option<Seq<char>> {
    match file_for(parallel, entry.0) {
        None => Some(entry.0 + ": missing from parallel"@),
        Some(file) => match file_difference(current[entry.1 as int], file) {
            Some(difference) => Some(entry.0 + ": "@ + difference),
            None => None,
        },
    }
}

/// What is wrong with a path of the parallel run: the sequential run lacks it.
pub open spec fn parallel_error(current: Seq<DifftFile>, entry: (Seq<char>, usize)) -> Option<
    Seq<char>,
> {
    if lookup(path_index(current), entry.0) is None {
        Some(entry.0 + ": missing from sequential"@)
    } else {
        None
    }
}

/// What is wrong with the paths of the sequential run.
pub open spec fn sequential_errors(
    current: Seq<DifftFile>,
    parallel: Seq<DifftFile>,
    entries: Seq<(Seq<char>, usize)>,
) -> Seq<Seq<char>> {
    filter_mapped(
        entries,
        |entry: (Seq<char>, usize)| sequential_error(current, parallel, entry),
    )
}

/// What is wrong with the paths of the parallel run.
pub open spec fn parallel_errors(
    current: Seq<DifftFile>,
    entries: Seq<(Seq<char>, usize)>,
) -> Seq<Seq<char>> {
    filter_mapped(entries, |entry: (Seq<char>, usize)| parallel_error(current, entry))
}

/// Everything that is wrong: first the paths of the sequential run, in the order in
/// which they first came, then those of the parallel run.
pub open spec fn run_errors(current: Seq<DifftFile>, parallel: Seq<DifftFile>) -> Seq<Seq<char>> {
    sequential_errors(current, parallel, path_index(current)) + parallel_errors(
        current,
        path_index(parallel),
    )
}

/// Whether the parallel run gave what the sequential one gave.
#[derive(Clone, Debug, PartialEq, Eq)]
pub struct VerifyReport {
    pub passed: bool,
    pub files: usize,
    pub message: String,
}

/// The two runs are the same.
pub open spec fn runs_agree(current: Seq<DifftFile>, parallel: Seq<DifftFile>) -> bool {
    current.len() == parallel.len() && run_errors(current, parallel).len() == 0
}

/// What is said of the two runs.
pub open spec fn verify_message(current: Seq<DifftFile>, parallel: Seq<DifftFile>) -> Seq<char> {
    if current.len() != parallel.len() {
        "File count mismatch: sequential="@ + decimal(current.len()) + " parallel="@ + decimal(
            parallel.len(),
        )
    } else if run_errors(current, parallel).len() == 0 {
        "All "@ + decimal(current.len()) + " files identical (deep structural comparison)"@
    } else {
        joined(run_errors(current, parallel), "\n"@)
    }
}

/// Collects what is wrong with the paths of the two runs.
fn collect_errors(current: &Vec<DifftFile>, parallel: &Vec<DifftFile>) -> (r: Vec<String>)
    ensures
        texts(r@) == run_errors(current@, parallel@),
{
    broadcast use lemma_texts_push;

    let current_index = index_by_path(current);
    let parallel_index = index_by_path(parallel);
    let ghost left = path_index(current@);
    let ghost right = path_index(parallel@);
    let mut errors: Vec<String> = Vec::new();
    let mut i: usize = 0;
    proof {
        assert(left.take(0) =~= Seq::<(Seq<char>, usize)>::empty());
        assert(right.take(0) =~= Seq::<(Seq<char>, usize)>::empty());
        assert(texts(errors@) =~= Seq::<Seq<char>>::empty());
        lemma_index_places(current@, current.len() as int);
        assert(path_places(current@).take(current@.len() as int) =~= path_places(current@));
        lemma_index_places(parallel@, parallel.len() as int);
        assert(path_places(parallel@).take(parallel@.len() as int) =~= path_places(parallel@));
    }
    while i < current_index.entries.len()
        invariant
            i <= current_index.entries@.len(),
            left == current_index@,
            left == path_index(current@),
            right == parallel_index@,
            right == path_index(parallel@),
            forall|k: int| 0 <= k < left.len() ==> (#[trigger] left[k]).1 < current@.len(),
            forall|k: int| 0 <= k < right.len() ==> (#[trigger] right[k]).1 < parallel@.len(),
            texts(errors@) == sequential_errors(current@, parallel@, left.take(i as int)),
        decreases current_index.entries@.len() - i,
    {
        proof {
            lemma_filter_mapped_step(
                left,
                |entry: (Seq<char>, usize)| sequential_error(current@, parallel@, entry),
                i as int,
            );
            assert(left[i as int] == (
                current_index.entries@[i as int].0@,
                current_index.entries@[i as int].1,
            ));
            lemma_position(right, current_index.entries@[i as int].0@, 0);
        }
        let path = current_index.entries[i].0.as_str();
        let at: usize = current_index.entries[i].1;
        match parallel_index.get(path) {
            None => {
                errors.push(path.to_owned().concat(": missing from parallel"));
            },
            Some(other) => match deep_compare_files(&current[at], &parallel[*other]) {
                Some(difference) => {
                    errors.push(path.to_owned().concat(": ").concat(difference.as_str()));
                },
                None => {},
            },
        }
        i += 1;
    }
    proof {
        assert(left.take(left.len() as int) =~= left);
        assert(texts(errors@) =~= sequential_errors(current@, parallel@, left) + parallel_errors(
            current@,
            right.take(0),
        ));
    }
    let ghost first = sequential_errors(current@, parallel@, left);
    let mut k: usize = 0;
    while k < parallel_index.entries.len()
        invariant
            k <= parallel_index.entries@.len(),
            left == current_index@,
            left == path_index(current@),
            right == parallel_index@,
            texts(errors@) == first + parallel_errors(current@, right.take(k as int)),
        decreases parallel_index.entries@.len() - k,
    {
        proof {
            lemma_filter_mapped_step(
                right,
                |entry: (Seq<char>, usize)| parallel_error(current@, entry),
                k as int,
            );
            assert(right[k as int].0 == parallel_index.entries@[k as int].0@);
        }
        let path = parallel_index.entries[k].0.as_str();
        if !current_index.contains(path) {
            let error = path.to_owned().concat(": missing from sequential");
            proof {
                let so_far = parallel_errors(current@, right.take(k as int));
                assert((first + so_far).push(error@) =~= first + so_far.push(error@));
            }
            errors.push(error);
        }
        k += 1;
    }
    proof {
        assert(right.take(right.len() as int) =~= right);
    }
    errors
}

/// Verifies that the parallel run gave what the sequential one gave, in every field of
/// every file.
pub fn verify_runs(current: &Vec<DifftFile>, parallel: &Vec<DifftFile>) -> (r: VerifyReport)
    ensures
        r.passed == runs_agree(current@, parallel@),
        r.files == current@.len(),
        r.message@ == verify_message(current@, parallel@),
{
    if current.len() != parallel.len() {
        return VerifyReport {
            passed: false,
            files: current.len(),
            message: "File count mismatch: sequential=".to_owned().concat(
                write_decimal(current.len() as u64).as_str(),
            ).concat(" parallel=").concat(write_decimal(parallel.len() as u64).as_str()),
        };
    }
    let errors = collect_errors(current, parallel);
    proof {
        assert(texts(errors@).len() == errors@.len());
    }
    if errors.len() == 0 {
        VerifyReport {
            passed: true,
            files: current.len(),
            message: "All ".to_owned().concat(write_decimal(current.len() as u64).as_str()).concat(
                " files identical (deep structural comparison)",
            ),
        }
    } else {
        VerifyReport {
            passed: false,
            files: current.len(),
            message: join(&errors, "\n"),
        }
    }
}

/// The two runs have the same report on a path, or neither has one.
pub open spec fn agree_on(
    current: Seq<DifftFile>,
    parallel: Seq<DifftFile>,
    path: Seq<char>,
) -> bool {
    match (file_for(current, path), file_for(parallel, path)) {
        (Some(a), Some(b)) => same_report(a, b),
        (None, None) => true,
        _ => false,
    }
}

/// Nothing is wrong exactly where the two runs agree on every path.
pub proof fn law_no_errors_means_agreement(current: Seq<DifftFile>, parallel: Seq<DifftFile>)
    ensures
        run_errors(current, parallel).len() == 0 <==> forall|path: Seq<char>| #[trigger]
            agree_on(current, parallel, path),
{
    let left = path_index(current);
    let right = path_index(parallel);
    let f = |entry: (Seq<char>, usize)| sequential_error(current, parallel, entry);
    let g = |entry: (Seq<char>, usize)| parallel_error(current, entry);
    law_collected_paths_are_distinct(path_places(current));
    law_collected_paths_are_distinct(path_places(parallel));
    lemma_filter_mapped_empty(left, f);
    lemma_filter_mapped_empty(right, g);
    if run_errors(current, parallel).len() == 0 {
        assert forall|path: Seq<char>| #[trigger] agree_on(current, parallel, path) by {
            lemma_position(left, path, 0);
            lemma_position(right, path, 0);
            match (position(left, path, 0), position(right, path, 0)) {
                (Some(i), _) => {
                    assert(f(left[i]) is None);
                    lemma_lookup_by_same_path(right, left[i].0, path);
                    let a = current[left[i].1 as int];
                    let b = file_for(parallel, path)->0;
                    law_no_difference_means_same(a, b);
                },
                (None, Some(k)) => {
                    assert(g(right[k]) is None);
                    lemma_lookup_by_same_path(left, right[k].0, path);
                },
                (None, None) => {},
            }
        }
    }
    if forall|path: Seq<char>| #[trigger] agree_on(current, parallel, path) {
        assert forall|i: int| 0 <= i < left.len() implies f(#[trigger] left[i]) is None by {
            assert(agree_on(current, parallel, left[i].0));
            lemma_entry_is_found(left, i);
            let a = current[left[i].1 as int];
            let b = file_for(parallel, left[i].0)->0;
            law_no_difference_means_same(a, b);
        }
        assert forall|k: int| 0 <= k < right.len() implies g(#[trigger] right[k]) is None by {
            assert(agree_on(current, parallel, right[k].0));
            lemma_entry_is_found(right, k);
        }
    }
}

/// A run agrees with itself.
pub proof fn law_run_agrees_with_itself(files: Seq<DifftFile>)
    ensures
        runs_agree(files, files),
{
    law_no_errors_means_agreement(files, files);
    assert forall|path: Seq<char>| #[trigger] agree_on(files, files, path) by {
        match file_for(files, path) {
            Some(file) => {
                law_comparison_ignores_the_path(file, file.path);
                law_no_difference_means_same(file, DifftFile { path: file.path, ..file });
            },
            None => {},
        }
    }
}

/// A run has the last of its files that ends up at a path, and none exactly where no
/// file ends up there.
pub proof fn law_last_file_at_a_path_counts(files: Seq<DifftFile>, path: Seq<char>)
    requires
        files.len() <= usize::MAX,
    ensures
        match file_for(files, path) {
            Some(file) => exists|i: int|
                0 <= i < files.len() && #[trigger] files[i] == file && same_path(
                    display_paths(files[i].path@).1,
                    path,
                ) && forall|j: int|
                    i < j < files.len() ==> !same_path(
                        display_paths((#[trigger] files[j]).path@).1,
                        path,
                    ),
            None => forall|i: int|
                0 <= i < files.len() ==> !same_path(
                    display_paths((#[trigger] files[i]).path@).1,
                    path,
                ),
        },
{
    let places = path_places(files);
    law_last_pair_wins(places, path);
    lemma_last_place(files, path, files.len() as int);
    assert(places.take(files.len() as int) =~= places);
}

proof fn lemma_last_place(files: Seq<DifftFile>, path: Seq<char>, n: int)
    requires
        0 <= n <= files.len() <= usize::MAX,
    ensures
        match last_value(path_places(files).take(n), path) {
            Some(at) => {
                &&& at < n
                &&& same_path(final_path(files[at as int]), path)
                &&& forall|j: int|
                    at < j < n ==> !same_path(final_path(#[trigger] files[j]), path)
            },
            None => forall|i: int|
                0 <= i < n ==> !same_path(final_path(#[trigger] files[i]), path),
        },
    decreases n,
{
    let places = path_places(files);
    if n > 0 {
        lemma_last_place(files, path, n - 1);
        assert(places.take(n).drop_last() =~= places.take(n - 1));
        assert(places.take(n).last() == (final_path(files[n - 1]), (n - 1) as usize));
    }
}

/// The verification passes exactly where the two runs have the same number of files and
/// agree on every path.
pub proof fn law_verdict_means_agreement(current: Seq<DifftFile>, parallel: Seq<DifftFile>)
    ensures
        runs_agree(current, parallel) <==> current.len() == parallel.len() && forall|
            path: Seq<char>,
        | #[trigger] agree_on(current, parallel, path),
{
    law_no_errors_means_agreement(current, parallel);
}

/// A single path on which the runs differ, or that one of them lacks, fails the
/// verification.
pub proof fn law_one_difference_fails_the_verification(
    current: Seq<DifftFile>,
    parallel: Seq<DifftFile>,
    path: Seq<char>,
)
    requires
        match (file_for(current, path), file_for(parallel, path)) {
            (Some(a), Some(b)) => file_difference(a, b) is Some,
            (None, None) => false,
            _ => true,
        },
    ensures
        !runs_agree(current, parallel),
        current.len() == parallel.len() ==> run_errors(current, parallel).len() > 0,
{
    law_verdict_means_agreement(current, parallel);
    law_no_errors_means_agreement(current, parallel);
    match (file_for(current, path), file_for(parallel, path)) {
        (Some(a), Some(b)) => {
            law_no_difference_means_same(a, b);
        },
        _ => {},
    }
    assert(!agree_on(current, parallel, path));
}

/// The message tells the two numbers of files where they differ, that all files are
/// identical where the runs agree, and else every error on a line of its own.
pub proof fn law_message_fits_the_verdict(current: Seq<DifftFile>, parallel: Seq<DifftFile>)
    ensures
        current.len() != parallel.len() ==> verify_message(current, parallel)
            == "File count mismatch: sequential="@ + decimal(current.len()) + " parallel="@
            + decimal(parallel.len()),
        runs_agree(current, parallel) ==> verify_message(current, parallel) == "All "@ + decimal(
            current.len(),
        ) + " files identical (deep structural comparison)"@,
        current.len() == parallel.len() && !runs_agree(current, parallel) ==> verify_message(
            current,
            parallel,
        ) == joined(run_errors(current, parallel), seq!['\n']),
{
    reveal_strlit("\n");
    assert("\n"@ =~= seq!['\n']);
}

/// The error is one of the sequential run at a path: the parallel run lacks the path, or
/// differs there.
pub open spec fn is_sequential_error(
    current: Seq<DifftFile>,
    parallel: Seq<DifftFile>,
    path: Seq<char>,
    error: Seq<char>,
) -> bool {
    match (file_for(current, path), file_for(parallel, path)) {
        (Some(_), None) => error == path + ": missing from parallel"@,
        (Some(a), Some(b)) => match file_difference(a, b) {
            Some(difference) => error == path + ": "@ + difference,
            None => false,
        },
        _ => false,
    }
}

/// The error is one of the parallel run at a path: the sequential run lacks the path.
pub open spec fn is_parallel_error(
    current: Seq<DifftFile>,
    parallel: Seq<DifftFile>,
    path: Seq<char>,
    error: Seq<char>,
) -> bool {
    file_for(current, path) is None && file_for(parallel, path) is Some && error == path
        + ": missing from sequential"@
}

/// Every error is about a path: one that the other run lacks, or on which the two runs
/// differ, with what first tells them apart.
pub proof fn law_every_error_is_true(
    current: Seq<DifftFile>,
    parallel: Seq<DifftFile>,
    k: int,
)
    requires
        0 <= k < run_errors(current, parallel).len(),
    ensures
        exists|path: Seq<char>|
            is_sequential_error(current, parallel, path, run_errors(current, parallel)[k])
                || is_parallel_error(current, parallel, path, run_errors(current, parallel)[k]),
{
    let left = path_index(current);
    let right = path_index(parallel);
    let f = |entry: (Seq<char>, usize)| sequential_error(current, parallel, entry);
    let g = |entry: (Seq<char>, usize)| parallel_error(current, entry);
    let first = filter_mapped(left, f);
    let error = run_errors(current, parallel)[k];
    law_collected_paths_are_distinct(path_places(current));
    law_collected_paths_are_distinct(path_places(parallel));
    if k < first.len() {
        lemma_filter_mapped_source(left, f, k);
        let i = choose|i: int| 0 <= i < left.len() && f(#[trigger] left[i]) == Some(first[k]);
        lemma_entry_is_found(left, i);
        assert(is_sequential_error(current, parallel, left[i].0, error));
    } else {
        let second = filter_mapped(right, g);
        lemma_filter_mapped_source(right, g, k - first.len());
        let i = choose|i: int|
            0 <= i < right.len() && g(#[trigger] right[i]) == Some(second[k - first.len()]);
        lemma_entry_is_found(right, i);
        assert(is_parallel_error(current, parallel, right[i].0, error));
    }
}

/// Every path of a run on which something is wrong has its error among those told, under
/// one way of writing the path.
pub proof fn law_every_difference_is_told(
    current: Seq<DifftFile>,
    parallel: Seq<DifftFile>,
    path: Seq<char>,
)
    ensures
        !agree_on(current, parallel, path) ==> exists|shown: Seq<char>, k: int|
            #![trigger same_path(shown, path), run_errors(current, parallel)[k]]
            same_path(shown, path) && 0 <= k < run_errors(current, parallel).len() && (
            is_sequential_error(current, parallel, shown, run_errors(current, parallel)[k])
                || is_parallel_error(current, parallel, shown, run_errors(current, parallel)[k])),
{
    if !agree_on(current, parallel, path) {
        let left = path_index(current);
        let right = path_index(parallel);
        let f = |entry: (Seq<char>, usize)| sequential_error(current, parallel, entry);
        let g = |entry: (Seq<char>, usize)| parallel_error(current, entry);
        let first = filter_mapped(left, f);
        let second = filter_mapped(right, g);
        law_collected_paths_are_distinct(path_places(current));
        law_collected_paths_are_distinct(path_places(parallel));
        lemma_position(left, path, 0);
        lemma_position(right, path, 0);
        match position(left, path, 0) {
            Some(i) => {
                lemma_entry_is_found(left, i);
                lemma_lookup_by_same_path(right, left[i].0, path);
                let a = current[left[i].1 as int];
                match file_for(parallel, path) {
                    Some(b) => {
                        law_no_difference_means_same(a, b);
                    },
                    None => {},
                }
                assert(f(left[i]) is Some);
                lemma_filter_mapped_keeps(left, f, i);
                let k = choose|k: int| 0 <= k < first.len() && first[k] == f(left[i])->0;
                assert(run_errors(current, parallel)[k] == first[k]);
                assert(is_sequential_error(current, parallel, left[i].0, first[k]));
                assert(same_path(left[i].0, path));
            },
            None => {
                let i = position(right, path, 0)->0;
                lemma_entry_is_found(right, i);
                lemma_lookup_by_same_path(left, right[i].0, path);
                assert(g(right[i]) is Some);
                lemma_filter_mapped_keeps(right, g, i);
                let k = choose|k: int| 0 <= k < second.len() && second[k] == g(right[i])->0;
                assert(run_errors(current, parallel)[first.len() + k] == second[k]);
                assert(is_parallel_error(current, parallel, right[i].0, second[k]));
                assert(same_path(right[i].0, path));
            },
        }
    }
}

/// The two runs agree on a path exactly where both have a file there and the deep
/// comparison finds no difference, or neither has one.
pub proof fn law_agreement_is_no_difference(
    current: Seq<DifftFile>,
    parallel: Seq<DifftFile>,
    path: Seq<char>,
)
    ensures
        agree_on(current, parallel, path) <==> {
            ||| file_for(current, path) is None && file_for(parallel, path) is None
            ||| file_for(current, path) is Some && file_for(parallel, path) is Some
                && file_difference(
                file_for(current, path)->0,
                file_for(parallel, path)->0,
            ) is None
        },
{
    if file_for(current, path) is Some && file_for(parallel, path) is Some {
        law_no_difference_means_same(file_for(current, path)->0, file_for(parallel, path)->0);
    }
}

/// Each path on which something is wrong is told of once: first those that the sequential
/// run has, and then those that it lacks.
pub proof fn law_each_difference_is_told_once(
    current: Seq<DifftFile>,
    parallel: Seq<DifftFile>,
) -> (r: (Seq<Seq<char>>, int))
    ensures
        ({
            let (paths, split) = r;
            let errors = run_errors(current, parallel);
            &&& paths.len() == errors.len()
            &&& 0 <= split <= errors.len()
            &&& forall|k: int|
                0 <= k < split ==> is_sequential_error(
                    current,
                    parallel,
                    #[trigger] paths[k],
                    errors[k],
                )
            &&& forall|k: int|
                split <= k < errors.len() ==> is_parallel_error(
                    current,
                    parallel,
                    #[trigger] paths[k],
                    errors[k],
                )
            &&& forall|k: int, l: int|
                0 <= k < l < errors.len() ==> !same_path(#[trigger] paths[k], #[trigger] paths[l])
        }),
{
    let left = path_index(current);
    let right = path_index(parallel);
    let f = |entry: (Seq<char>, usize)| sequential_error(current, parallel, entry);
    let g = |entry: (Seq<char>, usize)| parallel_error(current, entry);
    let errors = run_errors(current, parallel);
    let split = filter_mapped(left, f).len() as int;
    let first = lemma_filter_mapped_places(left, f);
    let second = lemma_filter_mapped_places(right, g);
    law_collected_paths_are_distinct(path_places(current));
    law_collected_paths_are_distinct(path_places(parallel));
    let paths = Seq::new(
        errors.len(),
        |k: int|
            if k < split {
                left[first[k]].0
            } else {
                right[second[k - split]].0
            },
    );
    assert forall|k: int| 0 <= k < split implies is_sequential_error(
        current,
        parallel,
        #[trigger] paths[k],
        errors[k],
    ) by {
        assert(f(left[first[k]]) == Some(errors[k]));
        lemma_entry_is_found(left, first[k]);
    }
    assert forall|k: int| split <= k < errors.len() implies is_parallel_error(
        current,
        parallel,
        #[trigger] paths[k],
        errors[k],
    ) by {
        assert(g(right[second[k - split]]) == Some(errors[k]));
        lemma_entry_is_found(right, second[k - split]);
    }
    assert forall|k: int, l: int| 0 <= k < l < errors.len() implies !same_path(
        #[trigger] paths[k],
        #[trigger] paths[l],
    ) by {
        if l < split {
            assert(first[k] < first[l]);
        } else if k >= split {
            assert(second[k - split] < second[l - split]);
        } else if same_path(paths[k], paths[l]) {
            lemma_lookup_by_same_path(left, paths[k], paths[l]);
            assert(is_sequential_error(current, parallel, paths[k], errors[k]));
            assert(is_parallel_error(current, parallel, paths[l], errors[l]));
        }
    }
    (paths, split)
}

} // verus!
