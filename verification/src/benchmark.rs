//! The file by file comparison of two runs that a benchmark reports.

use vstd::prelude::*;

use crate::compare::{deep_compare_files, file_difference, law_no_difference_means_same};
use crate::difft::{DiffLine, DifftFile, Side, Status};
use crate::display_path::display_paths;
use crate::list::{
    filter_mapped, lemma_filter_mapped_all, lemma_filter_mapped_keeps, lemma_filter_mapped_step,
    lemma_sum_covers, lemma_sum_grows, lemma_sum_step, lemma_sum_zero, sum_by,
};
use crate::path::same_path;
use crate::path_order::{
    has_path, increasing, law_first_spelling_is_kept, law_ordered_paths, ordered, sort_paths,
};
use crate::report::{
    agree_on, file_for, find_by_path, index_by_path, index_paths, law_no_errors_means_agreement,
    path_index, path_places, run_errors,
};
use crate::table::{
    law_first_pair_names_the_path, lemma_lookup_by_same_path, lemma_position, position, PathTable,
};
use crate::text::{text_option, texts};

verus! {

/// The changes of a side that may be missing.
pub open spec fn side_changes(side: Option<Side>) -> nat {
    match side {
        Some(side) => side.changes@.len(),
        None => 0,
    }
}

/// The changes of a line.
pub open spec fn line_changes(line: DiffLine) -> nat {
    side_changes(line.lhs) + side_changes(line.rhs)
}

/// The changes of a chunk.
pub open spec fn chunk_changes(chunk: Seq<DiffLine>) -> nat {
    sum_by(chunk, |line: DiffLine| line_changes(line))
}

/// The changes of a file.
pub open spec fn file_changes(file: DifftFile) -> nat {
    sum_by(file.chunks@, |chunk: Vec<DiffLine>| chunk_changes(chunk@))
}

/// A number, if it fits.
pub open spec fn fitting(n: nat) -> Option<usize> {
    if n <= usize::MAX {
        Some(n as usize)
    } else {
        None
    }
}

/// Counts the changes of a side.
fn count_side(side: &Option<Side>) -> (r: usize)
    ensures
        r == side_changes(*side),
{
    match side {
        Some(side) => side.changes.len(),
        None => 0,
    }
}

/// Counts the changes of a chunk.
fn count_chunk(chunk: &Vec<DiffLine>) -> (r: Option<usize>)
    ensures
        r == fitting(chunk_changes(chunk@)),
{
    let ghost f = |line: DiffLine| line_changes(line);
    let mut sum: usize = 0;
    let mut i: usize = 0;
    while i < chunk.len()
        invariant
            i <= chunk@.len(),
            f == (|line: DiffLine| line_changes(line)),
            sum == sum_by(chunk@.take(i as int), f),
        decreases chunk@.len() - i,
    {
        proof {
            lemma_sum_step(chunk@, f, i as int);
            lemma_sum_grows(chunk@, f, i + 1);
        }
        let left: usize = count_side(&chunk[i].lhs);
        let right: usize = count_side(&chunk[i].rhs);
        sum = match sum.checked_add(left) {
            Some(part) => match part.checked_add(right) {
                Some(whole) => whole,
                None => {
                    return None;
                },
            },
            None => {
                return None;
            },
        };
        i += 1;
    }
    proof {
        assert(chunk@.take(chunk@.len() as int) =~= chunk@);
    }
    Some(sum)
}

/// Counts the changes of a file, if their number fits.
pub fn count_changes(file: &DifftFile) -> (r: Option<usize>)
    ensures
        r == fitting(file_changes(*file)),
{
    let ghost f = |chunk: Vec<DiffLine>| chunk_changes(chunk@);
    let ghost chunks = file.chunks@;
    let mut sum: usize = 0;
    let mut i: usize = 0;
    while i < file.chunks.len()
        invariant
            i <= file.chunks@.len(),
            chunks == file.chunks@,
            f == (|chunk: Vec<DiffLine>| chunk_changes(chunk@)),
            sum == sum_by(chunks.take(i as int), f),
        decreases file.chunks@.len() - i,
    {
        proof {
            lemma_sum_step(chunks, f, i as int);
            lemma_sum_grows(chunks, f, i + 1);
        }
        sum = match count_chunk(&file.chunks[i]) {
            Some(count) => match sum.checked_add(count) {
                Some(whole) => whole,
                None => {
                    return None;
                },
            },
            None => {
                return None;
            },
        };
        i += 1;
    }
    proof {
        assert(chunks.take(chunks.len() as int) =~= chunks);
    }
    Some(sum)
}

/// What two runs have on one path.
#[derive(Clone, Debug, PartialEq, Eq)]
pub enum FileComparison {
    /// Both runs have a report. The counts are those of the current one.
    Both {
        path: String,
        first_difference: Option<String>,
        status_current: Status,
        status_parallel: Status,
        language: String,
        chunks: usize,
        aligned_lines: usize,
        changes: usize,
    },
    /// Only the current run has one.
    OnlyCurrent { path: String, status: Status },
    /// Only the parallel run has one.
    OnlyParallel { path: String, status: Status },
}

/// What two runs have on one path, as values.
pub enum Compared {
    Both {
        path: Seq<char>,
        first_difference: Option<Seq<char>>,
        status_current: Status,
        status_parallel: Status,
        language: Seq<char>,
        chunks: nat,
        aligned_lines: nat,
        changes: nat,
    },
    OnlyCurrent { path: Seq<char>, status: Status },
    OnlyParallel { path: Seq<char>, status: Status },
}

impl View for FileComparison {
    type V = Compared;

    open spec fn view(&self) -> Compared {
        match *self {
            FileComparison::Both {
                path,
                first_difference,
                status_current,
                status_parallel,
                language,
                chunks,
                aligned_lines,
                changes,
            } => Compared::Both {
                path: path@,
                first_difference: text_option(first_difference),
                status_current,
                status_parallel,
                language: language@,
                chunks: chunks as nat,
                aligned_lines: aligned_lines as nat,
                changes: changes as nat,
            },
            FileComparison::OnlyCurrent { path, status } => Compared::OnlyCurrent {
                path: path@,
                status,
            },
            FileComparison::OnlyParallel { path, status } => Compared::OnlyParallel {
                path: path@,
                status,
            },
        }
    }
}

/// What the two runs have on a path.
pub open spec fn compared(
    current: Seq<DifftFile>,
    parallel: Seq<DifftFile>,
    path: Seq<char>,
) -> Option<Compared> {
    match (file_for(current, path), file_for(parallel, path)) {
        (Some(c), Some(p)) => Some(
            Compared::Both {
                path,
                first_difference: file_difference(c, p),
                status_current: c.status,
                status_parallel: p.status,
                language: c.language@,
                chunks: c.chunks@.len(),
                aligned_lines: c.aligned_lines@.len(),
                changes: file_changes(c),
            },
        ),
        (Some(c), None) => Some(Compared::OnlyCurrent { path, status: c.status }),
        (None, Some(p)) => Some(Compared::OnlyParallel { path, status: p.status }),
        (None, None) => None,
    }
}

/// The paths of both runs, in order, each once.
pub open spec fn all_paths(current: Seq<DifftFile>, parallel: Seq<DifftFile>) -> Seq<Seq<char>> {
    ordered(index_paths(path_index(current)) + index_paths(path_index(parallel)))
}

/// What the two runs have on each of some paths.
pub open spec fn compared_paths(
    current: Seq<DifftFile>,
    parallel: Seq<DifftFile>,
    paths: Seq<Seq<char>>,
) -> Seq<Compared> {
    filter_mapped(paths, |path: Seq<char>| compared(current, parallel, path))
}

/// What the two runs have on each path.
pub open spec fn compared_runs(current: Seq<DifftFile>, parallel: Seq<DifftFile>) -> Seq<Compared> {
    compared_paths(current, parallel, all_paths(current, parallel))
}

/// Something that is counted over the paths.
#[derive(Clone, Copy, Debug, PartialEq, Eq, Structural)]
pub enum Counter {
    Matched,
    Mismatched,
    OnlyCurrent,
    OnlyParallel,
    Chunks,
    AlignedLines,
    Changes,
}

/// What a path adds to a counter.
pub open spec fn adds(counter: Counter, c: Compared) -> nat {
    match (counter, c) {
        (Counter::Matched, Compared::Both { first_difference: None, .. }) => 1,
        (Counter::Mismatched, Compared::Both { first_difference: Some(_), .. }) => 1,
        (Counter::Chunks, Compared::Both { chunks, .. }) => chunks,
        (Counter::AlignedLines, Compared::Both { aligned_lines, .. }) => aligned_lines,
        (Counter::Changes, Compared::Both { changes, .. }) => changes,
        (Counter::OnlyCurrent, Compared::OnlyCurrent { .. }) => 1,
        (Counter::OnlyParallel, Compared::OnlyParallel { .. }) => 1,
        _ => 0,
    }
}

/// A counter, over all paths.
pub open spec fn count(counter: Counter, list: Seq<Compared>) -> nat {
    sum_by(list, |c: Compared| adds(counter, c))
}

/// The views of a list of comparisons.
pub open spec fn compared_views(list: Seq<FileComparison>) -> Seq<Compared> {
    list.map_values(|c: FileComparison| c@)
}

/// The comparison of two runs.
#[derive(Clone, Debug, PartialEq, Eq)]
pub struct RunComparison {
    pub total_files: usize,
    pub files_matched: u32,
    pub files_mismatched: u32,
    pub only_in_current: u32,
    pub only_in_parallel: u32,
    pub total_chunks: usize,
    pub total_aligned_lines: usize,
    pub total_changes: usize,
    pub per_file: Vec<FileComparison>,
}

/// The counters fit.
pub open spec fn counters_fit(list: Seq<Compared>) -> bool {
    &&& count(Counter::Matched, list) <= u32::MAX
    &&& count(Counter::Mismatched, list) <= u32::MAX
    &&& count(Counter::OnlyCurrent, list) <= u32::MAX
    &&& count(Counter::OnlyParallel, list) <= u32::MAX
    &&& count(Counter::Chunks, list) <= usize::MAX
    &&& count(Counter::AlignedLines, list) <= usize::MAX
    &&& count(Counter::Changes, list) <= usize::MAX
}

/// What a path adds to a counter.
fn addition(counter: Counter, c: &FileComparison) -> (r: usize)
    ensures
        r == adds(counter, c@),
{
    match c {
        FileComparison::Both { first_difference, chunks, aligned_lines, changes, .. } => {
            match counter {
                Counter::Matched => if first_difference.is_none() {
                    1
                } else {
                    0
                },
                Counter::Mismatched => if first_difference.is_none() {
                    0
                } else {
                    1
                },
                Counter::Chunks => *chunks,
                Counter::AlignedLines => *aligned_lines,
                Counter::Changes => *changes,
                _ => 0,
            }
        },
        FileComparison::OnlyCurrent { .. } => match counter {
            Counter::OnlyCurrent => 1,
            _ => 0,
        },
        FileComparison::OnlyParallel { .. } => match counter {
            Counter::OnlyParallel => 1,
            _ => 0,
        },
    }
}

/// Counts over all paths, if the number fits.
fn total(counter: Counter, list: &Vec<FileComparison>) -> (r: Option<usize>)
    ensures
        r == fitting(count(counter, compared_views(list@))),
{
    let ghost views = compared_views(list@);
    let ghost f = |c: Compared| adds(counter, c);
    let mut sum: usize = 0;
    let mut i: usize = 0;
    while i < list.len()
        invariant
            i <= list@.len(),
            views == compared_views(list@),
            f == (|c: Compared| adds(counter, c)),
            sum == sum_by(views.take(i as int), f),
        decreases list@.len() - i,
    {
        proof {
            lemma_sum_step(views, f, i as int);
            lemma_sum_grows(views, f, i + 1);
            assert(views[i as int] == list@[i as int]@);
        }
        sum = match sum.checked_add(addition(counter, &list[i])) {
            Some(whole) => whole,
            None => {
                return None;
            },
        };
        i += 1;
    }
    proof {
        assert(views.take(views.len() as int) =~= views);
    }
    Some(sum)
}

/// Counts files, if the number fits.
fn file_total(counter: Counter, list: &Vec<FileComparison>) -> (r: Option<u32>)
    ensures
        match r {
            Some(n) => count(counter, compared_views(list@)) == n,
            None => count(counter, compared_views(list@)) > u32::MAX,
        },
{
    match total(counter, list) {
        Some(n) => if n as u64 > u32::MAX as u64 {
            None
        } else {
            Some(n as u32)
        },
        None => None,
    }
}

/// Compares what the two runs have on each path, if the changes of each can be counted.
fn compare_paths(
    current: &Vec<DifftFile>,
    parallel: &Vec<DifftFile>,
    paths: &Vec<String>,
    current_index: &PathTable<usize>,
    parallel_index: &PathTable<usize>,
) -> (r: Option<Vec<FileComparison>>)
    requires
        current_index@ == path_index(current@),
        parallel_index@ == path_index(parallel@),
    ensures
        match r {
            Some(list) => compared_views(list@) == compared_paths(
                current@,
                parallel@,
                texts(paths@),
            ),
            None => count(
                Counter::Changes,
                compared_paths(current@, parallel@, texts(paths@)),
            ) > usize::MAX,
        },
{
    let ghost all = texts(paths@);
    let ghost f = |path: Seq<char>| compared(current@, parallel@, path);
    let mut list: Vec<FileComparison> = Vec::new();
    let mut i: usize = 0;
    proof {
        assert(all.take(0) =~= Seq::<Seq<char>>::empty());
        assert(compared_views(list@) =~= Seq::<Compared>::empty());
    }
    while i < paths.len()
        invariant
            i <= paths@.len(),
            all == texts(paths@),
            f == (|path: Seq<char>| compared(current@, parallel@, path)),
            current_index@ == path_index(current@),
            parallel_index@ == path_index(parallel@),
            compared_views(list@) == compared_paths(current@, parallel@, all.take(i as int)),
        decreases paths@.len() - i,
    {
        let path = paths[i].as_str();
        let ghost before = list@;
        proof {
            lemma_filter_mapped_step(all, f, i as int);
            assert(all[i as int] == path@);
        }
        match (
            find_by_path(current, current_index, path),
            find_by_path(parallel, parallel_index, path),
        ) {
            (Some(c), Some(p)) => {
                let changes: usize = match count_changes(c) {
                    Some(n) => n,
                    None => {
                        proof {
                            lemma_filter_mapped_keeps(all, f, i as int);
                            let whole = compared_paths(current@, parallel@, all);
                            let k = choose|k: int|
                                0 <= k < whole.len() && whole[k] == f(all[i as int])->0;
                            lemma_sum_covers(whole, |c: Compared| adds(Counter::Changes, c), k);
                        }
                        return None;
                    },
                };
                let one = FileComparison::Both {
                    path: path.to_owned(),
                    first_difference: deep_compare_files(c, p),
                    status_current: c.status,
                    status_parallel: p.status,
                    language: c.language.clone(),
                    chunks: c.chunks.len(),
                    aligned_lines: c.aligned_lines.len(),
                    changes,
                };
                proof {
                    assert(compared_views(before.push(one)) =~= compared_views(before).push(one@));
                }
                list.push(one);
            },
            (Some(c), None) => {
                let one = FileComparison::OnlyCurrent { path: path.to_owned(), status: c.status };
                proof {
                    assert(compared_views(before.push(one)) =~= compared_views(before).push(one@));
                }
                list.push(one);
            },
            (None, Some(p)) => {
                let one = FileComparison::OnlyParallel { path: path.to_owned(), status: p.status };
                proof {
                    assert(compared_views(before.push(one)) =~= compared_views(before).push(one@));
                }
                list.push(one);
            },
            (None, None) => {},
        }
        i += 1;
    }
    proof {
        assert(all.take(all.len() as int) =~= all);
    }
    Some(list)
}

/// Compares two runs file by file. There is no comparison where a counter does not fit.
pub fn compare_runs(current: &Vec<DifftFile>, parallel: &Vec<DifftFile>) -> (r: Option<
    RunComparison,
>)
    ensures
        r is Some <==> counters_fit(compared_runs(current@, parallel@)),
        r matches Some(c) ==> {
            let list = compared_runs(current@, parallel@);
            &&& compared_views(c.per_file@) == list
            &&& c.total_files == all_paths(current@, parallel@).len()
            &&& c.files_matched == count(Counter::Matched, list)
            &&& c.files_mismatched == count(Counter::Mismatched, list)
            &&& c.only_in_current == count(Counter::OnlyCurrent, list)
            &&& c.only_in_parallel == count(Counter::OnlyParallel, list)
            &&& c.total_chunks == count(Counter::Chunks, list)
            &&& c.total_aligned_lines == count(Counter::AlignedLines, list)
            &&& c.total_changes == count(Counter::Changes, list)
        },
{
    let current_index = index_by_path(current);
    let parallel_index = index_by_path(parallel);
    let mut keys = current_index.paths();
    let mut more = parallel_index.paths();
    let ghost left = keys@;
    let ghost right = more@;
    keys.append(&mut more);
    proof {
        assert(texts(keys@) =~= texts(left) + texts(right));
    }
    let paths = sort_paths(&keys);
    let per_file = match compare_paths(
        current,
        parallel,
        &paths,
        &current_index,
        &parallel_index,
    ) {
        Some(list) => list,
        None => {
            return None;
        },
    };
    proof {
        assert(texts(paths@).len() == paths@.len());
    }
    match (
        file_total(Counter::Matched, &per_file),
        file_total(Counter::Mismatched, &per_file),
        file_total(Counter::OnlyCurrent, &per_file),
        file_total(Counter::OnlyParallel, &per_file),
        total(Counter::Chunks, &per_file),
        total(Counter::AlignedLines, &per_file),
        total(Counter::Changes, &per_file),
    ) {
        (
            Some(files_matched),
            Some(files_mismatched),
            Some(only_in_current),
            Some(only_in_parallel),
            Some(total_chunks),
            Some(total_aligned_lines),
            Some(total_changes),
        ) => Some(
            RunComparison {
                total_files: paths.len(),
                files_matched,
                files_mismatched,
                only_in_current,
                only_in_parallel,
                total_chunks,
                total_aligned_lines,
                total_changes,
                per_file,
            },
        ),
        _ => None,
    }
}

impl RunComparison {
    /// Whether the two runs have the same report on every path.
    pub fn all_identical(&self) -> (r: bool)
        ensures
            r == (self.files_mismatched == 0 && self.only_in_current == 0 && self.only_in_parallel
                == 0),
    {
        self.files_mismatched == 0 && self.only_in_current == 0 && self.only_in_parallel == 0
    }
}

/// What a comparison is reported as.
pub open spec fn verdict(c: Compared) -> Seq<char> {
    match c {
        Compared::Both { first_difference, .. } => if first_difference is None {
            "MATCH"@
        } else {
            "MISMATCH"@
        },
        Compared::OnlyCurrent { .. } => "ONLY_IN_CURRENT"@,
        Compared::OnlyParallel { .. } => "ONLY_IN_PARALLEL"@,
    }
}

impl FileComparison {
    /// What the comparison is reported as.
    pub fn result(&self) -> (r: String)
        ensures
            r@ == verdict(self@),
    {
        match self {
            FileComparison::Both { first_difference, .. } => if first_difference.is_none() {
                "MATCH".to_owned()
            } else {
                "MISMATCH".to_owned()
            },
            FileComparison::OnlyCurrent { .. } => "ONLY_IN_CURRENT".to_owned(),
            FileComparison::OnlyParallel { .. } => "ONLY_IN_PARALLEL".to_owned(),
        }
    }
}

/// A run has a file for a path exactly where its index has the path.
proof fn lemma_indexed(files: Seq<DifftFile>, path: Seq<char>)
    ensures
        file_for(files, path) is Some <==> has_path(index_paths(path_index(files)), path),
{
    let index = path_index(files);
    let paths = index_paths(index);
    lemma_position(index, path, 0);
    if position(index, path, 0) is Some {
        let i = position(index, path, 0)->0;
        assert(same_path(paths[i], path));
    }
    if has_path(paths, path) {
        let i = choose|i: int| 0 <= i < paths.len() && same_path(#[trigger] paths[i], path);
        assert(paths[i] == index[i].0);
    }
}

/// The paths of both runs are those that one of them has a file for.
proof fn lemma_all_paths(current: Seq<DifftFile>, parallel: Seq<DifftFile>, path: Seq<char>)
    ensures
        has_path(all_paths(current, parallel), path) <==> file_for(current, path) is Some
            || file_for(parallel, path) is Some,
{
    let left = index_paths(path_index(current));
    let right = index_paths(path_index(parallel));
    let both = left + right;
    lemma_indexed(current, path);
    lemma_indexed(parallel, path);
    law_ordered_paths(both);
    assert(has_path(ordered(both), path) <==> has_path(both, path));
    if has_path(both, path) {
        let i = choose|i: int| 0 <= i < both.len() && same_path(#[trigger] both[i], path);
        if i < left.len() {
            assert(same_path(left[i], path));
        } else {
            assert(same_path(right[i - left.len()], path));
        }
    }
    if has_path(left, path) {
        let i = choose|i: int| 0 <= i < left.len() && same_path(#[trigger] left[i], path);
        assert(same_path(both[i], path));
    }
    if has_path(right, path) {
        let i = choose|i: int| 0 <= i < right.len() && same_path(#[trigger] right[i], path);
        assert(same_path(both[left.len() + i], path));
    }
}

/// Every path that one of the runs has is compared, once, and in order.
pub proof fn law_every_path_is_compared(current: Seq<DifftFile>, parallel: Seq<DifftFile>)
    ensures
        increasing(all_paths(current, parallel)),
        forall|path: Seq<char>| #[trigger]
            has_path(all_paths(current, parallel), path) <==> file_for(current, path) is Some
                || file_for(parallel, path) is Some,
        compared_runs(current, parallel).len() == all_paths(current, parallel).len(),
        forall|i: int|
            0 <= i < all_paths(current, parallel).len() ==> compared(
                current,
                parallel,
                #[trigger] all_paths(current, parallel)[i],
            ) == Some(compared_runs(current, parallel)[i]),
{
    let paths = all_paths(current, parallel);
    let f = |path: Seq<char>| compared(current, parallel, path);
    law_ordered_paths(index_paths(path_index(current)) + index_paths(path_index(parallel)));
    assert forall|path: Seq<char>| #[trigger] has_path(paths, path) <==> file_for(
        current,
        path,
    ) is Some || file_for(parallel, path) is Some by {
        lemma_all_paths(current, parallel, path);
    }
    assert forall|i: int| 0 <= i < paths.len() implies f(#[trigger] paths[i]) is Some by {
        assert(same_path(paths[i], paths[i]));
        assert(has_path(paths, paths[i]));
    }
    lemma_filter_mapped_all(paths, f);
    assert forall|i: int| 0 <= i < paths.len() implies compared(
        current,
        parallel,
        #[trigger] paths[i],
    ) == Some(compared_runs(current, parallel)[i]) by {
        assert(f(paths[i]) is Some);
    }
}

proof fn lemma_files_add_up(list: Seq<Compared>)
    ensures
        count(Counter::Matched, list) + count(Counter::Mismatched, list) + count(
            Counter::OnlyCurrent,
            list,
        ) + count(Counter::OnlyParallel, list) == list.len(),
    decreases list.len(),
{
    if list.len() > 0 {
        lemma_files_add_up(list.drop_last());
    }
}

/// The files that match, that do not, and that only one run has are all the files.
pub proof fn law_files_add_up(current: Seq<DifftFile>, parallel: Seq<DifftFile>)
    ensures
        ({
            let list = compared_runs(current, parallel);
            count(Counter::Matched, list) + count(Counter::Mismatched, list) + count(
                Counter::OnlyCurrent,
                list,
            ) + count(Counter::OnlyParallel, list) == all_paths(current, parallel).len()
        }),
{
    lemma_files_add_up(compared_runs(current, parallel));
    law_every_path_is_compared(current, parallel);
}

/// The runs count as identical exactly where nothing is wrong when one is verified
/// against the other.
pub proof fn law_identical_runs_have_no_errors(current: Seq<DifftFile>, parallel: Seq<DifftFile>)
    ensures
        ({
            let list = compared_runs(current, parallel);
            &&& count(Counter::Mismatched, list) == 0
            &&& count(Counter::OnlyCurrent, list) == 0
            &&& count(Counter::OnlyParallel, list) == 0
        }) <==> run_errors(current, parallel).len() == 0,
{
    let list = compared_runs(current, parallel);
    let paths = all_paths(current, parallel);
    let f = |c: Compared| adds(Counter::Mismatched, c);
    let g = |c: Compared| adds(Counter::OnlyCurrent, c);
    let h = |c: Compared| adds(Counter::OnlyParallel, c);
    law_every_path_is_compared(current, parallel);
    law_no_errors_means_agreement(current, parallel);
    lemma_sum_zero(list, f);
    lemma_sum_zero(list, g);
    lemma_sum_zero(list, h);
    if run_errors(current, parallel).len() == 0 {
        assert forall|i: int| 0 <= i < list.len() implies f(#[trigger] list[i]) == 0 && g(list[i])
            == 0 && h(list[i]) == 0 by {
            assert(agree_on(current, parallel, paths[i]));
            assert(compared(current, parallel, paths[i]) == Some(list[i]));
            match (file_for(current, paths[i]), file_for(parallel, paths[i])) {
                (Some(a), Some(b)) => {
                    law_no_difference_means_same(a, b);
                },
                _ => {},
            }
        }
    }
    if sum_by(list, f) == 0 && sum_by(list, g) == 0 && sum_by(list, h) == 0 {
        assert forall|path: Seq<char>| #[trigger] agree_on(current, parallel, path) by {
            assert(has_path(paths, path) <==> file_for(current, path) is Some || file_for(
                parallel,
                path,
            ) is Some);
            if has_path(paths, path) {
                let i = choose|i: int| 0 <= i < paths.len() && same_path(#[trigger] paths[i], path);
                assert(compared(current, parallel, paths[i]) == Some(list[i]));
                assert(f(list[i]) == 0 && g(list[i]) == 0 && h(list[i]) == 0);
                lemma_lookup_by_same_path(path_index(current), paths[i], path);
                lemma_lookup_by_same_path(path_index(parallel), paths[i], path);
                law_no_difference_means_same(
                    file_for(current, path)->0,
                    file_for(parallel, path)->0,
                );
            }
        }
    }
}

/// The changes of a chunk are those of all its lines, on both sides: an empty chunk has
/// none, and a line more adds the changes of its left and of its right side.
pub proof fn law_lines_add_their_changes(chunk: Seq<DiffLine>, line: DiffLine)
    ensures
        chunk_changes(Seq::empty()) == 0,
        chunk_changes(chunk.push(line)) == chunk_changes(chunk) + (match line.lhs {
            Some(side) => side.changes@.len(),
            None => 0,
        }) + (match line.rhs {
            Some(side) => side.changes@.len(),
            None => 0,
        }),
{
    assert(chunk.push(line).drop_last() =~= chunk);
}

/// The changes of a file are those of all its chunks: a file without chunks has none, and
/// a chunk more adds its changes.
pub proof fn law_chunks_add_their_changes(file: DifftFile, more: DifftFile, chunk: Vec<DiffLine>)
    ensures
        file.chunks@.len() == 0 ==> file_changes(file) == 0,
        more.chunks@ == file.chunks@.push(chunk) ==> file_changes(more) == file_changes(file)
            + chunk_changes(chunk@),
{
    assert(file.chunks@.push(chunk).drop_last() =~= file.chunks@);
}

/// The count of a file depends on its chunks alone, and is given exactly where it fits.
pub proof fn law_counts_go_by_the_chunks(file: DifftFile, other: DifftFile)
    ensures
        file.chunks@ == other.chunks@ ==> file_changes(file) == file_changes(other),
        match fitting(file_changes(file)) {
            Some(n) => n == file_changes(file),
            None => file_changes(file) > usize::MAX,
        },
{
}

/// What is told of a path: whether both runs have it, or which one; where both have it,
/// the first difference of the deep comparison, the status in each run, and language
/// and sizes of the report of the current run.
pub proof fn law_comparison_tells_of_both_runs(
    current: Seq<DifftFile>,
    parallel: Seq<DifftFile>,
    path: Seq<char>,
)
    ensures
        compared(current, parallel, path) is None <==> file_for(current, path) is None && file_for(
            parallel,
            path,
        ) is None,
        compared(current, parallel, path) matches Some(c) ==> match c {
            Compared::Both {
                path: shown,
                first_difference,
                status_current,
                status_parallel,
                language,
                chunks,
                aligned_lines,
                changes,
            } => {
                &&& file_for(current, path) matches Some(a)
                &&& file_for(parallel, path) matches Some(b)
                &&& shown == path
                &&& first_difference == file_difference(a, b)
                &&& status_current == a.status
                &&& status_parallel == b.status
                &&& language == a.language@
                &&& chunks == a.chunks@.len()
                &&& aligned_lines == a.aligned_lines@.len()
                &&& changes == file_changes(a)
            },
            Compared::OnlyCurrent { path: shown, status } => {
                &&& file_for(current, path) matches Some(a)
                &&& file_for(parallel, path) is None
                &&& shown == path
                &&& status == a.status
            },
            Compared::OnlyParallel { path: shown, status } => {
                &&& file_for(parallel, path) matches Some(b)
                &&& file_for(current, path) is None
                &&& shown == path
                &&& status == b.status
            },
        },
{
}

/// What a path adds to the numbers of a benchmark: one to exactly one of the numbers of
/// files, by how it compares, and its sizes to the sums where both runs have it.
pub proof fn law_paths_add_to_the_numbers(list: Seq<Compared>, c: Compared)
    ensures
        ({
            let added = |counter: Counter| count(counter, list.push(c)) - count(counter, list);
            let both = c is Both;
            let same = both && c->Both_first_difference is None;
            &&& added(Counter::Matched) == if same {
                1int
            } else {
                0
            }
            &&& added(Counter::Mismatched) == if both && !same {
                1int
            } else {
                0
            }
            &&& added(Counter::OnlyCurrent) == if c is OnlyCurrent {
                1int
            } else {
                0
            }
            &&& added(Counter::OnlyParallel) == if c is OnlyParallel {
                1int
            } else {
                0
            }
            &&& both ==> {
                &&& added(Counter::Chunks) == c->chunks
                &&& added(Counter::AlignedLines) == c->aligned_lines
                &&& added(Counter::Changes) == c->changes
            }
            &&& !both ==> {
                &&& added(Counter::Chunks) == 0
                &&& added(Counter::AlignedLines) == 0
                &&& added(Counter::Changes) == 0
            }
        }),
        forall|counter: Counter| #[trigger] count(counter, Seq::empty()) == 0,
{
    assert(list.push(c).drop_last() =~= list);
}

/// There is a comparison of two runs exactly where the numbers of files fit in 32 bits
/// and the sums in a machine word.
pub proof fn law_comparison_needs_numbers_that_fit(list: Seq<Compared>)
    ensures
        counters_fit(list) <==> forall|counter: Counter| #[trigger]
            count(counter, list) <= (match counter {
                Counter::Chunks | Counter::AlignedLines | Counter::Changes => usize::MAX as nat,
                _ => u32::MAX as nat,
            }),
{
    if counters_fit(list) {
        assert forall|counter: Counter| #[trigger] count(counter, list) <= (match counter {
            Counter::Chunks | Counter::AlignedLines | Counter::Changes => usize::MAX as nat,
            _ => u32::MAX as nat,
        }) by {
            match counter {
                Counter::Matched => {},
                Counter::Mismatched => {},
                Counter::OnlyCurrent => {},
                Counter::OnlyParallel => {},
                Counter::Chunks => {},
                Counter::AlignedLines => {},
                Counter::Changes => {},
            }
        }
    }
}

/// The word for a comparison.
pub proof fn law_verdict_words(c: Compared)
    ensures
        verdict(c) == if c is OnlyCurrent {
            "ONLY_IN_CURRENT"@
        } else if c is OnlyParallel {
            "ONLY_IN_PARALLEL"@
        } else if c->Both_first_difference is Some {
            "MISMATCH"@
        } else {
            "MATCH"@
        },
{
}

/// The comparisons of a report are viewed one for one, with every field.
pub proof fn law_comparisons_are_viewed_one_for_one(list: Seq<FileComparison>, i: int)
    requires
        0 <= i < list.len(),
    ensures
        compared_views(list).len() == list.len(),
        match (list[i], compared_views(list)[i]) {
            (
                FileComparison::Both {
                    path,
                    first_difference,
                    status_current,
                    status_parallel,
                    language,
                    chunks,
                    aligned_lines,
                    changes,
                },
                c,
            ) => c == (Compared::Both {
                path: path@,
                first_difference: match first_difference {
                    Some(d) => Some(d@),
                    None => None,
                },
                status_current,
                status_parallel,
                language: language@,
                chunks: chunks as nat,
                aligned_lines: aligned_lines as nat,
                changes: changes as nat,
            }),
            (FileComparison::OnlyCurrent { path, status }, c) => c == (Compared::OnlyCurrent {
                path: path@,
                status,
            }),
            (FileComparison::OnlyParallel { path, status }, c) => c == (Compared::OnlyParallel {
                path: path@,
                status,
            }),
        },
{
}

/// A path is told as the sequential run first writes it, and where that run lacks it, as
/// the parallel run does.
pub proof fn law_paths_are_told_as_first_written(
    current: Seq<DifftFile>,
    parallel: Seq<DifftFile>,
    k: int,
) -> (i: int)
    requires
        0 <= k < all_paths(current, parallel).len(),
    ensures
        ({
            let path = all_paths(current, parallel)[k];
            let files = if file_for(current, path) is Some {
                current
            } else {
                parallel
            };
            &&& 0 <= i < files.len()
            &&& path == display_paths(files[i].path@).1
            &&& forall|j: int|
                0 <= j < i ==> !same_path(display_paths((#[trigger] files[j]).path@).1, path)
        }),
{
    let left = index_paths(path_index(current));
    let right = index_paths(path_index(parallel));
    let path = all_paths(current, parallel)[k];
    let m = law_first_spelling_is_kept(left + right, k);
    lemma_indexed(current, path);
    lemma_indexed(parallel, path);
    if m < left.len() {
        assert(same_path(left[m], path));
        lemma_first_written(current, m)
    } else {
        if has_path(left, path) {
            let j = choose|j: int| 0 <= j < left.len() && same_path(#[trigger] left[j], path);
            assert((left + right)[j] == left[j]);
        }
        lemma_first_written(parallel, m - left.len())
    }
}

proof fn lemma_first_written(files: Seq<DifftFile>, m: int) -> (i: int)
    requires
        0 <= m < path_index(files).len(),
    ensures
        0 <= i < files.len(),
        display_paths(files[i].path@).1 == index_paths(path_index(files))[m],
        forall|j: int|
            0 <= j < i ==> !same_path(
                display_paths((#[trigger] files[j]).path@).1,
                index_paths(path_index(files))[m],
            ),
{
    let places = path_places(files);
    let i = law_first_pair_names_the_path(places, m);
    assert forall|j: int| 0 <= j < i implies !same_path(
        display_paths((#[trigger] files[j]).path@).1,
        index_paths(path_index(files))[m],
    ) by {
        assert(!same_path(places[j].0, places[i].0));
    }
    i
}

} // verus!
