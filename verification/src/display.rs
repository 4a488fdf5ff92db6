//! Files as they are displayed side by side, and the checks they pass before that.

use vstd::prelude::*;

use crate::difft::{DifftFile, Status};
use crate::display_path::{display_paths, split_display_path};
use crate::list::{
    filter_mapped, lemma_filter_mapped_all, lemma_filter_mapped_keeps, lemma_filter_mapped_source,
    lemma_filter_mapped_step,
};
use crate::parallel::{file_at, find_file, lemma_file_at};
use crate::path::{components_of, paths_equal, same_path};
use crate::renames::RenameMap;
use crate::stats::FileStats;
use crate::table::{lemma_position, lookup, position};
use crate::text::text_option;
use crate::vcs::{is_git, uses_git};

verus! {

/// One side of a row. A filler stands where the other side has a line and this one has
/// none.
#[derive(Clone, Debug, PartialEq, Eq)]
pub struct RowSide {
    pub content: String,
    pub is_filler: bool,
}

/// A row of the display.
#[derive(Clone, Debug, PartialEq, Eq)]
pub struct Row {
    pub left: RowSide,
    pub right: RowSide,
}

/// A file that is displayed. `extra` is what the display needs besides.
#[derive(Clone, Debug, PartialEq, Eq)]
pub struct DisplayFile<E> {
    pub path: String,
    pub status: Status,
    pub moved_from: Option<String>,
    pub aligned_lines: Vec<(Option<u32>, Option<u32>)>,
    pub rows: Vec<Row>,
    pub hunk_starts: Vec<u32>,
    pub extra: E,
}

/// The file under its new path, as a created one, where its display path shows a move;
/// else the file as it is.
pub open spec fn is_prepared(before: DifftFile, after: DifftFile) -> bool {
    let (old_path, new_path) = display_paths(before.path@);
    if same_path(old_path, new_path) {
        after == before
    } else {
        &&& after.path@ == new_path
        &&& after == DifftFile { path: after.path, status: Status::Created, ..before }
    }
}

/// The path that a file was moved from, where its display path shows a move.
pub open spec fn moved_from_of(path: Seq<char>) -> Option<Seq<char>> {
    let (old_path, new_path) = display_paths(path);
    if same_path(old_path, new_path) {
        None
    } else {
        Some(old_path)
    }
}

/// Looks up the counts of a file, expands its display path, and marks it as created
/// under its new path where it was moved. Gives the counts, the old and the new path,
/// and the path it was moved from.
pub fn prepare_file_for_display(file: &mut DifftFile, stats: &FileStats) -> (r: (
    Option<(u32, u32)>,
    String,
    String,
    Option<String>,
))
    ensures
        r.0 == lookup(stats@, old(file).path@),
        (r.1@, r.2@) == display_paths(old(file).path@),
        text_option(r.3) == moved_from_of(old(file).path@),
        is_prepared(*old(file), *final(file)),
{
    let file_stats: Option<(u32, u32)> = match stats.get(file.path.as_str()) {
        Some(counts) => Some((counts.0, counts.1)),
        None => None,
    };
    let (old_path, new_path) = split_display_path(file.path.as_str());
    let moved_from = if !paths_equal(old_path.as_str(), new_path.as_str()) {
        file.path = new_path.clone();
        file.status = Status::Created;
        Some(old_path.clone())
    } else {
        None
    };
    (file_stats, old_path, new_path, moved_from)
}

/// The displayed file, with the path that it was moved from.
pub fn process_prepared_file<E>(display: DisplayFile<E>, moved_from: Option<String>) -> (r:
    DisplayFile<E>)
    ensures
        r == (DisplayFile { moved_from, ..display }),
{
    let mut display = display;
    display.moved_from = moved_from;
    display
}

/// The first path that lines were counted for, from the `i`th on, that no file has.
pub open spec fn uncovered(
    files: Seq<DifftFile>,
    stats: Seq<(Seq<char>, (u32, u32))>,
    i: int,
) -> Option<Seq<char>>
    decreases stats.len() - i,
{
    if i < 0 || i >= stats.len() {
        None
    } else if file_at(files, display_paths(stats[i].0).1, 0) is None {
        Some(
            "Integrity: git numstat reports "@ + stats[i].0
                + " but it's missing from diff output"@,
        )
    } else {
        uncovered(files, stats, i + 1)
    }
}

/// Checks that every file that git counted lines for was compared. Binary files are
/// compared but not counted, so the converse need not hold.
pub fn check_numstat(vcs: &str, files: &Vec<DifftFile>, stats: &FileStats) -> (r: Result<
    (),
    String,
>)
    ensures
        match r {
            Ok(_) => is_git(vcs@) ==> uncovered(files@, stats@, 0) is None,
            Err(message) => is_git(vcs@) && uncovered(files@, stats@, 0) == Some(message@),
        },
{
    if !uses_git(vcs) {
        return Ok(());
    }
    let mut i: usize = 0;
    while i < stats.entries.len()
        invariant
            i <= stats.entries@.len(),
            is_git(vcs@),
            uncovered(files@, stats@, 0) == uncovered(files@, stats@, i as int),
        decreases stats.entries@.len() - i,
    {
        proof {
            assert(stats@[i as int].0 == stats.entries@[i as int].0@);
        }
        let (_, normalized) = split_display_path(stats.entries[i].0.as_str());
        if find_file(files, normalized.as_str()).is_none() {
            return Err(
                "Integrity: git numstat reports ".to_owned().concat(
                    stats.entries[i].0.as_str(),
                ).concat(" but it's missing from diff output"),
            );
        }
        i += 1;
    }
    Ok(())
}

/// Takes the files that were compared: fails where comparing them failed, or where git
/// counted lines of a file that is not among them.
pub fn accept_files(vcs: &str, files: Result<Vec<DifftFile>, String>, stats: &FileStats) -> (r:
    Result<Vec<DifftFile>, String>)
    ensures
        match files {
            Ok(compared) => if is_git(vcs@) && uncovered(compared@, stats@, 0) is Some {
                r matches Err(message) && uncovered(compared@, stats@, 0) == Some(message@)
            } else {
                r == files
            },
            Err(_) => r == files,
        },
{
    match files {
        Ok(compared) => match check_numstat(vcs, &compared, stats) {
            Ok(_) => Ok(compared),
            Err(message) => Err(message),
        },
        Err(message) => Err(message),
    }
}

/// A path is what some file was renamed from.
pub open spec fn is_rename_source(renames: Seq<(Seq<char>, Seq<char>)>, path: Seq<char>) -> bool {
    exists|i: int| 0 <= i < renames.len() && same_path((#[trigger] renames[i]).1, path)
}

/// The file as the renames have it: created, with the path it was moved from, where it
/// is the new path of one.
pub open spec fn with_rename<E>(file: DisplayFile<E>, renames: RenameMap) -> DisplayFile<E> {
    match position(renames@, file.path@, 0) {
        Some(i) => DisplayFile {
            moved_from: Some(renames.entries@[i].1),
            status: Status::Created,
            ..file
        },
        None => file,
    }
}

/// The file as the renames have it, unless it is the deleted side of one.
pub open spec fn after_rename<E>(file: DisplayFile<E>, renames: RenameMap) -> Option<
    DisplayFile<E>,
> {
    let file = with_rename(file, renames);
    if file.status == Status::Deleted && is_rename_source(renames@, file.path@) {
        None
    } else {
        Some(file)
    }
}

/// The files as the renames have them.
pub open spec fn after_renames<E>(files: Seq<DisplayFile<E>>, renames: RenameMap) -> Seq<
    DisplayFile<E>,
> {
    filter_mapped(files, |file: DisplayFile<E>| after_rename(file, renames))
}

/// Whether a path is what some file was renamed from.
fn rename_source(renames: &RenameMap, path: &str) -> (r: bool)
    ensures
        r == is_rename_source(renames@, path@),
{
    let mut i: usize = 0;
    while i < renames.entries.len()
        invariant
            i <= renames.entries@.len(),
            forall|j: int| 0 <= j < i ==> !same_path((#[trigger] renames@[j]).1, path@),
        decreases renames.entries@.len() - i,
    {
        proof {
            assert(renames@[i as int].1 == renames.entries@[i as int].1@);
        }
        if paths_equal(renames.entries[i].1.as_str(), path) {
            return true;
        }
        i += 1;
    }
    false
}

/// Marks the files that were renamed, and drops the deleted side of each rename.
pub fn apply_renames<E>(files: Vec<DisplayFile<E>>, renames: &RenameMap) -> (r: Vec<
    DisplayFile<E>,
>)
    ensures
        r@ == after_renames(files@, *renames),
{
    let ghost all = files@;
    let mut kept: Vec<DisplayFile<E>> = Vec::new();
    proof {
        assert(all.take(0) =~= Seq::<DisplayFile<E>>::empty());
    }
    for file in it: files.into_iter()
        invariant
            it.seq() == all,
            kept@ == after_renames(all.take(it.index()), *renames),
    {
        proof {
            lemma_filter_mapped_step(
                all,
                |file: DisplayFile<E>| after_rename(file, *renames),
                it.index(),
            );
            assert(all[it.index()] == file);
        }
        let mut file = file;
        match renames.get(file.path.as_str()) {
            Some(old_path) => {
                file.moved_from = Some(old_path.clone());
                file.status = Status::Created;
            },
            None => {},
        }
        if !(file.status == Status::Deleted && rename_source(renames, file.path.as_str())) {
            kept.push(file);
        }
    }
    proof {
        assert(all.take(all.len() as int) =~= all);
    }
    kept
}

/// The deleted side of a rename is not shown.
pub proof fn law_no_deleted_side_is_shown<E>(
    files: Seq<DisplayFile<E>>,
    renames: RenameMap,
    k: int,
)
    requires
        0 <= k < after_renames(files, renames).len(),
    ensures
        ({
            let shown = after_renames(files, renames)[k];
            !(shown.status == Status::Deleted && is_rename_source(renames@, shown.path@))
        }),
{
    lemma_filter_mapped_source(files, |file: DisplayFile<E>| after_rename(file, renames), k);
}

/// A file that is shown under the new path of a rename is shown as created, with the
/// path that it was renamed from.
pub proof fn law_renamed_files_are_marked<E>(
    files: Seq<DisplayFile<E>>,
    renames: RenameMap,
    k: int,
)
    requires
        0 <= k < after_renames(files, renames).len(),
    ensures
        ({
            let shown = after_renames(files, renames)[k];
            lookup(renames@, shown.path@) matches Some(old_path) ==> {
                &&& shown.status == Status::Created
                &&& text_option(shown.moved_from) == Some(old_path)
            }
        }),
{
    lemma_filter_mapped_source(files, |file: DisplayFile<E>| after_rename(file, renames), k);
    lemma_position(renames@, after_renames(files, renames)[k].path@, 0);
}

/// A file that no rename has to do with is shown as it is.
pub proof fn law_other_files_are_kept<E>(files: Seq<DisplayFile<E>>, renames: RenameMap, i: int)
    requires
        0 <= i < files.len(),
        lookup(renames@, files[i].path@) is None,
        !is_rename_source(renames@, files[i].path@),
    ensures
        after_renames(files, renames).contains(files[i]),
{
    lemma_filter_mapped_keeps(files, |file: DisplayFile<E>| after_rename(file, renames), i);
}

/// Only deleted files can go missing: every other one is shown, with its rename.
pub proof fn law_only_deleted_files_are_dropped<E>(
    files: Seq<DisplayFile<E>>,
    renames: RenameMap,
    i: int,
)
    requires
        0 <= i < files.len(),
        files[i].status != Status::Deleted,
    ensures
        after_renames(files, renames).contains(with_rename(files[i], renames)),
{
    lemma_filter_mapped_keeps(files, |file: DisplayFile<E>| after_rename(file, renames), i);
}

/// Without renames every file is shown as it is.
pub proof fn law_no_renames_change_nothing<E>(files: Seq<DisplayFile<E>>, renames: RenameMap)
    requires
        renames@.len() == 0,
    ensures
        after_renames(files, renames) == files,
{
    let f = |file: DisplayFile<E>| after_rename(file, renames);
    assert forall|i: int| 0 <= i < files.len() implies f(#[trigger] files[i]) == Some(
        files[i],
    ) by {
        lemma_position(renames@, files[i].path@, 0);
    }
    lemma_filter_mapped_all(files, f);
    assert forall|i: int| 0 <= i < files.len() implies after_renames(files, renames)[i]
        == #[trigger] files[i] by {
        assert(f(files[i]) is Some);
    }
    assert(after_renames(files, renames) =~= files);
}

proof fn lemma_covered(files: Seq<DifftFile>, stats: Seq<(Seq<char>, (u32, u32))>, i: int)
    requires
        0 <= i,
    ensures
        uncovered(files, stats, i) is None <==> forall|j: int|
            i <= j < stats.len() ==> file_at(
                files,
                display_paths((#[trigger] stats[j]).0).1,
                0,
            ) is Some,
    decreases stats.len() - i,
{
    if i < stats.len() {
        lemma_covered(files, stats, i + 1);
    }
}

/// The counts are accepted exactly where every file that was counted was compared.
pub proof fn law_counted_files_are_compared(
    files: Seq<DifftFile>,
    stats: Seq<(Seq<char>, (u32, u32))>,
)
    ensures
        uncovered(files, stats, 0) is None <==> forall|j: int|
            0 <= j < stats.len() ==> exists|k: int|
                0 <= k < files.len() && same_path(
                    (#[trigger] files[k]).path@,
                    display_paths((#[trigger] stats[j]).0).1,
                ),
{
    lemma_covered(files, stats, 0);
    assert forall|j: int| 0 <= j < stats.len() implies (file_at(
        files,
        display_paths((#[trigger] stats[j]).0).1,
        0,
    ) is Some <==> exists|k: int|
        0 <= k < files.len() && same_path(
            (#[trigger] files[k]).path@,
            display_paths(stats[j].0).1,
        )) by {
        lemma_file_at(files, display_paths(stats[j].0).1, 0);
        if file_at(files, display_paths(stats[j].0).1, 0) is Some {
            let k = file_at(files, display_paths(stats[j].0).1, 0)->0;
            assert(same_path(files[k].path@, display_paths(stats[j].0).1));
        }
    }
}

/// What renames make of the files, one after the other. A file under the new path of a
/// rename is shown as created, with the old path, and otherwise unchanged; a deleted file
/// under an old path is not shown; every other file is shown as it is.
pub proof fn law_each_file_is_shown_or_renamed<E>(
    files: Seq<DisplayFile<E>>,
    file: DisplayFile<E>,
    renames: RenameMap,
)
    ensures
        after_renames(Seq::<DisplayFile<E>>::empty(), renames).len() == 0,
        ({
            let before = after_renames(files, renames);
            let shown = after_renames(files.push(file), renames);
            let is_source = exists|i: int|
                0 <= i < renames@.len() && same_path((#[trigger] renames@[i]).1, file.path@);
            match lookup(renames@, file.path@) {
                Some(old_path) => {
                    &&& shown.len() == before.len() + 1
                    &&& shown.drop_last() == before
                    &&& shown.last().path == file.path
                    &&& shown.last().status == Status::Created
                    &&& shown.last().moved_from is Some
                    &&& shown.last().moved_from->0@ == old_path
                    &&& shown.last().aligned_lines == file.aligned_lines
                    &&& shown.last().rows == file.rows
                    &&& shown.last().hunk_starts == file.hunk_starts
                    &&& shown.last().extra == file.extra
                },
                None => if file.status == Status::Deleted && is_source {
                    shown == before
                } else {
                    shown == before.push(file)
                },
            }
        }),
{
    assert(files.push(file).drop_last() =~= files);
    lemma_position(renames@, file.path@, 0);
    let before = after_renames(files, renames);
    match after_rename(file, renames) {
        Some(shown) => {
            assert(before.push(shown).drop_last() =~= before);
        },
        None => {},
    }
}

/// A file is prepared as it is, where its display path stands for one path. Else it is
/// under its new path, created, moved from its old one, and otherwise unchanged.
pub proof fn law_moved_files_are_created_under_the_new_path(before: DifftFile, after: DifftFile)
    requires
        is_prepared(before, after),
    ensures
        ({
            let (old_path, new_path) = display_paths(before.path@);
            &&& after.language == before.language
            &&& after.aligned_lines == before.aligned_lines
            &&& after.chunks == before.chunks
            &&& components_of(old_path) == components_of(new_path) ==> after == before
                && moved_from_of(before.path@) is None
            &&& components_of(old_path) != components_of(new_path) ==> after.path@ == new_path
                && after.status == Status::Created && moved_from_of(before.path@) == Some(old_path)
        }),
{
}

proof fn lemma_uncovered_at(
    files: Seq<DifftFile>,
    stats: Seq<(Seq<char>, (u32, u32))>,
    from: int,
    i: int,
)
    requires
        0 <= from <= i < stats.len(),
        file_at(files, display_paths(stats[i].0).1, 0) is None,
        forall|j: int|
            from <= j < i ==> file_at(files, display_paths((#[trigger] stats[j]).0).1, 0) is Some,
    ensures
        uncovered(files, stats, from) == Some(
            "Integrity: git numstat reports "@ + stats[i].0
                + " but it's missing from diff output"@,
        ),
    decreases i - from,
{
    if from < i {
        assert(file_at(files, display_paths(stats[from].0).1, 0) is Some);
        lemma_uncovered_at(files, stats, from + 1, i);
    }
}

/// The first counted path whose new path no file has is told, as it was counted.
pub proof fn law_first_uncompared_path_is_told(
    files: Seq<DifftFile>,
    stats: Seq<(Seq<char>, (u32, u32))>,
    i: int,
)
    requires
        0 <= i < stats.len(),
        forall|k: int|
            0 <= k < files.len() ==> !same_path(
                (#[trigger] files[k]).path@,
                display_paths(stats[i].0).1,
            ),
        forall|j: int|
            0 <= j < i ==> exists|k: int|
                0 <= k < files.len() && same_path(
                    (#[trigger] files[k]).path@,
                    display_paths((#[trigger] stats[j]).0).1,
                ),
    ensures
        uncovered(files, stats, 0) == Some(
            "Integrity: git numstat reports "@ + stats[i].0
                + " but it's missing from diff output"@,
        ),
{
    lemma_file_at(files, display_paths(stats[i].0).1, 0);
    assert forall|j: int| 0 <= j < i implies file_at(
        files,
        display_paths((#[trigger] stats[j]).0).1,
        0,
    ) is Some by {
        lemma_file_at(files, display_paths(stats[j].0).1, 0);
    }
    lemma_uncovered_at(files, stats, 0, i);
}

} // verus!
