//! The checks that the files of a display pass.

use vstd::prelude::*;

use crate::difft::Status;
use crate::display::{after_renames, apply_renames, DisplayFile, Row};
use crate::number::{decimal, write_decimal};
use crate::path::{paths_equal, same_path};
use crate::renames::RenameMap;
use crate::text::text_option;

verus! {

/// What every complaint about a file begins with.
pub open spec fn complaint(path: Seq<char>) -> Seq<char> {
    "Integrity: "@ + path + ": "@
}

/// Begins a complaint about a file.
fn write_complaint(path: &str) -> (r: String)
    ensures
        r@ == complaint(path@),
{
    "Integrity: ".to_owned().concat(path).concat(": ")
}

/// The first filler, from the `i`th row on, that holds something.
pub open spec fn filled_filler(path: Seq<char>, rows: Seq<Row>, i: int) -> Option<Seq<char>>
    decreases rows.len() - i,
{
    if i < 0 || i >= rows.len() {
        None
    } else if rows[i].left.is_filler && rows[i].left.content@.len() > 0 {
        Some(complaint(path) + "row "@ + decimal(i as nat) + " left is filler but has content"@)
    } else if rows[i].right.is_filler && rows[i].right.content@.len() > 0 {
        Some(complaint(path) + "row "@ + decimal(i as nat) + " right is filler but has content"@)
    } else {
        filled_filler(path, rows, i + 1)
    }
}

/// The first hunk start, from the `i`th on, that is no row or does not come behind the
/// one before.
pub open spec fn bad_hunk(path: Seq<char>, starts: Seq<u32>, rows: nat, i: int) -> Option<Seq<char>>
    decreases starts.len() - i,
{
    if i < 0 || i >= starts.len() {
        None
    } else if starts[i] >= rows {
        Some(
            complaint(path) + "hunk_start["@ + decimal(i as nat) + "] = "@ + decimal(
                starts[i] as nat,
            ) + " >= rows.len() ("@ + decimal(rows) + ")"@,
        )
    } else if i > 0 && starts[i] <= starts[i - 1] {
        Some(
            complaint(path) + "hunk_starts not sorted: ["@ + decimal(i as nat) + "]="@ + decimal(
                starts[i] as nat,
            ) + " <= ["@ + decimal((i - 1) as nat) + "]="@ + decimal(starts[i - 1] as nat),
        )
    } else {
        bad_hunk(path, starts, rows, i + 1)
    }
}

/// The first row, from the `i`th on, with something on the left.
pub open spec fn left_line(path: Seq<char>, rows: Seq<Row>, i: int) -> Option<Seq<char>>
    decreases rows.len() - i,
{
    if i < 0 || i >= rows.len() {
        None
    } else if !rows[i].left.is_filler {
        Some(
            complaint(path) + "created (non-rename) file has non-filler left at row "@ + decimal(
                i as nat,
            ),
        )
    } else {
        left_line(path, rows, i + 1)
    }
}

/// The first row, from the `i`th on, with something on the right.
pub open spec fn right_line(path: Seq<char>, rows: Seq<Row>, i: int) -> Option<Seq<char>>
    decreases rows.len() - i,
{
    if i < 0 || i >= rows.len() {
        None
    } else if !rows[i].right.is_filler {
        Some(complaint(path) + "deleted file has non-filler right at row "@ + decimal(i as nat))
    } else {
        right_line(path, rows, i + 1)
    }
}

/// The first of two, if there is one.
pub open spec fn or_else(first: Option<Seq<char>>, second: Option<Seq<char>>) -> Option<Seq<char>> {
    match first {
        Some(message) => Some(message),
        None => second,
    }
}

/// What is wrong with a file first.
pub open spec fn file_failure<E>(file: DisplayFile<E>) -> Option<Seq<char>> {
    let path = file.path@;
    let rows = file.rows@;
    if file.aligned_lines@.len() != rows.len() {
        Some(
            complaint(path) + "aligned_lines.len() ("@ + decimal(file.aligned_lines@.len())
                + ") != rows.len() ("@ + decimal(rows.len()) + ")"@,
        )
    } else {
        or_else(
            filled_filler(path, rows, 0),
            or_else(
                bad_hunk(path, file.hunk_starts@, rows.len(), 0),
                or_else(
                    if file.status == Status::Created && file.moved_from is None {
                        left_line(path, rows, 0)
                    } else {
                        None
                    },
                    if file.status == Status::Deleted {
                        right_line(path, rows, 0)
                    } else {
                        None
                    },
                ),
            ),
        )
    }
}

/// What is wrong with the first file, from the `i`th on, that something is wrong with.
pub open spec fn first_file_failure<E>(files: Seq<DisplayFile<E>>, i: int) -> Option<Seq<char>>
    decreases files.len() - i,
{
    if i < 0 || i >= files.len() {
        None
    } else {
        or_else(file_failure(files[i]), first_file_failure(files, i + 1))
    }
}

/// An earlier file has the path of the `i`th.
pub open spec fn repeated<E>(files: Seq<DisplayFile<E>>, i: int) -> bool {
    exists|j: int| 0 <= j < i && same_path((#[trigger] files[j]).path@, files[i].path@)
}

/// The first file, from the `i`th on, whose path an earlier one has.
pub open spec fn duplicate_path<E>(files: Seq<DisplayFile<E>>, i: int) -> Option<Seq<char>>
    decreases files.len() - i,
{
    if i < 0 || i >= files.len() {
        None
    } else if repeated(files, i) {
        Some("Integrity: duplicate path "@ + files[i].path@ + " in output"@)
    } else {
        duplicate_path(files, i + 1)
    }
}

/// What is wrong with the files of a display.
pub open spec fn display_failure<E>(files: Seq<DisplayFile<E>>) -> Option<Seq<char>> {
    or_else(first_file_failure(files, 0), duplicate_path(files, 0))
}

/// Checks the fillers of a file.
fn check_fillers(path: &str, rows: &Vec<Row>) -> (r: Option<String>)
    ensures
        text_option(r) == filled_filler(path@, rows@, 0),
{
    let mut i: usize = 0;
    while i < rows.len()
        invariant
            i <= rows@.len(),
            filled_filler(path@, rows@, 0) == filled_filler(path@, rows@, i as int),
        decreases rows@.len() - i,
    {
        if rows[i].left.is_filler && !rows[i].left.content.as_str().is_empty() {
            return Some(
                write_complaint(path).concat("row ").concat(
                    write_decimal(i as u64).as_str(),
                ).concat(" left is filler but has content"),
            );
        }
        if rows[i].right.is_filler && !rows[i].right.content.as_str().is_empty() {
            return Some(
                write_complaint(path).concat("row ").concat(
                    write_decimal(i as u64).as_str(),
                ).concat(" right is filler but has content"),
            );
        }
        i += 1;
    }
    None
}

/// Checks the hunk starts of a file.
fn check_hunks(path: &str, starts: &Vec<u32>, rows: usize) -> (r: Option<String>)
    ensures
        text_option(r) == bad_hunk(path@, starts@, rows as nat, 0),
{
    let mut i: usize = 0;
    while i < starts.len()
        invariant
            i <= starts@.len(),
            bad_hunk(path@, starts@, rows as nat, 0) == bad_hunk(
                path@,
                starts@,
                rows as nat,
                i as int,
            ),
        decreases starts@.len() - i,
    {
        let start: u32 = starts[i];
        if start as usize >= rows {
            return Some(
                write_complaint(path).concat("hunk_start[").concat(
                    write_decimal(i as u64).as_str(),
                ).concat("] = ").concat(write_decimal(start as u64).as_str()).concat(
                    " >= rows.len() (",
                ).concat(write_decimal(rows as u64).as_str()).concat(")"),
            );
        }
        if i > 0 && start <= starts[i - 1] {
            return Some(
                write_complaint(path).concat("hunk_starts not sorted: [").concat(
                    write_decimal(i as u64).as_str(),
                ).concat("]=").concat(write_decimal(start as u64).as_str()).concat(" <= [").concat(
                    write_decimal((i - 1) as u64).as_str(),
                ).concat("]=").concat(write_decimal(starts[i - 1] as u64).as_str()),
            );
        }
        i += 1;
    }
    None
}

/// Checks that a created file has nothing on the left.
fn check_left(path: &str, rows: &Vec<Row>) -> (r: Option<String>)
    ensures
        text_option(r) == left_line(path@, rows@, 0),
{
    let mut i: usize = 0;
    while i < rows.len()
        invariant
            i <= rows@.len(),
            left_line(path@, rows@, 0) == left_line(path@, rows@, i as int),
        decreases rows@.len() - i,
    {
        if !rows[i].left.is_filler {
            return Some(
                write_complaint(path).concat(
                    "created (non-rename) file has non-filler left at row ",
                ).concat(write_decimal(i as u64).as_str()),
            );
        }
        i += 1;
    }
    None
}

/// Checks that a deleted file has nothing on the right.
fn check_right(path: &str, rows: &Vec<Row>) -> (r: Option<String>)
    ensures
        text_option(r) == right_line(path@, rows@, 0),
{
    let mut i: usize = 0;
    while i < rows.len()
        invariant
            i <= rows@.len(),
            right_line(path@, rows@, 0) == right_line(path@, rows@, i as int),
        decreases rows@.len() - i,
    {
        if !rows[i].right.is_filler {
            return Some(
                write_complaint(path).concat("deleted file has non-filler right at row ").concat(
                    write_decimal(i as u64).as_str(),
                ),
            );
        }
        i += 1;
    }
    None
}

/// Checks one file.
pub fn check_file<E>(file: &DisplayFile<E>) -> (r: Option<String>)
    ensures
        text_option(r) == file_failure(*file),
{
    let path = file.path.as_str();
    if file.aligned_lines.len() != file.rows.len() {
        return Some(
            write_complaint(path).concat("aligned_lines.len() (").concat(
                write_decimal(file.aligned_lines.len() as u64).as_str(),
            ).concat(") != rows.len() (").concat(
                write_decimal(file.rows.len() as u64).as_str(),
            ).concat(")"),
        );
    }
    let fillers = check_fillers(path, &file.rows);
    if fillers.is_some() {
        return fillers;
    }
    let hunks = check_hunks(path, &file.hunk_starts, file.rows.len());
    if hunks.is_some() {
        return hunks;
    }
    if file.status == Status::Created && file.moved_from.is_none() {
        return check_left(path, &file.rows);
    }
    if file.status == Status::Deleted {
        return check_right(path, &file.rows);
    }
    None
}

/// Whether an earlier file has the path of the `i`th.
fn path_repeats<E>(files: &Vec<DisplayFile<E>>, i: usize) -> (r: bool)
    requires
        i < files@.len(),
    ensures
        r == repeated(files@, i as int),
{
    let mut j: usize = 0;
    while j < i
        invariant
            j <= i < files@.len(),
            forall|k: int|
                0 <= k < j ==> !same_path((#[trigger] files@[k]).path@, files@[i as int].path@),
        decreases i - j,
    {
        if paths_equal(files[j].path.as_str(), files[i].path.as_str()) {
            return true;
        }
        j += 1;
    }
    false
}

/// Checks the files of a display.
pub fn check_display<E>(files: &Vec<DisplayFile<E>>) -> (r: Result<(), String>)
    ensures
        match r {
            Ok(_) => display_failure(files@) is None,
            Err(message) => display_failure(files@) == Some(message@),
        },
{
    let mut i: usize = 0;
    while i < files.len()
        invariant
            i <= files@.len(),
            first_file_failure(files@, 0) == first_file_failure(files@, i as int),
        decreases files@.len() - i,
    {
        match check_file(&files[i]) {
            Some(message) => {
                return Err(message);
            },
            None => {},
        }
        i += 1;
    }
    let mut k: usize = 0;
    while k < files.len()
        invariant
            k <= files@.len(),
            first_file_failure(files@, 0) is None,
            duplicate_path(files@, 0) == duplicate_path(files@, k as int),
        decreases files@.len() - k,
    {
        if path_repeats(files, k) {
            return Err(
                "Integrity: duplicate path ".to_owned().concat(files[k].path.as_str()).concat(
                    " in output",
                ),
            );
        }
        k += 1;
    }
    Ok(())
}

/// Applies the renames to the files of a display and checks what comes out.
pub fn finish_display<E>(files: Vec<DisplayFile<E>>, renames: &RenameMap) -> (r: Result<
    Vec<DisplayFile<E>>,
    String,
>)
    ensures
        match r {
            Ok(shown) => {
                &&& shown@ == after_renames(files@, *renames)
                &&& display_failure(after_renames(files@, *renames)) is None
            },
            Err(message) => display_failure(after_renames(files@, *renames)) == Some(message@),
        },
{
    let shown = apply_renames(files, renames);
    match check_display(&shown) {
        Ok(_) => Ok(shown),
        Err(message) => Err(message),
    }
}

/// What every file of a display keeps.
pub open spec fn is_sound<E>(file: DisplayFile<E>) -> bool {
    let rows = file.rows@;
    let starts = file.hunk_starts@;
    // Each row has a pair of aligned lines.
    &&& file.aligned_lines@.len() == rows.len()
    // Fillers are empty.
    &&& forall|i: int|
        0 <= i < rows.len() && (#[trigger] rows[i]).left.is_filler ==> rows[i].left.content@.len()
            == 0
    &&& forall|i: int|
        0 <= i < rows.len() && (#[trigger] rows[i]).right.is_filler
            ==> rows[i].right.content@.len() == 0
    // Hunks start at rows, each behind the one before.
    &&& forall|i: int| 0 <= i < starts.len() ==> (#[trigger] starts[i]) < rows.len()
    &&& forall|i: int, j: int|
        0 <= i < j < starts.len() ==> (#[trigger] starts[i]) < (#[trigger] starts[j])
    // A created file that was not moved has no left side, a deleted one no right side.
    &&& file.status == Status::Created && file.moved_from is None ==> forall|i: int|
        0 <= i < rows.len() ==> (#[trigger] rows[i]).left.is_filler
    &&& file.status == Status::Deleted ==> forall|i: int|
        0 <= i < rows.len() ==> (#[trigger] rows[i]).right.is_filler
}

/// What the files of a display keep: each is sound, and no two have the same path.
pub open spec fn is_sound_display<E>(files: Seq<DisplayFile<E>>) -> bool {
    &&& forall|i: int| 0 <= i < files.len() ==> is_sound(#[trigger] files[i])
    &&& forall|i: int, j: int|
        0 <= i < j < files.len() ==> !same_path(
            (#[trigger] files[i]).path@,
            (#[trigger] files[j]).path@,
        )
}

proof fn lemma_fillers(path: Seq<char>, rows: Seq<Row>, i: int)
    requires
        0 <= i,
    ensures
        filled_filler(path, rows, i) is None <==> (forall|j: int|
            i <= j < rows.len() ==> ((#[trigger] rows[j]).left.is_filler
                ==> rows[j].left.content@.len() == 0) && (rows[j].right.is_filler
                ==> rows[j].right.content@.len() == 0)),
    decreases rows.len() - i,
{
    if i < rows.len() {
        lemma_fillers(path, rows, i + 1);
    }
}

proof fn lemma_hunks(path: Seq<char>, starts: Seq<u32>, rows: nat, i: int)
    requires
        0 <= i,
    ensures
        bad_hunk(path, starts, rows, i) is None <==> (forall|j: int|
            i <= j < starts.len() ==> (#[trigger] starts[j]) < rows && (j > 0 ==> starts[j - 1]
                < starts[j])),
    decreases starts.len() - i,
{
    if i < starts.len() {
        lemma_hunks(path, starts, rows, i + 1);
    }
}

proof fn lemma_increasing(starts: Seq<u32>, i: int, j: int)
    requires
        forall|k: int| 0 < k < starts.len() ==> starts[k - 1] < #[trigger] starts[k],
        0 <= i < j < starts.len(),
    ensures
        starts[i] < starts[j],
    decreases j - i,
{
    if i < j - 1 {
        lemma_increasing(starts, i, j - 1);
    }
    assert(starts[j - 1] < starts[j]);
}

proof fn lemma_left(path: Seq<char>, rows: Seq<Row>, i: int)
    requires
        0 <= i,
    ensures
        left_line(path, rows, i) is None <==> (forall|j: int|
            i <= j < rows.len() ==> (#[trigger] rows[j]).left.is_filler),
    decreases rows.len() - i,
{
    if i < rows.len() {
        lemma_left(path, rows, i + 1);
    }
}

proof fn lemma_right(path: Seq<char>, rows: Seq<Row>, i: int)
    requires
        0 <= i,
    ensures
        right_line(path, rows, i) is None <==> (forall|j: int|
            i <= j < rows.len() ==> (#[trigger] rows[j]).right.is_filler),
    decreases rows.len() - i,
{
    if i < rows.len() {
        lemma_right(path, rows, i + 1);
    }
}

/// A file passes the checks exactly where it is sound.
pub proof fn law_sound_files_pass<E>(file: DisplayFile<E>)
    ensures
        file_failure(file) is None <==> is_sound(file),
{
    let path = file.path@;
    let rows = file.rows@;
    let starts = file.hunk_starts@;
    lemma_fillers(path, rows, 0);
    lemma_hunks(path, starts, rows.len(), 0);
    lemma_left(path, rows, 0);
    lemma_right(path, rows, 0);
    if bad_hunk(path, starts, rows.len(), 0) is None {
        assert forall|i: int, j: int| 0 <= i < j < starts.len() implies (#[trigger] starts[i]) < (
        #[trigger] starts[j]) by {
            assert forall|k: int| 0 < k < starts.len() implies starts[k - 1]
                < #[trigger] starts[k] by {}
            lemma_increasing(starts, i, j);
        }
    }
}

proof fn lemma_files<E>(files: Seq<DisplayFile<E>>, i: int)
    requires
        0 <= i,
    ensures
        first_file_failure(files, i) is None <==> (forall|j: int|
            i <= j < files.len() ==> is_sound(#[trigger] files[j])),
    decreases files.len() - i,
{
    if i < files.len() {
        lemma_files(files, i + 1);
        law_sound_files_pass(files[i]);
    }
}

proof fn lemma_duplicates<E>(files: Seq<DisplayFile<E>>, i: int)
    requires
        0 <= i,
    ensures
        duplicate_path(files, i) is None <==> (forall|j: int|
            i <= j < files.len() ==> !#[trigger] repeated(files, j)),
    decreases files.len() - i,
{
    if i < files.len() {
        lemma_duplicates(files, i + 1);
    }
}

/// The files of a display pass the checks exactly where each is sound and no two have
/// the same path. So whatever is shown keeps that.
pub proof fn law_sound_displays_pass<E>(files: Seq<DisplayFile<E>>)
    ensures
        display_failure(files) is None <==> is_sound_display(files),
{
    lemma_files(files, 0);
    lemma_duplicates(files, 0);
    if duplicate_path(files, 0) is None {
        assert forall|i: int, j: int| 0 <= i < j < files.len() implies !same_path(
            (#[trigger] files[i]).path@,
            (#[trigger] files[j]).path@,
        ) by {
            assert(!repeated(files, j));
        }
    }
    if is_sound_display(files) {
        assert forall|j: int| 0 <= j < files.len() implies !#[trigger] repeated(files, j) by {}
    }
}

/// What passes the checks has a pair of aligned lines for each row, nothing in a filler,
/// and hunks that start at rows in rising order. What was created has no left side unless
/// it was moved, and what was deleted no right side.
pub proof fn law_files_that_pass_are_in_order<E>(file: DisplayFile<E>, i: int, j: int)
    requires
        file_failure(file) is None,
    ensures
        file.aligned_lines@.len() == file.rows@.len(),
        0 <= i < file.rows@.len() && file.rows@[i].left.is_filler
            ==> file.rows@[i].left.content@ == Seq::<char>::empty(),
        0 <= i < file.rows@.len() && file.rows@[i].right.is_filler
            ==> file.rows@[i].right.content@ == Seq::<char>::empty(),
        0 <= i < file.hunk_starts@.len() ==> file.hunk_starts@[i] < file.rows@.len(),
        0 <= i < j < file.hunk_starts@.len() ==> file.hunk_starts@[i] < file.hunk_starts@[j],
        file.status == Status::Created && file.moved_from is None && 0 <= i < file.rows@.len()
            ==> file.rows@[i].left.is_filler,
        file.status == Status::Deleted && 0 <= i < file.rows@.len()
            ==> file.rows@[i].right.is_filler,
{
    law_sound_files_pass(file);
    let rows = file.rows@;
    if 0 <= i < rows.len() {
        if rows[i].left.is_filler {
            assert(rows[i].left.content@ =~= Seq::<char>::empty());
        }
        if rows[i].right.is_filler {
            assert(rows[i].right.content@ =~= Seq::<char>::empty());
        }
    }
}

/// A row that holds nothing in its fillers.
pub open spec fn has_empty_fillers(row: Row) -> bool {
    &&& row.left.is_filler ==> row.left.content@ == Seq::<char>::empty()
    &&& row.right.is_filler ==> row.right.content@ == Seq::<char>::empty()
}

proof fn lemma_filler_at(path: Seq<char>, rows: Seq<Row>, from: int, i: int)
    requires
        0 <= from <= i < rows.len(),
        forall|k: int| from <= k < i ==> has_empty_fillers(#[trigger] rows[k]),
    ensures
        filled_filler(path, rows, from) == filled_filler(path, rows, i),
    decreases i - from,
{
    if from < i {
        assert(has_empty_fillers(rows[from]));
        lemma_filler_at(path, rows, from + 1, i);
    }
}

proof fn lemma_fillers_pass(path: Seq<char>, rows: Seq<Row>)
    requires
        forall|k: int| 0 <= k < rows.len() ==> has_empty_fillers(#[trigger] rows[k]),
    ensures
        filled_filler(path, rows, 0) is None,
{
    lemma_fillers(path, rows, 0);
    assert forall|j: int| 0 <= j < rows.len() implies ((#[trigger] rows[j]).left.is_filler
        ==> rows[j].left.content@.len() == 0) && (rows[j].right.is_filler
        ==> rows[j].right.content@.len() == 0) by {
        assert(has_empty_fillers(rows[j]));
    }
}

/// A file is told of whose rows and aligned lines differ in number, and else the first
/// filler that holds something, the left one before the right one.
pub proof fn law_first_filled_filler_is_told<E>(file: DisplayFile<E>, i: int)
    ensures
        file.aligned_lines@.len() != file.rows@.len() ==> file_failure(file) == Some(
            "Integrity: "@ + file.path@ + ": "@ + "aligned_lines.len() ("@ + decimal(
                file.aligned_lines@.len(),
            ) + ") != rows.len() ("@ + decimal(file.rows@.len()) + ")"@,
        ),
        file.aligned_lines@.len() == file.rows@.len() && 0 <= i < file.rows@.len() && (forall|
            k: int,
        | 0 <= k < i ==> has_empty_fillers(#[trigger] file.rows@[k])) ==> {
            let row = file.rows@[i];
            let told = "Integrity: "@ + file.path@ + ": "@ + "row "@ + decimal(i as nat);
            &&& row.left.is_filler && row.left.content@ != Seq::<char>::empty() ==> file_failure(
                file,
            ) == Some(told + " left is filler but has content"@)
            &&& !(row.left.is_filler && row.left.content@ != Seq::<char>::empty())
                && row.right.is_filler && row.right.content@ != Seq::<char>::empty()
                ==> file_failure(file) == Some(told + " right is filler but has content"@)
        },
{
    let rows = file.rows@;
    if 0 <= i < rows.len() {
        let left = rows[i].left.content@;
        let right = rows[i].right.content@;
        assert(left.len() == 0 ==> left =~= Seq::<char>::empty());
        assert(right.len() == 0 ==> right =~= Seq::<char>::empty());
        if forall|k: int| 0 <= k < i ==> has_empty_fillers(#[trigger] rows[k]) {
            lemma_filler_at(file.path@, rows, 0, i);
        }
    }
}

/// A file whose rows are as many as its aligned lines and hold nothing in a filler.
pub open spec fn has_sound_rows<E>(file: DisplayFile<E>) -> bool {
    &&& file.aligned_lines@.len() == file.rows@.len()
    &&& forall|k: int| 0 <= k < file.rows@.len() ==> has_empty_fillers(#[trigger] file.rows@[k])
}

/// The hunk starts at a row, behind the start of the one before it.
pub open spec fn starts_in_order(starts: Seq<u32>, rows: nat, k: int) -> bool {
    starts[k] < rows && (k > 0 ==> starts[k - 1] < starts[k])
}

proof fn lemma_hunk_at(path: Seq<char>, starts: Seq<u32>, rows: nat, from: int, i: int)
    requires
        0 <= from <= i <= starts.len(),
        forall|k: int| from <= k < i ==> #[trigger] starts_in_order(starts, rows, k),
    ensures
        bad_hunk(path, starts, rows, from) == bad_hunk(path, starts, rows, i),
    decreases i - from,
{
    if from < i {
        assert(starts_in_order(starts, rows, from));
        lemma_hunk_at(path, starts, rows, from + 1, i);
    }
}

/// Where the rows are sound, the first hunk is told of that starts at no row, or not
/// behind the one before it.
pub proof fn law_first_bad_hunk_is_told<E>(file: DisplayFile<E>, i: int)
    requires
        has_sound_rows(file),
        0 <= i < file.hunk_starts@.len(),
        forall|k: int|
            0 <= k < i ==> #[trigger] starts_in_order(file.hunk_starts@, file.rows@.len(), k),
    ensures
        file.hunk_starts@[i] >= file.rows@.len() ==> file_failure(file) == Some(
            "Integrity: "@ + file.path@ + ": "@ + "hunk_start["@ + decimal(i as nat) + "] = "@
                + decimal(file.hunk_starts@[i] as nat) + " >= rows.len() ("@ + decimal(
                file.rows@.len(),
            ) + ")"@,
        ),
        file.hunk_starts@[i] < file.rows@.len() && i > 0 && file.hunk_starts@[i]
            <= file.hunk_starts@[i - 1] ==> file_failure(file) == Some(
            "Integrity: "@ + file.path@ + ": "@ + "hunk_starts not sorted: ["@ + decimal(i as nat)
                + "]="@ + decimal(file.hunk_starts@[i] as nat) + " <= ["@ + decimal(
                (i - 1) as nat,
            ) + "]="@ + decimal(file.hunk_starts@[i - 1] as nat),
        ),
{
    lemma_fillers_pass(file.path@, file.rows@);
    lemma_hunk_at(file.path@, file.hunk_starts@, file.rows@.len(), 0, i);
}

proof fn lemma_left_at(path: Seq<char>, rows: Seq<Row>, from: int, i: int)
    requires
        0 <= from <= i < rows.len(),
        forall|k: int| from <= k < i ==> (#[trigger] rows[k]).left.is_filler,
    ensures
        left_line(path, rows, from) == left_line(path, rows, i),
    decreases i - from,
{
    if from < i {
        assert(rows[from].left.is_filler);
        lemma_left_at(path, rows, from + 1, i);
    }
}

proof fn lemma_right_at(path: Seq<char>, rows: Seq<Row>, from: int, i: int)
    requires
        0 <= from <= i < rows.len(),
        forall|k: int| from <= k < i ==> (#[trigger] rows[k]).right.is_filler,
    ensures
        right_line(path, rows, from) == right_line(path, rows, i),
    decreases i - from,
{
    if from < i {
        assert(rows[from].right.is_filler);
        lemma_right_at(path, rows, from + 1, i);
    }
}

/// Where rows and hunks are sound, the first row is told of that has a left side though
/// the file was created and not moved, or a right side though it was deleted.
pub proof fn law_first_line_of_a_missing_side_is_told<E>(file: DisplayFile<E>, i: int)
    requires
        has_sound_rows(file),
        forall|k: int|
            0 <= k < file.hunk_starts@.len() ==> #[trigger] starts_in_order(
                file.hunk_starts@,
                file.rows@.len(),
                k,
            ),
        0 <= i < file.rows@.len(),
    ensures
        file.status == Status::Created && file.moved_from is None && !file.rows@[i].left.is_filler
            && (forall|k: int| 0 <= k < i ==> (#[trigger] file.rows@[k]).left.is_filler)
            ==> file_failure(file) == Some(
            "Integrity: "@ + file.path@ + ": "@
                + "created (non-rename) file has non-filler left at row "@ + decimal(i as nat),
        ),
        file.status == Status::Deleted && !file.rows@[i].right.is_filler && (forall|k: int|
            0 <= k < i ==> (#[trigger] file.rows@[k]).right.is_filler) ==> file_failure(file)
            == Some(
            "Integrity: "@ + file.path@ + ": "@ + "deleted file has non-filler right at row "@
                + decimal(i as nat),
        ),
{
    let path = file.path@;
    let rows = file.rows@;
    lemma_fillers_pass(path, rows);
    lemma_hunk_at(path, file.hunk_starts@, rows.len(), 0, file.hunk_starts@.len() as int);
    if forall|k: int| 0 <= k < i ==> (#[trigger] rows[k]).left.is_filler {
        lemma_left_at(path, rows, 0, i);
    }
    if forall|k: int| 0 <= k < i ==> (#[trigger] rows[k]).right.is_filler {
        lemma_right_at(path, rows, 0, i);
    }
}

proof fn lemma_failure_at<E>(files: Seq<DisplayFile<E>>, from: int, i: int)
    requires
        0 <= from <= i <= files.len(),
        forall|k: int| from <= k < i ==> file_failure(#[trigger] files[k]) is None,
    ensures
        first_file_failure(files, from) == first_file_failure(files, i),
    decreases i - from,
{
    if from < i {
        assert(file_failure(files[from]) is None);
        lemma_failure_at(files, from + 1, i);
    }
}

proof fn lemma_duplicate_at<E>(files: Seq<DisplayFile<E>>, from: int, i: int)
    requires
        0 <= from <= i < files.len(),
        forall|k: int| from <= k < i ==> !#[trigger] repeated(files, k),
    ensures
        duplicate_path(files, from) == duplicate_path(files, i),
    decreases i - from,
{
    if from < i {
        assert(!repeated(files, from));
        lemma_duplicate_at(files, from + 1, i);
    }
}

/// What is wrong with a display is what is wrong with the first file that does not pass,
/// whatever stands behind it.
pub proof fn law_first_file_that_fails_is_told<E>(files: Seq<DisplayFile<E>>, i: int)
    requires
        0 <= i < files.len(),
        file_failure(files[i]) is Some,
        forall|k: int| 0 <= k < i ==> file_failure(#[trigger] files[k]) is None,
    ensures
        display_failure(files) == file_failure(files[i]),
{
    lemma_failure_at(files, 0, i);
}

/// Where every file passes and two have the same path, the first is told of that has the
/// path of an earlier one.
pub proof fn law_first_repeated_path_is_told<E>(files: Seq<DisplayFile<E>>, j: int, i: int)
    requires
        0 <= j < i < files.len(),
        same_path(files[j].path@, files[i].path@),
        forall|k: int| 0 <= k < files.len() ==> file_failure(#[trigger] files[k]) is None,
        forall|k: int, l: int|
            0 <= k < l < i ==> !same_path(
                (#[trigger] files[k]).path@,
                (#[trigger] files[l]).path@,
            ),
    ensures
        display_failure(files) == Some(
            "Integrity: duplicate path "@ + files[i].path@ + " in output"@,
        ),
{
    lemma_failure_at(files, 0, files.len() as int);
    assert(repeated(files, i));
    assert forall|k: int| 0 <= k < i implies !#[trigger] repeated(files, k) by {}
    lemma_duplicate_at(files, 0, i);
}

/// A display passes only where each file does and no two have the same path.
pub proof fn law_displays_that_pass_have_each_path_once<E>(
    files: Seq<DisplayFile<E>>,
    i: int,
    j: int,
)
    requires
        display_failure(files) is None,
    ensures
        0 <= i < files.len() ==> file_failure(files[i]) is None,
        0 <= i < j < files.len() ==> !same_path(files[i].path@, files[j].path@),
{
    law_sound_displays_pass(files);
    if 0 <= i < files.len() {
        law_sound_files_pass(files[i]);
    }
}

} // verus!
