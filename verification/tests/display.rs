use difftastic_nvim::difft::{DifftFile, Status};
use difftastic_nvim::display::{
    accept_files, apply_renames, check_numstat, prepare_file_for_display, process_prepared_file,
    DisplayFile, Row, RowSide,
};
use difftastic_nvim::integrity::{check_display, check_file, finish_display};
use difftastic_nvim::renames::{parse_git_name_status_renames, RenameMap};
use difftastic_nvim::stats::parse_numstat;

fn text(s: &str) -> String {
    s.to_string()
}

fn difft(path: &str) -> DifftFile {
    DifftFile {
        path: text(path),
        language: text("Text"),
        status: Status::Changed,
        aligned_lines: Vec::new(),
        chunks: Vec::new(),
    }
}

fn line(content: &str) -> RowSide {
    RowSide { content: text(content), is_filler: false }
}

fn filler(content: &str) -> RowSide {
    RowSide { content: text(content), is_filler: true }
}

fn shown(path: &str, status: Status, rows: Vec<(RowSide, RowSide)>) -> DisplayFile<u8> {
    let rows: Vec<Row> = rows.into_iter().map(|(left, right)| Row { left, right }).collect();
    DisplayFile {
        path: text(path),
        status,
        moved_from: None,
        aligned_lines: rows.iter().map(|_| (Some(0), Some(0))).collect(),
        rows,
        hunk_starts: Vec::new(),
        extra: 9,
    }
}

fn no_renames() -> RenameMap {
    parse_git_name_status_renames("")
}

#[test]
fn a_plain_file_is_prepared_as_it_is() {
    let mut file = difft("src/a.rs");
    let stats = parse_numstat("1\t2\tsrc/a.rs\n");
    let prepared = prepare_file_for_display(&mut file, &stats);
    assert_eq!(prepared, (Some((1, 2)), text("src/a.rs"), text("src/a.rs"), None));
    assert_eq!(file, difft("src/a.rs"));
}

#[test]
fn a_moved_file_is_created_under_its_new_path() {
    let mut file = difft("src/{a => b}.rs");
    let stats = parse_numstat("1\t2\tsrc/{a => b}.rs\n3\t4\tsrc/b.rs\n");
    let prepared = prepare_file_for_display(&mut file, &stats);
    assert_eq!(
        prepared,
        (Some((1, 2)), text("src/a.rs"), text("src/b.rs"), Some(text("src/a.rs")))
    );
    assert_eq!(file.path, "src/b.rs");
    assert_eq!(file.status, Status::Created);
    let none = prepare_file_for_display(&mut difft("x"), &stats);
    assert_eq!(none.0, None);
}

#[test]
fn a_display_knows_where_its_file_came_from() {
    let file = process_prepared_file(shown("b", Status::Created, Vec::new()), Some(text("a")));
    assert_eq!(file.moved_from, Some(text("a")));
    assert_eq!(file.path, "b");
    assert_eq!(file.extra, 9);
}

#[test]
fn every_counted_file_was_compared() {
    let files = vec![difft("b"), difft("c")];
    assert_eq!(check_numstat("git", &files, &parse_numstat("1\t1\ta => b\n2\t2\tc\n")), Ok(()));
    let stats = parse_numstat("1\t1\tb\n2\t2\tx/{y => z}\n");
    assert_eq!(
        check_numstat("git", &files, &stats),
        Err(text(
            "Integrity: git numstat reports x/{y => z} but it's missing from diff output"
        ))
    );
    assert_eq!(check_numstat("jj", &files, &stats), Ok(()));
    assert_eq!(accept_files("jj", Ok(files.clone()), &stats), Ok(files.clone()));
    assert!(accept_files("git", Ok(files), &stats).is_err());
    assert_eq!(accept_files("git", Err(text("no")), &stats), Err(text("no")));
}

#[test]
fn renames_are_applied() {
    let renames = parse_git_name_status_renames("R100\told\tnew\n");
    let files = vec![
        shown("old", Status::Deleted, Vec::new()),
        shown("new", Status::Changed, Vec::new()),
        shown("other", Status::Deleted, Vec::new()),
    ];
    let applied = apply_renames(files, &renames);
    let mut moved = shown("new", Status::Created, Vec::new());
    moved.moved_from = Some(text("old"));
    assert_eq!(applied, vec![moved, shown("other", Status::Deleted, Vec::new())]);
}

#[test]
fn a_path_may_be_both_sides_of_renames() {
    let renames = parse_git_name_status_renames("R100\ta\tb\nR100\tb\ta\n");
    let files = vec![
        shown("a", Status::Deleted, Vec::new()),
        shown("b", Status::Unchanged, Vec::new()),
    ];
    let applied = apply_renames(files, &renames);
    assert_eq!(applied.len(), 2);
    assert_eq!(applied[0].moved_from, Some(text("b")));
    assert_eq!(applied[1].moved_from, Some(text("a")));
    assert!(applied.iter().all(|f| f.status == Status::Created));
}

#[test]
fn without_renames_nothing_changes() {
    let files = vec![
        shown("a", Status::Deleted, Vec::new()),
        shown("b", Status::Changed, Vec::new()),
    ];
    assert_eq!(apply_renames(files.clone(), &no_renames()), files);
    assert_eq!(finish_display(files.clone(), &no_renames()), Ok(files));
}

#[test]
fn sound_files_pass() {
    let rows = vec![(line("x"), line("y")), (filler(""), line("z"))];
    let mut file = shown("a", Status::Changed, rows);
    file.hunk_starts = vec![0, 1];
    assert_eq!(check_file(&file), None);
    assert_eq!(check_file(&shown("a", Status::Created, vec![(filler(""), line("x"))])), None);
    assert_eq!(check_file(&shown("a", Status::Deleted, vec![(line("x"), filler(""))])), None);
}

#[test]
fn every_row_has_its_aligned_lines() {
    let mut file = shown("a", Status::Changed, vec![(line("x"), line("y"))]);
    file.aligned_lines.clear();
    assert_eq!(
        check_file(&file),
        Some(text("Integrity: a: aligned_lines.len() (0) != rows.len() (1)"))
    );
}

#[test]
fn fillers_are_empty() {
    let left = shown("a", Status::Changed, vec![(line(""), line("")), (filler("x"), line("y"))]);
    assert_eq!(
        check_file(&left),
        Some(text("Integrity: a: row 1 left is filler but has content"))
    );
    let right = shown("a", Status::Changed, vec![(line("x"), filler("y"))]);
    assert_eq!(
        check_file(&right),
        Some(text("Integrity: a: row 0 right is filler but has content"))
    );
}

#[test]
fn hunks_start_at_rows_in_order() {
    let rows = || vec![(line("x"), line("y")), (line("x"), line("y"))];
    let mut file = shown("a", Status::Changed, rows());
    file.hunk_starts = vec![2];
    assert_eq!(
        check_file(&file),
        Some(text("Integrity: a: hunk_start[0] = 2 >= rows.len() (2)"))
    );
    let mut file = shown("a", Status::Changed, rows());
    file.hunk_starts = vec![1, 1];
    assert_eq!(
        check_file(&file),
        Some(text("Integrity: a: hunk_starts not sorted: [1]=1 <= [0]=1"))
    );
}

#[test]
fn created_files_have_no_left_side_and_deleted_ones_no_right() {
    let created = shown("a", Status::Created, vec![(line("x"), line("y"))]);
    assert_eq!(
        check_file(&created),
        Some(text("Integrity: a: created (non-rename) file has non-filler left at row 0"))
    );
    let mut renamed = created.clone();
    renamed.moved_from = Some(text("b"));
    assert_eq!(check_file(&renamed), None);
    let rows = vec![(line("x"), filler("")), (line("x"), line("y"))];
    let deleted = shown("a", Status::Deleted, rows);
    assert_eq!(
        check_file(&deleted),
        Some(text("Integrity: a: deleted file has non-filler right at row 1"))
    );
}

#[test]
fn no_two_files_have_one_path() {
    let files = vec![
        shown("a/b", Status::Changed, Vec::new()),
        shown("c", Status::Changed, Vec::new()),
        shown("a//b", Status::Changed, Vec::new()),
    ];
    assert_eq!(
        check_display(&files),
        Err(text("Integrity: duplicate path a//b in output"))
    );
    assert_eq!(check_display(&files[..2].to_vec()), Ok(()));
}

#[test]
fn a_display_is_checked_after_its_renames() {
    let renames = parse_git_name_status_renames("R100\told\tnew\n");
    let files = vec![
        shown("old", Status::Deleted, vec![(line("x"), line("bad"))]),
        shown("new", Status::Created, vec![(line("x"), line("y"))]),
    ];
    let finished = finish_display(files, &renames).unwrap();
    assert_eq!(finished.len(), 1);
    assert_eq!(finished[0].moved_from, Some(text("old")));
    let bad = vec![shown("old", Status::Deleted, vec![(line("x"), line("bad"))])];
    assert_eq!(
        finish_display(bad, &no_renames()),
        Err(text("Integrity: old: deleted file has non-filler right at row 0"))
    );
}
