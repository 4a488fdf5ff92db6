use difftastic_nvim::command::CommandOutput;
use difftastic_nvim::difft::{DifftFile, Status};
use difftastic_nvim::parallel::{
    check_integrity, collect_files, git_changed_files, parse_name_status_entries, temp_name,
    ChangedEntry,
};
use difftastic_nvim::task::{collect_tasks, FileEvent, FileStage, FileTask};

fn text(s: &str) -> String {
    s.to_string()
}

fn entry(status: &str, old_path: &str, new_path: &str) -> ChangedEntry {
    ChangedEntry { status: text(status), old_path: text(old_path), new_path: text(new_path) }
}

fn file(path: &str, status: Status) -> DifftFile {
    DifftFile {
        path: text(path),
        language: text("Rust"),
        status,
        aligned_lines: Vec::new(),
        chunks: Vec::new(),
    }
}

fn output(code: Option<i32>, stdout: &str, stderr: &str) -> CommandOutput {
    CommandOutput {
        code,
        stdout: stdout.as_bytes().to_vec(),
        stderr: stderr.as_bytes().to_vec(),
    }
}

#[test]
fn name_status_lines_are_read() {
    let entries = parse_name_status_entries("M\ta.rs\nR100\told\tnew\nC75\tx\ty\nA\tz\textra\nD\n");
    assert_eq!(
        entries,
        vec![
            entry("M", "a.rs", "a.rs"),
            entry("R100", "old", "new"),
            entry("C75", "x", "y"),
            entry("A", "z", "z"),
        ]
    );
    assert_eq!(parse_name_status_entries(" M \t a \n"), vec![entry("M", "a", "a")]);
    assert_eq!(parse_name_status_entries("R100\tonly\n"), Vec::new());
}

#[test]
fn the_list_of_changed_files_has_to_come() {
    assert_eq!(
        git_changed_files(&Ok(output(Some(0), "M\ta\n", ""))),
        Ok(vec![entry("M", "a", "a")])
    );
    assert_eq!(
        git_changed_files(&Ok(output(Some(128), "", "bad revision"))),
        Err(text("git name-status failed: bad revision"))
    );
    assert_eq!(
        git_changed_files(&Err(text("no git"))),
        Err(text("Failed to run git: no git"))
    );
}

#[test]
fn temporary_files_keep_their_names() {
    assert_eq!(temp_name("src/CMakeLists.txt"), "CMakeLists.txt");
    assert_eq!(temp_name(".."), "file");
    assert_eq!(temp_name(""), "file");
}

/// Takes a task through the making of its directories.
fn prepared(entry: ChangedEntry) -> FileTask {
    let task = FileTask::new(entry, "old", "new", "/tmp/7");
    assert_eq!(task.stage, FileStage::MakeSlot);
    let task = task.step(FileEvent::Done);
    assert_eq!(task.stage, FileStage::MakeOld);
    let task = task.step(FileEvent::Done);
    assert_eq!(task.stage, FileStage::MakeNew);
    task.step(FileEvent::Done)
}

fn fetched(content: &str) -> FileEvent {
    FileEvent::Fetched(Some(output(Some(0), content, "")))
}

/// Takes a task of a changed file to the point where difftastic is run.
fn ready(entry: ChangedEntry) -> FileTask {
    let mut task = prepared(entry);
    while !matches!(task.stage, FileStage::Compare(_)) {
        let event = match &task.stage {
            FileStage::FetchOld(_) | FileStage::FetchNew { .. } => fetched("content"),
            FileStage::WriteOld { .. } | FileStage::WriteNew { .. } => FileEvent::Done,
            stage => panic!("unexpected stage {stage:?}"),
        };
        task = task.step(event);
    }
    task
}

fn failure(task: FileTask) -> String {
    match task.stage {
        FileStage::Finished(Err(message)) => message,
        stage => panic!("unexpected stage {stage:?}"),
    }
}

#[test]
fn a_changed_file_goes_through_all_stages() {
    let task = prepared(entry("R90", "a/x.rs", "b/y.rs"));
    match &task.stage {
        FileStage::FetchOld(command) => {
            assert_eq!(command.program, "git");
            assert_eq!(command.args, vec!["show", "old:a/x.rs"]);
        }
        stage => panic!("unexpected stage {stage:?}"),
    }
    let task = task.step(fetched("before"));
    match &task.stage {
        FileStage::FetchNew { old_content, command } => {
            assert_eq!(old_content, "before");
            assert_eq!(command.args, vec!["show", "new:b/y.rs"]);
        }
        stage => panic!("unexpected stage {stage:?}"),
    }
    let task = task.step(fetched("after"));
    assert_eq!(
        task.stage,
        FileStage::WriteOld {
            path: text("/tmp/7/old/x.rs"),
            content: text("before"),
            new_content: text("after"),
        }
    );
    let task = task.step(FileEvent::Done);
    assert_eq!(
        task.stage,
        FileStage::WriteNew { path: text("/tmp/7/new/y.rs"), content: text("after") }
    );
    let task = task.step(FileEvent::Done);
    match &task.stage {
        FileStage::Compare(command) => {
            assert_eq!(command.program, "difft");
            assert_eq!(command.args, vec!["/tmp/7/old/x.rs", "/tmp/7/new/y.rs"]);
            assert!(command.json_output);
        }
        stage => panic!("unexpected stage {stage:?}"),
    }
    let task = task.step(FileEvent::Compared(output(Some(1), "{}", "")));
    assert_eq!(task.stage, FileStage::Parse(text("{}")));
    let parsed = vec![file("/tmp/y.rs", Status::Changed)];
    let task = task.step(FileEvent::Parsed(Ok(parsed)));
    assert_eq!(task.stage, FileStage::Finished(Ok(file("b/y.rs", Status::Changed))));
    let task = task.step(FileEvent::Failed(text("too late")));
    assert_eq!(task.stage, FileStage::Finished(Ok(file("b/y.rs", Status::Changed))));
}

#[test]
fn added_files_have_no_old_content() {
    let task = prepared(entry("A", "a", "a"));
    match task.stage {
        FileStage::FetchNew { old_content, .. } => assert_eq!(old_content, ""),
        stage => panic!("unexpected stage {stage:?}"),
    }
}

#[test]
fn deleted_files_have_no_new_content() {
    let task = prepared(entry("D", "a", "a")).step(fetched("x"));
    match task.stage {
        FileStage::WriteOld { new_content, .. } => assert_eq!(new_content, ""),
        stage => panic!("unexpected stage {stage:?}"),
    }
}

#[test]
fn content_that_cannot_be_fetched_is_an_error() {
    let task = prepared(entry("M", "a", "b")).step(FileEvent::Fetched(None));
    assert_eq!(failure(task), "b: failed to fetch old content from old:a");
    let task = prepared(entry("M", "a", "b")).step(fetched("x"));
    let task = task.step(FileEvent::Fetched(Some(output(Some(1), "", "gone"))));
    assert_eq!(failure(task), "b: failed to fetch new content from new:b");
}

#[test]
fn steps_that_fail_are_named() {
    let start = || FileTask::new(entry("M", "a", "b"), "old", "new", "/tmp/7");
    let fail = || FileEvent::Failed(text("disk full"));
    let slot = start();
    assert_eq!(failure(slot.step(fail())), "b: temp dir: disk full");
    let old = start().step(FileEvent::Done);
    assert_eq!(failure(old.step(fail())), "b: old dir: disk full");
    let new = start().step(FileEvent::Done).step(FileEvent::Done);
    assert_eq!(failure(new.step(fail())), "b: new dir: disk full");
    let write = prepared(entry("M", "a", "b")).step(fetched("x")).step(fetched("y"));
    assert_eq!(failure(write.step(fail())), "b: write old: disk full");
    let write = prepared(entry("M", "a", "b")).step(fetched("x")).step(fetched("y"));
    assert_eq!(failure(write.step(FileEvent::Done).step(fail())), "b: write new: disk full");
    let run = ready(entry("M", "a", "b"));
    assert_eq!(failure(run.step(fail())), "b: difft failed to run: disk full");
}

#[test]
fn difftastic_may_find_nothing() {
    let task = ready(entry("M", "a.go", "b.go"));
    let task = task.step(FileEvent::Compared(output(Some(0), " \n", "")));
    let mut expected = file("b.go", Status::Unchanged);
    expected.language = text("Go");
    assert_eq!(task.stage, FileStage::Finished(Ok(expected)));
}

#[test]
fn difftastic_may_fail() {
    let task = ready(entry("M", "a", "a"));
    let task = task.step(FileEvent::Compared(output(Some(2), "{}", "bad flag")));
    assert_eq!(failure(task), "a: difft exited with code 2: bad flag");
    let task = ready(entry("M", "a", "a"));
    let task = task.step(FileEvent::Compared(output(None, "", "")));
    assert_eq!(failure(task), "a: difft exited with code -1: ");
}

#[test]
fn a_report_is_on_one_file() {
    let parse = || {
        ready(entry("M", "a", "a")).step(FileEvent::Compared(output(Some(1), "[]", "")))
    };
    assert_eq!(
        failure(parse().step(FileEvent::Parsed(Ok(Vec::new())))),
        "a: expected 1 file from difft, got 0"
    );
    assert_eq!(
        failure(parse().step(FileEvent::Parsed(Err(text("EOF"))))),
        "a: JSON parse error: EOF"
    );
}

#[test]
fn events_that_do_not_fit_change_nothing() {
    let task = FileTask::new(entry("M", "a", "a"), "old", "new", "/tmp/7");
    let task = task.step(fetched("x"));
    assert_eq!(task.stage, FileStage::MakeSlot);
    assert_eq!(task.entry, entry("M", "a", "a"));
}

#[test]
fn one_failure_fails_the_batch() {
    let entries = vec![entry("M", "a", "a"), entry("M", "b", "b")];
    let results = vec![Ok(file("a", Status::Changed)), Err(text("b: no"))];
    assert_eq!(collect_files(&entries, results), Err(text("b: no")));
}

#[test]
fn complete_results_are_accepted() {
    let entries = vec![entry("A", "a", "a"), entry("D", "b", "b")];
    let files = vec![file("a", Status::Created), file("b", Status::Deleted)];
    let results = files.iter().cloned().map(Ok).collect();
    assert_eq!(collect_files(&entries, results), Ok(files));
}

#[test]
fn finished_tasks_give_one_file_for_each_entry() {
    let entries = vec![entry("M", "a", "b"), entry("M", "c", "c")];
    let finished = |entry: &ChangedEntry| {
        ready(entry.clone()).step(FileEvent::Compared(output(Some(0), "", "")))
    };
    let tasks = entries.iter().map(finished).collect();
    let files = collect_tasks(&entries, tasks).unwrap();
    let paths: Vec<String> = files.into_iter().map(|f| f.path).collect();
    assert_eq!(paths, vec!["b", "c"]);

    assert_eq!(
        collect_tasks(&entries, vec![finished(&entries[0])]),
        Err(text("Integrity: git reported 2 files but diff produced 1"))
    );
    let failed = ready(entries[1].clone()).step(FileEvent::Failed(text("no difft")));
    assert_eq!(
        collect_tasks(&entries, vec![finished(&entries[0]), failed]),
        Err(text("c: difft failed to run: no difft"))
    );
}

#[test]
fn results_are_held_against_the_entries() {
    let entries = vec![entry("A", "a", "a"), entry("D", "b", "b")];
    let check = |files: Vec<DifftFile>| check_integrity(&entries, &files);
    assert_eq!(
        check(vec![file("a", Status::Created)]),
        Err(text("Integrity: git reported 2 files but diff produced 1"))
    );
    assert_eq!(
        check(vec![file("a", Status::Created), file("c", Status::Deleted)]),
        Err(text("Integrity: file b reported by git but missing from diff output"))
    );
    assert_eq!(
        check(vec![file("b", Status::Deleted), file("a", Status::Deleted)]),
        Err(text("Integrity: git says a is Added but difft says Deleted"))
    );
    assert_eq!(
        check(vec![file("b", Status::Created), file("a", Status::Created)]),
        Err(text("Integrity: git says b is Deleted but difft says Created"))
    );
    assert_eq!(check(vec![file("b", Status::Changed), file("a", Status::Unchanged)]), Ok(()));
}
