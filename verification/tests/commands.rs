use difftastic_nvim::command::{
    json_environment, required_output, successful_output, successful_trimmed_output, CommandLine,
    CommandOutput,
};
use difftastic_nvim::difft::parsed_files;
use difftastic_nvim::plan::{
    git_extra_args, jj_between_commands, jj_between_stats_command, jj_commit_commands,
    jj_diff_stats_command, merge_base_command, plan_diff, range_merge_base_command,
    ContentFetcher, ContentSource, DiffMode, FilesJob, RenamesJob, StatsJob,
};
use difftastic_nvim::vcs::{
    difft_command, git_name_status_command, jj_commit_id_command, root_command,
};

fn command(program: &str, args: &[&str], json_output: bool) -> CommandLine {
    CommandLine {
        program: program.to_string(),
        args: args.iter().map(|a| a.to_string()).collect(),
        json_output,
    }
}

fn output(code: Option<i32>, stdout: &[u8], stderr: &[u8]) -> CommandOutput {
    CommandOutput { code, stdout: stdout.to_vec(), stderr: stderr.to_vec() }
}

fn text(s: &str) -> String {
    s.to_string()
}

#[test]
fn output_that_is_no_utf8_is_replaced() {
    let o = output(Some(0), b"a\xffb\xe2\x82", b"\xc3\xa9");
    assert_eq!(o.stdout_text(), "a\u{fffd}b\u{fffd}");
    assert_eq!(o.stderr_text(), "é");
}

#[test]
fn only_successful_output_is_read() {
    assert_eq!(successful_output(&Some(output(Some(0), b"x\n", b""))), Some(text("x\n")));
    assert_eq!(successful_output(&Some(output(Some(1), b"x\n", b""))), None);
    assert_eq!(successful_output(&Some(output(None, b"x\n", b""))), None);
    assert_eq!(successful_output(&None), None);
    let root = Some(output(Some(0), b" /repo \n", b""));
    assert_eq!(successful_trimmed_output(&root), Some(text("/repo")));
    assert_eq!(successful_trimmed_output(&None), None);
}

#[test]
fn required_output_or_the_reason() {
    assert_eq!(required_output("jj", "command", &Ok(output(Some(0), b"[]", b""))), Ok(text("[]")));
    assert_eq!(
        required_output("jj", "command", &Ok(output(Some(1), b"", b"no such revision"))),
        Err(text("jj command failed: no such revision"))
    );
    assert_eq!(
        required_output("git", "command", &Err(text("not found"))),
        Err(text("Failed to run git: not found"))
    );
}

#[test]
fn files_that_could_not_be_parsed() {
    assert_eq!(parsed_files(Ok(Vec::new())), Ok(Vec::new()));
    assert_eq!(
        parsed_files(Err(text("EOF"))),
        Err(text("Failed to parse difftastic JSON: EOF"))
    );
}

#[test]
fn difftastic_is_asked_for_json() {
    assert_eq!(
        json_environment(),
        vec![(text("DFT_DISPLAY"), text("json")), (text("DFT_UNSTABLE"), text("yes"))]
    );
}

#[test]
fn arguments_are_put_behind_each_other() {
    let built = CommandLine::new("git").arg("diff").args(&vec![text("a"), text("b")]);
    assert_eq!(built, command("git", &["diff", "a", "b"], false));
    assert_eq!(built.with_json_output(), command("git", &["diff", "a", "b"], true));
    assert_eq!(
        git_name_status_command(&vec![text("a..b")]),
        command("git", &["diff", "--name-status", "a..b"], false)
    );
    assert_eq!(
        jj_commit_id_command("@"),
        command("jj", &["log", "-r", "@", "--no-graph", "-T", "commit_id"], false)
    );
    assert_eq!(root_command("git"), command("git", &["rev-parse", "--show-toplevel"], false));
    assert_eq!(root_command("jj"), command("jj", &["root"], false));
    assert_eq!(difft_command("a", "b"), command("difft", &["a", "b"], true));
}

#[test]
fn a_git_range_is_compared_file_by_file() {
    let mode = DiffMode::Range(text("a...b"));
    let base = Some(text("c"));
    let plan = plan_diff(&mode, "git", &base);
    assert_eq!(
        plan.files,
        FilesJob::GitParallel {
            extra_args: vec![text("c..b")],
            old_ref: text("c"),
            new_ref: text("b"),
        }
    );
    assert_eq!(plan.stats, StatsJob::Git(command("git", &["diff", "--numstat", "c..b"], false)));
    assert_eq!(
        plan.renames,
        RenamesJob::Git(command("git", &["diff", "--name-status", "-M", "c..b"], false))
    );
    assert_eq!(
        ContentFetcher::new(&mode, "git", &base),
        ContentFetcher::GitRange(text("c"), text("b"))
    );
}

#[test]
fn other_git_diffs_are_one_command() {
    let cases = [
        (DiffMode::Unstaged, vec![]),
        (DiffMode::Staged, vec!["--cached"]),
        (DiffMode::WorkingTree(text("v1")), vec!["v1"]),
        (DiffMode::StagedVsCommit(text("v1")), vec!["--cached", "v1"]),
    ];
    for (mode, args) in cases {
        assert_eq!(git_extra_args(&mode, &None), args);
        let mut all = vec!["-c", "diff.external=difft", "diff"];
        all.extend(args);
        let plan = plan_diff(&mode, "git", &None);
        assert_eq!(plan.files, FilesJob::Git(command("git", &all, true)));
    }
}

#[test]
fn jj_diffs_go_by_revset() {
    let plan = plan_diff(&DiffMode::Range(text("x..y")), "jj", &None);
    assert_eq!(
        plan.files,
        FilesJob::Jj(command("jj", &["diff", "-r", "x..y", "--tool", "difft"], true))
    );
    assert_eq!(plan.stats, StatsJob::JjRevset(text("x..y")));
    assert_eq!(
        plan.renames,
        RenamesJob::Jj(command("jj", &["diff", "-r", "x..y", "--summary"], false))
    );

    let plan = plan_diff(&DiffMode::Staged, "jj", &None);
    assert_eq!(
        plan.files,
        FilesJob::Jj(command("jj", &["diff", "-r", "@", "--tool", "difft"], true))
    );
    assert_eq!(plan.stats, StatsJob::JjRevset(text("@")));
    assert_eq!(
        plan.renames,
        RenamesJob::Jj(command("jj", &["diff", "-r", "@", "--summary"], false))
    );

    let plan = plan_diff(&DiffMode::Unstaged, "jj", &None);
    assert_eq!(plan.files, FilesJob::Jj(command("jj", &["diff", "--tool", "difft"], true)));
    assert_eq!(plan.stats, StatsJob::Ignored(command("jj", &["diff", "--stat"], false)));
    assert_eq!(plan.renames, RenamesJob::Nothing);
}

#[test]
fn jj_compares_against_the_commit_that_is_given() {
    let plan = plan_diff(&DiffMode::WorkingTree(text("v1")), "jj", &None);
    assert_eq!(
        plan.files,
        FilesJob::Jj(command("jj", &["diff", "--from", "v1", "--tool", "difft"], true))
    );
    assert_eq!(plan.stats, StatsJob::Ignored(command("jj", &["diff", "--stat"], false)));
    assert_eq!(plan.renames, RenamesJob::Nothing);

    let plan = plan_diff(&DiffMode::StagedVsCommit(text("v1")), "jj", &None);
    let args = ["diff", "--from", "v1", "--to", "@", "--tool", "difft"];
    assert_eq!(plan.files, FilesJob::Jj(command("jj", &args, true)));
    assert_eq!(plan.stats, StatsJob::JjBetween(text("v1"), text("@")));
    assert_eq!(
        plan.renames,
        RenamesJob::Jj(command("jj", &["diff", "--from", "v1", "--to", "@", "--summary"], false))
    );
}

#[test]
fn the_merge_base_is_asked_for_where_needed() {
    let wanted = Some(command("git", &["merge-base", "a", "b"], false));
    assert_eq!(range_merge_base_command("a...b"), wanted);
    assert_eq!(range_merge_base_command("a..b"), None);
    assert_eq!(merge_base_command(&DiffMode::Range(text("a...b")), "git"), wanted);
    assert_eq!(merge_base_command(&DiffMode::Range(text("a...b")), "jj"), None);
    assert_eq!(merge_base_command(&DiffMode::Staged, "git"), None);
}

#[test]
fn content_comes_from_both_sides() {
    let show = |program: &str, args: &[&str]| ContentSource::Command(command(program, args, false));
    let tree = |root: CommandLine| ContentSource::WorkingTree { root, path: text("n") };
    let git_root = command("git", &["rev-parse", "--show-toplevel"], false);
    let jj_root = command("jj", &["root"], false);
    let commit = || text("v1");
    let cases = [
        (
            DiffMode::Range(text("a..b")),
            "git",
            show("git", &["show", "a:o"]),
            show("git", &["show", "b:n"]),
        ),
        (
            DiffMode::Range(text("@")),
            "jj",
            show("jj", &["file", "show", "-r", "roots(@)-", "o"]),
            show("jj", &["file", "show", "-r", "heads(@)", "n"]),
        ),
        (DiffMode::Unstaged, "git", show("git", &["show", ":o"]), tree(git_root.clone())),
        (
            DiffMode::Unstaged,
            "jj",
            show("jj", &["file", "show", "-r", "@", "o"]),
            tree(jj_root.clone()),
        ),
        (
            DiffMode::Staged,
            "git",
            show("git", &["show", "HEAD:o"]),
            show("git", &["show", ":n"]),
        ),
        (
            DiffMode::Staged,
            "jj",
            show("jj", &["file", "show", "-r", "@-", "o"]),
            show("jj", &["file", "show", "-r", "@", "n"]),
        ),
        (
            DiffMode::WorkingTree(commit()),
            "git",
            show("git", &["show", "v1:o"]),
            tree(git_root),
        ),
        (
            DiffMode::WorkingTree(commit()),
            "jj",
            show("jj", &["file", "show", "-r", "v1", "o"]),
            tree(jj_root),
        ),
        (
            DiffMode::StagedVsCommit(commit()),
            "git",
            show("git", &["show", "v1:o"]),
            show("git", &["show", ":n"]),
        ),
        (
            DiffMode::StagedVsCommit(commit()),
            "jj",
            show("jj", &["file", "show", "-r", "v1", "o"]),
            show("jj", &["file", "show", "-r", "@", "n"]),
        ),
    ];
    for (mode, vcs, old, new) in cases {
        let fetcher = ContentFetcher::new(&mode, vcs, &None);
        assert_eq!(fetcher.fetch("o", "n"), (old, new), "{mode:?} {vcs}");
    }
}

#[test]
fn jj_counts_lines_by_git() {
    let log = |rev: &str| {
        command("jj", &["log", "-r", rev, "--no-graph", "-T", "commit_id"], false)
    };
    assert_eq!(jj_commit_commands("a..b"), (log("a"), log("b")));
    assert_eq!(jj_commit_commands("@"), (log("roots(@)-"), log("heads(@)")));

    let old = "a".repeat(40);
    let new = "b".repeat(40);
    let old_output = Some(output(Some(0), old.as_bytes(), b""));
    let new_output = Some(output(Some(0), new.as_bytes(), b""));
    let count = |range: &str| Some(command("git", &["diff", "--numstat", range], false));
    assert_eq!(
        jj_diff_stats_command("@", &old_output, &new_output),
        count(&format!("{old}..{new}"))
    );
    assert_eq!(
        jj_diff_stats_command("@", &None, &new_output),
        count(&format!("{new}^..{new}"))
    );
    assert_eq!(jj_diff_stats_command("a..b", &None, &new_output), None);
    assert_eq!(jj_diff_stats_command("@", &old_output, &None), None);

    assert_eq!(jj_between_commands("v1", "@"), (log("v1"), log("@")));
    assert_eq!(
        jj_between_stats_command(&old_output, &new_output),
        count(&format!("{old}..{new}"))
    );
    assert_eq!(jj_between_stats_command(&None, &new_output), None);
    assert_eq!(jj_between_stats_command(&old_output, &None), None);
}
