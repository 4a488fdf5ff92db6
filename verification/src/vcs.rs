//! The command lines of git and jj.

use vstd::prelude::*;

use crate::command::{runs, CommandLine};
use crate::text::{same_text, texts};

verus! {

/// The version control system is git; any other name means jj.
pub open spec fn is_git(vcs: Seq<char>) -> bool {
    vcs == "git"@
}

/// Whether the version control system is git.
pub fn uses_git(vcs: &str) -> (r: bool)
    ensures
        r == is_git(vcs@),
{
    same_text(vcs, "git")
}

/// Prints a file as of a commit.
pub fn git_file_command(commit: &str, path: &str) -> (r: CommandLine)
    ensures
        runs(r, "git"@, seq!["show"@, commit@ + ":"@ + path@], false),
{
    CommandLine::new("git").arg("show").arg(commit.to_owned().concat(":").concat(path).as_str())
}

/// Prints a file as staged.
pub fn git_index_command(path: &str) -> (r: CommandLine)
    ensures
        runs(r, "git"@, seq!["show"@, ":"@ + path@], false),
{
    CommandLine::new("git").arg("show").arg(":".to_owned().concat(path).as_str())
}

/// Prints a file as of a jj revision.
pub fn jj_file_command(revset: &str, path: &str) -> (r: CommandLine)
    ensures
        runs(r, "jj"@, seq!["file"@, "show"@, "-r"@, revset@, path@], false),
{
    CommandLine::new("jj").arg("file").arg("show").arg("-r").arg(revset).arg(path)
}

/// Prints the root directory of the repository.
pub fn root_command(vcs: &str) -> (r: CommandLine)
    ensures
        is_git(vcs@) ==> runs(r, "git"@, seq!["rev-parse"@, "--show-toplevel"@], false),
        !is_git(vcs@) ==> runs(r, "jj"@, seq!["root"@], false),
{
    if uses_git(vcs) {
        CommandLine::new("git").arg("rev-parse").arg("--show-toplevel")
    } else {
        CommandLine::new("jj").arg("root")
    }
}

/// Counts added and deleted lines.
pub fn git_numstat_command(extra_args: &Vec<String>) -> (r: CommandLine)
    ensures
        runs(r, "git"@, seq!["diff"@, "--numstat"@] + texts(extra_args@), false),
{
    CommandLine::new("git").arg("diff").arg("--numstat").args(extra_args)
}

/// Sums up the working copy; the lines that it prints are not counted.
pub fn jj_stat_command() -> (r: CommandLine)
    ensures
        runs(r, "jj"@, seq!["diff"@, "--stat"@], false),
{
    CommandLine::new("jj").arg("diff").arg("--stat")
}

/// Prints the git commit that a revset stands for.
pub fn jj_commit_id_command(revset: &str) -> (r: CommandLine)
    ensures
        runs(
            r,
            "jj"@,
            seq!["log"@, "-r"@, revset@, "--no-graph"@, "-T"@, "commit_id"@],
            false,
        ),
{
    CommandLine::new("jj").arg("log").arg("-r").arg(revset).arg("--no-graph").arg("-T").arg(
        "commit_id",
    )
}

/// Compares files by difftastic through jj.
pub fn jj_diff_command(extra_args: &Vec<String>) -> (r: CommandLine)
    ensures
        runs(
            r,
            "jj"@,
            seq!["diff"@] + texts(extra_args@) + seq!["--tool"@, "difft"@],
            true,
        ),
{
    CommandLine::new("jj").arg("diff").args(extra_args).arg("--tool").arg(
        "difft",
    ).with_json_output()
}

/// Lists the changes of a jj diff, renames among them.
pub fn jj_renames_command(extra_args: &Vec<String>) -> (r: CommandLine)
    ensures
        runs(r, "jj"@, seq!["diff"@] + texts(extra_args@) + seq!["--summary"@], false),
{
    CommandLine::new("jj").arg("diff").args(extra_args).arg("--summary")
}

/// Compares two files by difftastic.
pub fn difft_command(old: &str, new: &str) -> (r: CommandLine)
    ensures
        runs(r, "difft"@, seq![old@, new@], true),
{
    CommandLine::new("difft").arg(old).arg(new).with_json_output()
}

/// Compares files by difftastic, one after the other.
pub fn git_diff_command(extra_args: &Vec<String>) -> (r: CommandLine)
    ensures
        runs(
            r,
            "git"@,
            seq!["-c"@, "diff.external=difft"@, "diff"@] + texts(extra_args@),
            true,
        ),
{
    CommandLine::new("git").arg("-c").arg("diff.external=difft").arg("diff").args(
        extra_args,
    ).with_json_output()
}

/// Lists the files that changed.
pub fn git_name_status_command(extra_args: &Vec<String>) -> (r: CommandLine)
    ensures
        runs(r, "git"@, seq!["diff"@, "--name-status"@] + texts(extra_args@), false),
{
    CommandLine::new("git").arg("diff").arg("--name-status").args(extra_args)
}

/// Lists the files that changed, with renames found.
pub fn git_renames_command(extra_args: &Vec<String>) -> (r: CommandLine)
    ensures
        runs(r, "git"@, seq!["diff"@, "--name-status"@, "-M"@] + texts(extra_args@), false),
{
    CommandLine::new("git").arg("diff").arg("--name-status").arg("-M").args(extra_args)
}

/// Prints the merge base of two revisions.
pub fn git_merge_base_command(a: &str, b: &str) -> (r: CommandLine)
    ensures
        runs(r, "git"@, seq!["merge-base"@, a@, b@], false),
{
    CommandLine::new("git").arg("merge-base").arg(a).arg(b)
}

/// Lists the files that git does not track and does not ignore, in the whole
/// repository.
pub fn git_untracked_command() -> (r: CommandLine)
    ensures
        runs(
            r,
            "git"@,
            seq!["ls-files"@, "--others"@, "--exclude-standard"@, "--full-name"@, ":/"@],
            false,
        ),
{
    CommandLine::new("git").arg("ls-files").arg("--others").arg("--exclude-standard").arg(
        "--full-name",
    ).arg(":/")
}

} // verus!
