//! What is run for a diff, and where the content of its files comes from.

use vstd::prelude::*;

use crate::command::{lossy_text, printed, runs, CommandLine, CommandOutput};
use crate::range::{
    git_refs, jj_commit_range, jj_refs, jj_revisions, jj_stats_range, jj_to_git_commit,
    merge_base_operands, merge_base_sides, only_commit_id, parse_git_range,
};
use crate::text::{law_split_at_the_first_pattern, lemma_texts_push, text_option, texts};
use crate::vcs::{
    git_diff_command, git_file_command, git_index_command, git_merge_base_command,
    git_numstat_command, git_renames_command, is_git, jj_commit_id_command, jj_diff_command,
    jj_file_command, jj_renames_command, jj_stat_command, root_command, uses_git,
};

verus! {

/// The type of diff to perform.
#[derive(Clone, Debug, PartialEq, Eq)]
pub enum DiffMode {
    /// A commit range, such as `HEAD^..HEAD` for git or `@` for jj.
    Range(String),
    /// Working tree against index (git), or working copy against `@` (jj).
    Unstaged,
    /// Index against `HEAD` (git), or `@-` against `@` (jj).
    Staged,
    /// Working tree (git) or working copy (jj) against a commit.
    WorkingTree(String),
    /// Index (git) or `@` (jj) against a commit.
    StagedVsCommit(String),
}

/// How the files are compared.
#[derive(Clone, Debug, PartialEq, Eq)]
pub enum FilesJob {
    /// By git, each file between two revisions by itself.
    GitParallel { extra_args: Vec<String>, old_ref: String, new_ref: String },
    /// By git, in one command.
    Git(CommandLine),
    /// By jj, in one command.
    Jj(CommandLine),
}

/// How lines are counted.
#[derive(Clone, Debug, PartialEq, Eq)]
pub enum StatsJob {
    /// By git.
    Git(CommandLine),
    /// By git, for the commits that a jj revset stands for.
    JjRevset(String),
    /// By git, between the commits that two jj revisions stand for.
    JjBetween(String, String),
    /// Not at all; the command is run and what it prints is not read.
    Ignored(CommandLine),
}

/// How renames are found.
#[derive(Clone, Debug, PartialEq, Eq)]
pub enum RenamesJob {
    /// By git.
    Git(CommandLine),
    /// By jj.
    Jj(CommandLine),
    /// Not at all.
    Nothing,
}

/// The three jobs of a diff. None of them needs what another gives.
#[derive(Clone, Debug, PartialEq, Eq)]
pub struct DiffPlan {
    pub files: FilesJob,
    pub stats: StatsJob,
    pub renames: RenamesJob,
}

/// What `git diff` is told to compare.
pub open spec fn git_args(mode: DiffMode, merge_base: Option<Seq<char>>) -> Seq<Seq<char>> {
    match mode {
        DiffMode::Range(range) => seq![
            git_refs(range@, merge_base).0 + ".."@ + git_refs(range@, merge_base).1,
        ],
        DiffMode::Unstaged => Seq::empty(),
        DiffMode::Staged => seq!["--cached"@],
        DiffMode::WorkingTree(commit) => seq![commit@],
        DiffMode::StagedVsCommit(commit) => seq!["--cached"@, commit@],
    }
}

/// What `jj diff` is told to compare: a revset with what comes before it, or a commit
/// with the working copy, which for jj is `@`.
pub open spec fn jj_compared_args(mode: DiffMode) -> Seq<Seq<char>> {
    match mode {
        DiffMode::Range(revset) => seq!["-r"@, revset@],
        DiffMode::Unstaged => Seq::empty(),
        DiffMode::Staged => seq!["-r"@, "@"@],
        DiffMode::WorkingTree(commit) => seq!["--from"@, commit@],
        DiffMode::StagedVsCommit(commit) => seq!["--from"@, commit@, "--to"@, "@"@],
    }
}

/// The plan is the one for git.
pub open spec fn is_git_plan(
    plan: DiffPlan,
    mode: DiffMode,
    merge_base: Option<Seq<char>>,
) -> bool {
    let args = git_args(mode, merge_base);
    &&& match (plan.files, mode) {
        (FilesJob::GitParallel { extra_args, old_ref, new_ref }, DiffMode::Range(range)) => {
            &&& texts(extra_args@) == args
            &&& (old_ref@, new_ref@) == git_refs(range@, merge_base)
        },
        (FilesJob::Git(command), DiffMode::Range(_)) => false,
        (FilesJob::Git(command), _) => runs(
            command,
            "git"@,
            seq!["-c"@, "diff.external=difft"@, "diff"@] + args,
            true,
        ),
        _ => false,
    }
    &&& plan.stats matches StatsJob::Git(command) && runs(
        command,
        "git"@,
        seq!["diff"@, "--numstat"@] + args,
        false,
    )
    &&& plan.renames matches RenamesJob::Git(command) && runs(
        command,
        "git"@,
        seq!["diff"@, "--name-status"@, "-M"@] + args,
        false,
    )
}

/// The plan is the one for jj. In the working copy no lines are counted and no renames
/// looked for.
pub open spec fn is_jj_plan(plan: DiffPlan, mode: DiffMode) -> bool {
    let args = jj_compared_args(mode);
    &&& plan.files matches FilesJob::Jj(command) && runs(
        command,
        "jj"@,
        seq!["diff"@] + args + seq!["--tool"@, "difft"@],
        true,
    )
    &&& match mode {
        DiffMode::Range(revset) => plan.stats matches StatsJob::JjRevset(counted) && counted@
            == revset@,
        DiffMode::Staged => plan.stats matches StatsJob::JjRevset(counted) && counted@ == "@"@,
        DiffMode::StagedVsCommit(commit) => plan.stats matches StatsJob::JjBetween(a, b) && a@
            == commit@ && b@ == "@"@,
        DiffMode::Unstaged | DiffMode::WorkingTree(_) => plan.stats matches StatsJob::Ignored(
            command,
        ) && runs(command, "jj"@, seq!["diff"@, "--stat"@], false),
    }
    &&& match mode {
        DiffMode::Unstaged | DiffMode::WorkingTree(_) => plan.renames is Nothing,
        _ => plan.renames matches RenamesJob::Jj(command) && runs(
            command,
            "jj"@,
            seq!["diff"@] + args + seq!["--summary"@],
            false,
        ),
    }
}

/// The command that prints the merge base which a git range starts from, if it starts
/// from one.
pub fn range_merge_base_command(range: &str) -> (r: Option<CommandLine>)
    ensures
        match (r, merge_base_sides(range@)) {
            (Some(command), Some((a, b))) => runs(
                command,
                "git"@,
                seq!["merge-base"@, a, b],
                false,
            ),
            (None, None) => true,
            _ => false,
        },
{
    match merge_base_operands(range) {
        Some((a, b)) => Some(git_merge_base_command(a.as_str(), b.as_str())),
        None => None,
    }
}

/// The two revisions whose merge base a diff needs: those of a git range, if it starts
/// from one.
pub open spec fn needed_merge_base(mode: DiffMode, git: bool) -> Option<(Seq<char>, Seq<char>)> {
    match mode {
        DiffMode::Range(range) => if git {
            merge_base_sides(range@)
        } else {
            None
        },
        _ => None,
    }
}

/// The command that prints the merge base which a diff needs, if it needs one.
pub fn merge_base_command(mode: &DiffMode, vcs: &str) -> (r: Option<CommandLine>)
    ensures
        match (r, needed_merge_base(*mode, is_git(vcs@))) {
            (Some(command), Some((a, b))) => runs(
                command,
                "git"@,
                seq!["merge-base"@, a, b],
                false,
            ),
            (None, None) => true,
            _ => false,
        },
{
    match mode {
        DiffMode::Range(range) => if uses_git(vcs) {
            range_merge_base_command(range.as_str())
        } else {
            None
        },
        _ => None,
    }
}

/// Builds the arguments that `git diff` gets.
pub fn git_extra_args(mode: &DiffMode, merge_base: &Option<String>) -> (r: Vec<String>)
    ensures
        texts(r@) == git_args(*mode, text_option(*merge_base)),
{
    broadcast use lemma_texts_push;

    let mut args: Vec<String> = Vec::new();
    proof {
        assert(texts(args@) =~= Seq::<Seq<char>>::empty());
    }
    match mode {
        DiffMode::Range(range) => {
            let (old_ref, new_ref) = parse_git_range(range.as_str(), merge_base.clone());
            args.push(old_ref.concat("..").concat(new_ref.as_str()));
        },
        DiffMode::Unstaged => {},
        DiffMode::Staged => {
            args.push("--cached".to_owned());
        },
        DiffMode::WorkingTree(commit) => {
            args.push(commit.clone());
        },
        DiffMode::StagedVsCommit(commit) => {
            args.push("--cached".to_owned());
            args.push(commit.clone());
        },
    }
    args
}

/// Builds the arguments by which `jj diff` is told what to compare.
pub fn jj_extra_args(mode: &DiffMode) -> (r: Vec<String>)
    ensures
        texts(r@) == jj_compared_args(*mode),
{
    broadcast use lemma_texts_push;

    let mut args: Vec<String> = Vec::new();
    proof {
        assert(texts(args@) =~= Seq::<Seq<char>>::empty());
    }
    match mode {
        DiffMode::Range(revset) => {
            args.push("-r".to_owned());
            args.push(revset.clone());
        },
        DiffMode::Unstaged => {},
        DiffMode::Staged => {
            args.push("-r".to_owned());
            args.push("@".to_owned());
        },
        DiffMode::WorkingTree(commit) => {
            args.push("--from".to_owned());
            args.push(commit.clone());
        },
        DiffMode::StagedVsCommit(commit) => {
            args.push("--from".to_owned());
            args.push(commit.clone());
            args.push("--to".to_owned());
            args.push("@".to_owned());
        },
    }
    args
}

/// Plans a diff. A commit range of git is compared file by file; everything else in one
/// command.
pub fn plan_diff(mode: &DiffMode, vcs: &str, merge_base: &Option<String>) -> (r: DiffPlan)
    ensures
        is_git(vcs@) ==> is_git_plan(r, *mode, text_option(*merge_base)),
        !is_git(vcs@) ==> is_jj_plan(r, *mode),
{
    if uses_git(vcs) {
        let args = git_extra_args(mode, merge_base);
        let stats = StatsJob::Git(git_numstat_command(&args));
        let renames = RenamesJob::Git(git_renames_command(&args));
        let files = match mode {
            DiffMode::Range(range) => {
                let (old_ref, new_ref) = parse_git_range(range.as_str(), merge_base.clone());
                FilesJob::GitParallel { extra_args: args, old_ref, new_ref }
            },
            _ => FilesJob::Git(git_diff_command(&args)),
        };
        DiffPlan { files, stats, renames }
    } else {
        let args = jj_extra_args(mode);
        let files = FilesJob::Jj(jj_diff_command(&args));
        let stats = match mode {
            DiffMode::Range(revset) => StatsJob::JjRevset(revset.clone()),
            DiffMode::Staged => StatsJob::JjRevset("@".to_owned()),
            DiffMode::StagedVsCommit(commit) => StatsJob::JjBetween(commit.clone(), "@".to_owned()),
            DiffMode::Unstaged | DiffMode::WorkingTree(_) => StatsJob::Ignored(jj_stat_command()),
        };
        let renames = match mode {
            DiffMode::Unstaged | DiffMode::WorkingTree(_) => RenamesJob::Nothing,
            _ => RenamesJob::Jj(jj_renames_command(&args)),
        };
        DiffPlan { files, stats, renames }
    }
}

/// The commands that print the commits which the old and the new revision of a revset
/// stand for.
pub fn jj_commit_commands(revset: &str) -> (r: (CommandLine, CommandLine))
    ensures
        runs(
            r.0,
            "jj"@,
            seq!["log"@, "-r"@, jj_refs(revset@).0, "--no-graph"@, "-T"@, "commit_id"@],
            false,
        ),
        runs(
            r.1,
            "jj"@,
            seq!["log"@, "-r"@, jj_refs(revset@).1, "--no-graph"@, "-T"@, "commit_id"@],
            false,
        ),
{
    let (old_rev, new_rev) = jj_revisions(revset);
    (jj_commit_id_command(old_rev.as_str()), jj_commit_id_command(new_rev.as_str()))
}

/// The commit in what a command printed, if it succeeded.
pub open spec fn printed_commit(output: Option<CommandOutput>) -> Option<Seq<char>> {
    match printed(output) {
        Some(text) => only_commit_id(text),
        None => None,
    }
}

/// The command that counts lines for a jj revset, from what the commands that print its
/// commits gave. There is none where the commits are not known.
pub fn jj_diff_stats_command(
    revset: &str,
    old_output: &Option<CommandOutput>,
    new_output: &Option<CommandOutput>,
) -> (r: Option<CommandLine>)
    ensures
        match (
            r,
            jj_commit_range(revset@, printed_commit(*old_output), printed_commit(*new_output)),
        ) {
            (Some(command), Some(range)) => runs(
                command,
                "git"@,
                seq!["diff"@, "--numstat"@, range],
                false,
            ),
            (None, None) => true,
            _ => false,
        },
{
    broadcast use lemma_texts_push;

    let old_commit = jj_to_git_commit(old_output);
    let new_commit = jj_to_git_commit(new_output);
    match jj_stats_range(revset, old_commit, new_commit) {
        Some(range) => {
            let mut args: Vec<String> = Vec::new();
            proof {
                assert(texts(args@) =~= Seq::<Seq<char>>::empty());
            }
            args.push(range);
            Some(git_numstat_command(&args))
        },
        None => None,
    }
}

/// The commands that print the commits which two jj revisions stand for.
pub fn jj_between_commands(old_rev: &str, new_rev: &str) -> (r: (CommandLine, CommandLine))
    ensures
        runs(
            r.0,
            "jj"@,
            seq!["log"@, "-r"@, old_rev@, "--no-graph"@, "-T"@, "commit_id"@],
            false,
        ),
        runs(
            r.1,
            "jj"@,
            seq!["log"@, "-r"@, new_rev@, "--no-graph"@, "-T"@, "commit_id"@],
            false,
        ),
{
    (jj_commit_id_command(old_rev), jj_commit_id_command(new_rev))
}

/// The command that counts lines between two jj revisions, from what the commands that
/// print their commits gave. There is none where a commit is not known.
pub fn jj_between_stats_command(
    old_output: &Option<CommandOutput>,
    new_output: &Option<CommandOutput>,
) -> (r: Option<CommandLine>)
    ensures
        match (r, printed_commit(*old_output), printed_commit(*new_output)) {
            (Some(command), Some(a), Some(b)) => runs(
                command,
                "git"@,
                seq!["diff"@, "--numstat"@, a + ".."@ + b],
                false,
            ),
            (Some(_), _, _) => false,
            (None, a, b) => a is None || b is None,
        },
{
    broadcast use lemma_texts_push;

    match (jj_to_git_commit(old_output), jj_to_git_commit(new_output)) {
        (Some(a), Some(b)) => {
            let mut args: Vec<String> = Vec::new();
            proof {
                assert(texts(args@) =~= Seq::<Seq<char>>::empty());
            }
            args.push(a.concat("..").concat(b.as_str()));
            Some(git_numstat_command(&args))
        },
        _ => None,
    }
}

/// Strategy for fetching old and new file content.
#[derive(Clone, Debug, PartialEq, Eq)]
pub enum ContentFetcher {
    GitRange(String, String),
    JjRange(String, String),
    GitUnstaged,
    JjUnstaged,
    GitStaged,
    JjStaged,
    GitWorkingTree(String),
    JjWorkingTree(String),
    GitStagedVsCommit(String),
}

/// Where the content of a file is read from.
#[derive(Clone, Debug, PartialEq, Eq)]
pub enum ContentSource {
    /// What a command prints, if it succeeds.
    Command(CommandLine),
    /// A file below the directory that a command prints.
    WorkingTree { root: CommandLine, path: String },
}

/// The content is what the command prints.
pub open spec fn reads(source: ContentSource, program: Seq<char>, args: Seq<Seq<char>>) -> bool {
    source matches ContentSource::Command(command) && runs(command, program, args, false)
}

/// The content is a file of git's working tree.
pub open spec fn reads_git_tree(source: ContentSource, path: Seq<char>) -> bool {
    source matches ContentSource::WorkingTree { root, path: p } && p@ == path && runs(
        root,
        "git"@,
        seq!["rev-parse"@, "--show-toplevel"@],
        false,
    )
}

/// The content is a file of jj's working copy.
pub open spec fn reads_jj_tree(source: ContentSource, path: Seq<char>) -> bool {
    source matches ContentSource::WorkingTree { root, path: p } && p@ == path && runs(
        root,
        "jj"@,
        seq!["root"@],
        false,
    )
}

/// The content is a file as of a git commit.
pub open spec fn reads_git_commit(
    source: ContentSource,
    commit: Seq<char>,
    path: Seq<char>,
) -> bool {
    reads(source, "git"@, seq!["show"@, commit + ":"@ + path])
}

/// The content is a file as staged.
pub open spec fn reads_git_index(source: ContentSource, path: Seq<char>) -> bool {
    reads(source, "git"@, seq!["show"@, ":"@ + path])
}

/// The content is a file as of a jj revision.
pub open spec fn reads_jj_revision(
    source: ContentSource,
    revset: Seq<char>,
    path: Seq<char>,
) -> bool {
    reads(source, "jj"@, seq!["file"@, "show"@, "-r"@, revset, path])
}

/// The fetcher is the one for the mode.
pub open spec fn fetches(
    fetcher: ContentFetcher,
    mode: DiffMode,
    git: bool,
    merge_base: Option<Seq<char>>,
) -> bool {
    match mode {
        DiffMode::Range(range) => if git {
            fetcher matches ContentFetcher::GitRange(a, b) && (a@, b@) == git_refs(
                range@,
                merge_base,
            )
        } else {
            fetcher matches ContentFetcher::JjRange(a, b) && (a@, b@) == jj_refs(range@)
        },
        DiffMode::Unstaged => if git {
            fetcher is GitUnstaged
        } else {
            fetcher is JjUnstaged
        },
        DiffMode::Staged => if git {
            fetcher is GitStaged
        } else {
            fetcher is JjStaged
        },
        DiffMode::WorkingTree(commit) => if git {
            fetcher matches ContentFetcher::GitWorkingTree(c) && c@ == commit@
        } else {
            fetcher matches ContentFetcher::JjWorkingTree(c) && c@ == commit@
        },
        DiffMode::StagedVsCommit(commit) => if git {
            fetcher matches ContentFetcher::GitStagedVsCommit(c) && c@ == commit@
        } else {
            fetcher matches ContentFetcher::JjRange(a, b) && a@ == commit@ && b@ == "@"@
        },
    }
}

/// The two sources are those of the old and the new content.
pub open spec fn fetched_from(
    fetcher: ContentFetcher,
    old_path: Seq<char>,
    new_path: Seq<char>,
    sources: (ContentSource, ContentSource),
) -> bool {
    match fetcher {
        ContentFetcher::GitRange(old_ref, new_ref) => reads_git_commit(
            sources.0,
            old_ref@,
            old_path,
        ) && reads_git_commit(sources.1, new_ref@, new_path),
        ContentFetcher::JjRange(old_ref, new_ref) => reads_jj_revision(
            sources.0,
            old_ref@,
            old_path,
        ) && reads_jj_revision(sources.1, new_ref@, new_path),
        ContentFetcher::GitUnstaged => reads_git_index(sources.0, old_path) && reads_git_tree(
            sources.1,
            new_path,
        ),
        ContentFetcher::JjUnstaged => reads_jj_revision(sources.0, "@"@, old_path)
            && reads_jj_tree(sources.1, new_path),
        ContentFetcher::GitStaged => reads_git_commit(sources.0, "HEAD"@, old_path)
            && reads_git_index(sources.1, new_path),
        ContentFetcher::JjStaged => reads_jj_revision(sources.0, "@-"@, old_path)
            && reads_jj_revision(sources.1, "@"@, new_path),
        ContentFetcher::GitWorkingTree(commit) => reads_git_commit(sources.0, commit@, old_path)
            && reads_git_tree(sources.1, new_path),
        ContentFetcher::JjWorkingTree(commit) => reads_jj_revision(sources.0, commit@, old_path)
            && reads_jj_tree(sources.1, new_path),
        ContentFetcher::GitStagedVsCommit(commit) => reads_git_commit(
            sources.0,
            commit@,
            old_path,
        ) && reads_git_index(sources.1, new_path),
    }
}

/// A file as of a git commit.
fn git_file(commit: &str, path: &str) -> (r: ContentSource)
    ensures
        reads_git_commit(r, commit@, path@),
{
    ContentSource::Command(git_file_command(commit, path))
}

/// A file as staged.
fn git_index(path: &str) -> (r: ContentSource)
    ensures
        reads_git_index(r, path@),
{
    ContentSource::Command(git_index_command(path))
}

/// A file as of a jj revision.
fn jj_file(revset: &str, path: &str) -> (r: ContentSource)
    ensures
        reads_jj_revision(r, revset@, path@),
{
    ContentSource::Command(jj_file_command(revset, path))
}

/// A file of the working tree.
fn working_tree(vcs: &str, path: &str) -> (r: ContentSource)
    ensures
        is_git(vcs@) ==> reads_git_tree(r, path@),
        !is_git(vcs@) ==> reads_jj_tree(r, path@),
{
    ContentSource::WorkingTree { root: root_command(vcs), path: path.to_owned() }
}

impl ContentFetcher {
    /// The fetcher for a mode and a version control system.
    pub fn new(mode: &DiffMode, vcs: &str, merge_base: &Option<String>) -> (r: Self)
        ensures
            fetches(r, *mode, is_git(vcs@), text_option(*merge_base)),
    {
        let git = uses_git(vcs);
        match mode {
            DiffMode::Range(range) => if git {
                let (old_ref, new_ref) = parse_git_range(range.as_str(), merge_base.clone());
                ContentFetcher::GitRange(old_ref, new_ref)
            } else {
                let (old_ref, new_ref) = jj_revisions(range.as_str());
                ContentFetcher::JjRange(old_ref, new_ref)
            },
            DiffMode::Unstaged => if git {
                ContentFetcher::GitUnstaged
            } else {
                ContentFetcher::JjUnstaged
            },
            DiffMode::Staged => if git {
                ContentFetcher::GitStaged
            } else {
                ContentFetcher::JjStaged
            },
            DiffMode::WorkingTree(commit) => if git {
                ContentFetcher::GitWorkingTree(commit.clone())
            } else {
                ContentFetcher::JjWorkingTree(commit.clone())
            },
            DiffMode::StagedVsCommit(commit) => if git {
                ContentFetcher::GitStagedVsCommit(commit.clone())
            } else {
                ContentFetcher::JjRange(commit.clone(), "@".to_owned())
            },
        }
    }

    /// Where the old and the new content of a file come from.
    pub fn fetch(&self, old_path: &str, new_path: &str) -> (r: (ContentSource, ContentSource))
        ensures
            fetched_from(*self, old_path@, new_path@, r),
    {
        proof {
            reveal_strlit("git");
            reveal_strlit("jj");
            assert("jj"@.len() != "git"@.len());
        }
        match self {
            ContentFetcher::GitRange(old_ref, new_ref) => (
                git_file(old_ref.as_str(), old_path),
                git_file(new_ref.as_str(), new_path),
            ),
            ContentFetcher::JjRange(old_ref, new_ref) => (
                jj_file(old_ref.as_str(), old_path),
                jj_file(new_ref.as_str(), new_path),
            ),
            ContentFetcher::GitUnstaged => (git_index(old_path), working_tree("git", new_path)),
            ContentFetcher::JjUnstaged => (jj_file("@", old_path), working_tree("jj", new_path)),
            ContentFetcher::GitStaged => (git_file("HEAD", old_path), git_index(new_path)),
            ContentFetcher::JjStaged => (jj_file("@-", old_path), jj_file("@", new_path)),
            ContentFetcher::GitWorkingTree(commit) => (
                git_file(commit.as_str(), old_path),
                working_tree("git", new_path),
            ),
            ContentFetcher::JjWorkingTree(commit) => (
                jj_file(commit.as_str(), old_path),
                working_tree("jj", new_path),
            ),
            ContentFetcher::GitStagedVsCommit(commit) => (
                git_file(commit.as_str(), old_path),
                git_index(new_path),
            ),
        }
    }
}

/// The content is that of the two sides which git compares when told so.
pub open spec fn is_git_content(fetcher: ContentFetcher, args: Seq<Seq<char>>) -> bool {
    match fetcher {
        ContentFetcher::GitUnstaged => args == Seq::<Seq<char>>::empty(),
        ContentFetcher::GitStaged => args == seq!["--cached"@],
        ContentFetcher::GitWorkingTree(commit) => args == seq![commit@],
        ContentFetcher::GitStagedVsCommit(commit) => args == seq!["--cached"@, commit@],
        _ => false,
    }
}

/// The content is that of the two sides which jj compares when told so.
pub open spec fn is_jj_content(fetcher: ContentFetcher, args: Seq<Seq<char>>) -> bool {
    match fetcher {
        ContentFetcher::JjUnstaged => args == Seq::<Seq<char>>::empty(),
        ContentFetcher::JjStaged => args == seq!["-r"@, "@"@],
        ContentFetcher::JjWorkingTree(commit) => args == seq!["--from"@, commit@],
        ContentFetcher::JjRange(old_rev, new_rev) => {
            ||| args.len() == 2 && args[0] == "-r"@ && (old_rev@, new_rev@) == jj_refs(args[1])
            ||| args == seq!["--from"@, old_rev@, "--to"@, new_rev@]
        },
        _ => false,
    }
}

/// A diff is compared file by file exactly where git compares a commit range. The
/// content that is shown comes from the two sides that were compared, whatever the mode
/// and the system.
pub proof fn law_content_comes_from_what_was_compared(
    plan: DiffPlan,
    fetcher: ContentFetcher,
    mode: DiffMode,
    vcs: Seq<char>,
    merge_base: Option<Seq<char>>,
)
    requires
        is_git(vcs) ==> is_git_plan(plan, mode, merge_base),
        !is_git(vcs) ==> is_jj_plan(plan, mode),
        fetches(fetcher, mode, is_git(vcs), merge_base),
    ensures
        plan.files is GitParallel <==> is_git(vcs) && mode is Range,
        match plan.files {
            FilesJob::GitParallel { old_ref, new_ref, .. } => fetcher matches
                ContentFetcher::GitRange(a, b) && a@ == old_ref@ && b@ == new_ref@,
            FilesJob::Git(command) => exists|args: Seq<Seq<char>>| #[trigger]
                is_git_content(fetcher, args) && runs(
                    command,
                    "git"@,
                    seq!["-c"@, "diff.external=difft"@, "diff"@] + args,
                    true,
                ),
            FilesJob::Jj(command) => exists|args: Seq<Seq<char>>| #[trigger]
                is_jj_content(fetcher, args) && runs(
                    command,
                    "jj"@,
                    seq!["diff"@] + args + seq!["--tool"@, "difft"@],
                    true,
                ),
        },
{
    if is_git(vcs) {
        if !(mode is Range) {
            assert(is_git_content(fetcher, git_args(mode, merge_base)));
        }
    } else {
        assert(is_jj_content(fetcher, jj_compared_args(mode)));
    }
}

/// The commit that a mode compares against, if it names one.
pub open spec fn compared_commit(mode: DiffMode) -> Option<Seq<char>> {
    match mode {
        DiffMode::WorkingTree(commit) | DiffMode::StagedVsCommit(commit) => Some(commit@),
        _ => None,
    }
}

/// A diff against a commit is taken from that commit, and the old content of its files
/// is their content in it, by git and by jj.
pub proof fn law_commit_is_what_is_compared_against(
    plan: DiffPlan,
    fetcher: ContentFetcher,
    mode: DiffMode,
    vcs: Seq<char>,
    merge_base: Option<Seq<char>>,
    commit: Seq<char>,
    old_path: Seq<char>,
    new_path: Seq<char>,
    sources: (ContentSource, ContentSource),
)
    requires
        compared_commit(mode) == Some(commit),
        is_git(vcs) ==> is_git_plan(plan, mode, merge_base),
        !is_git(vcs) ==> is_jj_plan(plan, mode),
        fetches(fetcher, mode, is_git(vcs), merge_base),
        fetched_from(fetcher, old_path, new_path, sources),
    ensures
        match plan.files {
            FilesJob::GitParallel { .. } => false,
            FilesJob::Git(command) => {
                &&& is_git(vcs)
                &&& texts(command.args@).last() == commit
                &&& reads_git_commit(sources.0, commit, old_path)
            },
            FilesJob::Jj(command) => {
                &&& !is_git(vcs)
                &&& texts(command.args@)[1] == "--from"@
                &&& texts(command.args@)[2] == commit
                &&& reads_jj_revision(sources.0, commit, old_path)
            },
        },
{
}

/// For one mode git is told to compare, to count and to find renames in the same
/// things.
pub proof fn law_git_jobs_agree(plan: DiffPlan, mode: DiffMode, merge_base: Option<Seq<char>>)
    requires
        is_git_plan(plan, mode, merge_base),
    ensures
        plan.stats matches StatsJob::Git(counting) && plan.renames matches RenamesJob::Git(
            renaming,
        ) && {
            &&& texts(counting.args@).skip(2) == git_args(mode, merge_base)
            &&& texts(renaming.args@).skip(3) == git_args(mode, merge_base)
            &&& plan.files matches FilesJob::GitParallel { extra_args, .. } ==> texts(extra_args@)
                == git_args(mode, merge_base)
            &&& plan.files matches FilesJob::Git(comparing) ==> texts(comparing.args@).skip(3)
                == git_args(mode, merge_base)
        },
{
    let args = git_args(mode, merge_base);
    assert((seq!["diff"@, "--numstat"@] + args).skip(2) =~= args);
    assert((seq!["diff"@, "--name-status"@, "-M"@] + args).skip(3) =~= args);
    assert((seq!["-c"@, "diff.external=difft"@, "diff"@] + args).skip(3) =~= args);
}

/// Where a diff needs no merge base, the plan is the same whatever merge base is given.
pub proof fn law_merge_base_counts_only_where_needed(
    plan: DiffPlan,
    mode: DiffMode,
    one: Option<Seq<char>>,
    other: Option<Seq<char>>,
)
    requires
        needed_merge_base(mode, true) is None,
    ensures
        is_git_plan(plan, mode, one) <==> is_git_plan(plan, mode, other),
{
}

/// The command runs the program with exactly these arguments in front, and then those
/// behind them.
pub open spec fn has_args(
    command: CommandLine,
    program: Seq<char>,
    front: Seq<Seq<char>>,
    behind: Seq<Seq<char>>,
) -> bool {
    &&& command.program@ == program
    &&& command.args@.len() == front.len() + behind.len()
    &&& forall|i: int| 0 <= i < front.len() ==> (#[trigger] command.args@[i])@ == front[i]
    &&& forall|i: int|
        0 <= i < behind.len() ==> command.args@[front.len() + i]@ == #[trigger] behind[i]
}

proof fn lemma_has_args(
    command: CommandLine,
    program: Seq<char>,
    front: Seq<Seq<char>>,
    behind: Seq<Seq<char>>,
    json_output: bool,
)
    requires
        runs(command, program, front + behind, json_output),
    ensures
        has_args(command, program, front, behind),
        command.json_output == json_output,
{
    let args = texts(command.args@);
    assert(args.len() == command.args@.len());
    assert forall|i: int| 0 <= i < front.len() implies (#[trigger] command.args@[i])@
        == front[i] by {
        assert(args[i] == command.args@[i]@);
        assert((front + behind)[i] == front[i]);
    }
    assert forall|i: int| 0 <= i < behind.len() implies command.args@[front.len() + i]@
        == #[trigger] behind[i] by {
        assert(args[front.len() + i] == command.args@[front.len() + i]@);
        assert((front + behind)[front.len() + i] == behind[i]);
    }
}

/// For a commit range git is told `old..new`, with the same two revisions in that order
/// that the content of the files is fetched from, and so in all three jobs.
pub proof fn law_range_runs_from_old_to_new(
    plan: DiffPlan,
    fetcher: ContentFetcher,
    mode: DiffMode,
    merge_base: Option<Seq<char>>,
)
    requires
        mode is Range,
        is_git_plan(plan, mode, merge_base),
        fetches(fetcher, mode, true, merge_base),
    ensures
        plan.files matches FilesJob::GitParallel { extra_args, old_ref, new_ref } && {
            let told = old_ref@ + ".."@ + new_ref@;
            &&& extra_args@.len() == 1 && extra_args@[0]@ == told
            &&& fetcher matches ContentFetcher::GitRange(a, b) && a@ == old_ref@ && b@ == new_ref@
            &&& (old_ref@, new_ref@) == git_refs(mode->Range_0@, merge_base)
            &&& plan.stats matches StatsJob::Git(command) && has_args(
                command,
                "git"@,
                seq!["diff"@, "--numstat"@],
                seq![told],
            )
            &&& plan.renames matches RenamesJob::Git(command) && has_args(
                command,
                "git"@,
                seq!["diff"@, "--name-status"@, "-M"@],
                seq![told],
            )
        },
        !plan.stats->Git_0.json_output,
        !plan.renames->Git_0.json_output,
{
    let told = git_refs(mode->Range_0@, merge_base).0 + ".."@ + git_refs(
        mode->Range_0@,
        merge_base,
    ).1;
    lemma_has_args(
        plan.stats->Git_0,
        "git"@,
        seq!["diff"@, "--numstat"@],
        seq![told],
        false,
    );
    lemma_has_args(
        plan.renames->Git_0,
        "git"@,
        seq!["diff"@, "--name-status"@, "-M"@],
        seq![told],
        false,
    );
    let args = plan.files->extra_args@;
    assert(texts(args).len() == args.len());
    assert(texts(args)[0] == args[0]@);
}

/// What git is told besides for a mode other than a range: the index, where that is
/// compared, and behind it the commit, where one is compared against.
pub open spec fn tells_git(behind: Seq<Seq<char>>, mode: DiffMode) -> bool {
    match mode {
        DiffMode::Range(_) => false,
        DiffMode::Unstaged => behind.len() == 0,
        DiffMode::Staged => behind.len() == 1 && behind[0] == "--cached"@,
        DiffMode::WorkingTree(commit) => behind.len() == 1 && behind[0] == commit@,
        DiffMode::StagedVsCommit(commit) => behind.len() == 2 && behind[0] == "--cached"@
            && behind[1] == commit@,
    }
}

/// Git compares the index exactly in the staged modes, and against a commit exactly
/// where the mode names one. All three jobs are told the same.
pub proof fn law_git_compares_what_the_mode_names(
    plan: DiffPlan,
    mode: DiffMode,
    merge_base: Option<Seq<char>>,
)
    requires
        !(mode is Range),
        is_git_plan(plan, mode, merge_base),
    ensures
        exists|behind: Seq<Seq<char>>| #[trigger]
            tells_git(behind, mode) && (plan.files matches FilesJob::Git(command)
                && command.json_output && has_args(
                command,
                "git"@,
                seq!["-c"@, "diff.external=difft"@, "diff"@],
                behind,
            )) && (plan.stats matches StatsJob::Git(command) && has_args(
                command,
                "git"@,
                seq!["diff"@, "--numstat"@],
                behind,
            )) && (plan.renames matches RenamesJob::Git(command) && has_args(
                command,
                "git"@,
                seq!["diff"@, "--name-status"@, "-M"@],
                behind,
            )),
        !plan.stats->Git_0.json_output,
        !plan.renames->Git_0.json_output,
{
    let behind = git_args(mode, merge_base);
    assert(tells_git(behind, mode));
    lemma_has_args(
        plan.files->Git_0,
        "git"@,
        seq!["-c"@, "diff.external=difft"@, "diff"@],
        behind,
        true,
    );
    lemma_has_args(plan.stats->Git_0, "git"@, seq!["diff"@, "--numstat"@], behind, false);
    lemma_has_args(
        plan.renames->Git_0,
        "git"@,
        seq!["diff"@, "--name-status"@, "-M"@],
        behind,
        false,
    );
}

/// What jj is told to compare: a revset by `-r`, a commit by `--from`, and `@` by `--to`
/// where the index is compared.
pub open spec fn tells_jj(args: Seq<Seq<char>>, mode: DiffMode) -> bool {
    match mode {
        DiffMode::Unstaged => args.len() == 0,
        DiffMode::Range(revset) => args.len() == 2 && args[0] == "-r"@ && args[1] == revset@,
        DiffMode::Staged => args.len() == 2 && args[0] == "-r"@ && args[1] == "@"@,
        DiffMode::WorkingTree(commit) => args.len() == 2 && args[0] == "--from"@ && args[1]
            == commit@,
        DiffMode::StagedVsCommit(commit) => args.len() == 4 && args[0] == "--from"@ && args[1]
            == commit@ && args[2] == "--to"@ && args[3] == "@"@,
    }
}

/// Jj compares by difftastic what the mode names, and looks for renames in the same, but
/// for the working copy. Lines are counted for the same revisions, or not at all.
pub proof fn law_jj_compares_what_the_mode_names(plan: DiffPlan, mode: DiffMode)
    requires
        is_jj_plan(plan, mode),
    ensures
        exists|args: Seq<Seq<char>>| #[trigger]
            tells_jj(args, mode) && (plan.files matches FilesJob::Jj(command)
                && command.json_output && has_args(
                command,
                "jj"@,
                seq!["diff"@] + args,
                seq!["--tool"@, "difft"@],
            )) && (match plan.renames {
                RenamesJob::Jj(command) => !(mode is Unstaged || mode is WorkingTree) && has_args(
                    command,
                    "jj"@,
                    seq!["diff"@] + args,
                    seq!["--summary"@],
                ),
                RenamesJob::Nothing => mode is Unstaged || mode is WorkingTree,
                RenamesJob::Git(_) => false,
            }),
        match plan.stats {
            StatsJob::JjRevset(revset) => {
                ||| mode matches DiffMode::Range(r) && revset@ == r@
                ||| mode is Staged && revset@ == "@"@
            },
            StatsJob::JjBetween(a, b) => mode matches DiffMode::StagedVsCommit(c) && a@ == c@ && b@
                == "@"@,
            StatsJob::Ignored(command) => (mode is Unstaged || mode is WorkingTree)
                && !command.json_output && has_args(
                command,
                "jj"@,
                seq!["diff"@],
                seq!["--stat"@],
            ),
            StatsJob::Git(_) => false,
        },
        plan.renames matches RenamesJob::Jj(command) ==> !command.json_output,
        tells_jj(jj_compared_args(mode), mode),
{
    let args = jj_compared_args(mode);
    if plan.stats is Ignored {
        assert(seq!["diff"@] + seq!["--stat"@] =~= seq!["diff"@, "--stat"@]);
        lemma_has_args(plan.stats->Ignored_0, "jj"@, seq!["diff"@], seq!["--stat"@], false);
    }
    assert(tells_jj(args, mode));
    lemma_has_args(
        plan.files->Jj_0,
        "jj"@,
        seq!["diff"@] + args,
        seq!["--tool"@, "difft"@],
        true,
    );
    if plan.renames is Jj {
        lemma_has_args(
            plan.renames->Jj_0,
            "jj"@,
            seq!["diff"@] + args,
            seq!["--summary"@],
            false,
        );
    }
}

/// The content is what a command with these arguments prints.
pub open spec fn is_printed(
    source: ContentSource,
    program: Seq<char>,
    front: Seq<Seq<char>>,
    behind: Seq<Seq<char>>,
) -> bool {
    source matches ContentSource::Command(c) && !c.json_output && has_args(
        c,
        program,
        front,
        behind,
    )
}

/// The content is that of a file below the directory that a command prints.
pub open spec fn is_below(
    source: ContentSource,
    path: Seq<char>,
    program: Seq<char>,
    args: Seq<Seq<char>>,
) -> bool {
    source matches ContentSource::WorkingTree { root, path: p } && p@ == path && has_args(
        root,
        program,
        args,
        Seq::empty(),
    )
}

/// A source of content is one command with its arguments, or a file below the root of
/// the repository.
pub proof fn law_sources_are_commands_and_files(
    source: ContentSource,
    revision: Seq<char>,
    path: Seq<char>,
)
    ensures
        reads_git_commit(source, revision, path) ==> is_printed(
            source,
            "git"@,
            seq!["show"@],
            seq![revision + ":"@ + path],
        ),
        reads_git_index(source, path) ==> is_printed(
            source,
            "git"@,
            seq!["show"@],
            seq![":"@ + path],
        ),
        reads_jj_revision(source, revision, path) ==> is_printed(
            source,
            "jj"@,
            seq!["file"@, "show"@, "-r"@],
            seq![revision, path],
        ),
        reads_git_tree(source, path) ==> is_below(
            source,
            path,
            "git"@,
            seq!["rev-parse"@, "--show-toplevel"@],
        ),
        reads_jj_tree(source, path) ==> is_below(source, path, "jj"@, seq!["root"@]),
{
    match source {
        ContentSource::Command(c) => {
            if reads_git_commit(source, revision, path) {
                assert(seq!["show"@] + seq![revision + ":"@ + path] =~= seq![
                    "show"@,
                    revision + ":"@ + path,
                ]);
                lemma_has_args(c, "git"@, seq!["show"@], seq![revision + ":"@ + path], false);
            }
            if reads_git_index(source, path) {
                assert(seq!["show"@] + seq![":"@ + path] =~= seq!["show"@, ":"@ + path]);
                lemma_has_args(c, "git"@, seq!["show"@], seq![":"@ + path], false);
            }
            if reads_jj_revision(source, revision, path) {
                assert(seq!["file"@, "show"@, "-r"@] + seq![revision, path] =~= seq![
                    "file"@,
                    "show"@,
                    "-r"@,
                    revision,
                    path,
                ]);
                lemma_has_args(
                    c,
                    "jj"@,
                    seq!["file"@, "show"@, "-r"@],
                    seq![revision, path],
                    false,
                );
            }
        },
        ContentSource::WorkingTree { root, path: p } => {
            let none = Seq::<Seq<char>>::empty();
            if reads_git_tree(source, path) {
                let front = seq!["rev-parse"@, "--show-toplevel"@];
                assert(front + none =~= front);
                lemma_has_args(root, "git"@, front, none, false);
            }
            if reads_jj_tree(source, path) {
                assert(seq!["root"@] + none =~= seq!["root"@]);
                lemma_has_args(root, "jj"@, seq!["root"@], none, false);
            }
        },
    }
}

/// Where the two sides of a file are read, by mode: the old one at the old path from what
/// the mode compares against, the new one at the new path from what it compares.
pub proof fn law_both_sides_are_read_where_the_mode_says(
    fetcher: ContentFetcher,
    mode: DiffMode,
    git: bool,
    merge_base: Option<Seq<char>>,
    old_path: Seq<char>,
    new_path: Seq<char>,
    sources: (ContentSource, ContentSource),
)
    requires
        fetches(fetcher, mode, git, merge_base),
        fetched_from(fetcher, old_path, new_path, sources),
    ensures
        git ==> match mode {
            DiffMode::Range(range) => {
                &&& reads_git_commit(sources.0, git_refs(range@, merge_base).0, old_path)
                &&& reads_git_commit(sources.1, git_refs(range@, merge_base).1, new_path)
            },
            DiffMode::Unstaged => reads_git_index(sources.0, old_path) && reads_git_tree(
                sources.1,
                new_path,
            ),
            DiffMode::Staged => reads_git_commit(sources.0, "HEAD"@, old_path) && reads_git_index(
                sources.1,
                new_path,
            ),
            DiffMode::WorkingTree(commit) => reads_git_commit(sources.0, commit@, old_path)
                && reads_git_tree(sources.1, new_path),
            DiffMode::StagedVsCommit(commit) => reads_git_commit(sources.0, commit@, old_path)
                && reads_git_index(sources.1, new_path),
        },
        !git ==> match mode {
            DiffMode::Range(range) => {
                &&& reads_jj_revision(sources.0, jj_refs(range@).0, old_path)
                &&& reads_jj_revision(sources.1, jj_refs(range@).1, new_path)
            },
            DiffMode::Unstaged => reads_jj_revision(sources.0, "@"@, old_path) && reads_jj_tree(
                sources.1,
                new_path,
            ),
            DiffMode::Staged => reads_jj_revision(sources.0, "@-"@, old_path)
                && reads_jj_revision(sources.1, "@"@, new_path),
            DiffMode::WorkingTree(commit) => reads_jj_revision(sources.0, commit@, old_path)
                && reads_jj_tree(sources.1, new_path),
            DiffMode::StagedVsCommit(commit) => reads_jj_revision(sources.0, commit@, old_path)
                && reads_jj_revision(sources.1, "@"@, new_path),
        },
{
}

/// A merge base is asked for exactly for a git range with three dots in it, between what
/// stands before and behind the first ones.
pub proof fn law_merge_base_is_of_the_two_sides(mode: DiffMode, git: bool)
    ensures
        match needed_merge_base(mode, git) {
            Some((a, b)) => git && (mode matches DiffMode::Range(range) && a + "..."@ + b
                == range@ && forall|j: int|
                0 <= j < a.len() ==> #[trigger] range@.subrange(j, j + 3) != "..."@),
            None => git && mode is Range ==> forall|j: int|
                0 <= j && j + 3 <= mode->Range_0@.len() ==> #[trigger] mode->Range_0@.subrange(
                    j,
                    j + 3,
                ) != "..."@,
        },
{
    if let DiffMode::Range(range) = mode {
        reveal_strlit("...");
        law_split_at_the_first_pattern(range@, "..."@);
    }
}

/// The commit of an output is taken where the command succeeded, and then from what it
/// printed alone.
pub proof fn law_commit_comes_from_a_success(output: CommandOutput)
    ensures
        printed_commit(None) is None,
        output.code != Some(0i32) ==> printed_commit(Some(output)) is None,
        output.code == Some(0i32) ==> printed_commit(Some(output)) == only_commit_id(
            lossy_text(output.stdout@),
        ),
{
}

/// Git is asked for by its name, and by no other.
pub proof fn law_git_is_a_name(vcs: Seq<char>)
    ensures
        is_git(vcs) <==> vcs.len() == 3 && vcs[0] == 'g' && vcs[1] == 'i' && vcs[2] == 't',
{
    reveal_strlit("git");
    if vcs.len() == 3 && vcs[0] == 'g' && vcs[1] == 'i' && vcs[2] == 't' {
        assert(vcs =~= "git"@);
    }
}

} // verus!
