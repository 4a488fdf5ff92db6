//! Files that git does not track, shown as created.

use vstd::prelude::*;

use crate::command::{
    printed, runs, successful_output, utf8_printed, CommandLine, CommandOutput,
};
use crate::content::{content_lines, is_line, law_lines_read_back, terminated};
use crate::difft::{DiffLine, DifftFile, Status};
use crate::language::{language_from_ext, language_of};
use crate::list::{
    filter_mapped, lemma_filter_mapped_all, lemma_filter_mapped_keeps, lemma_filter_mapped_source,
    lemma_filter_mapped_step,
};
use crate::text::{lemma_texts_push, lines, lines_of, texts};
use crate::vcs::{git_untracked_command, is_git, uses_git};

verus! {

/// The command that lists the untracked files. Only git has any: jj tracks everything.
pub fn untracked_command(vcs: &str) -> (r: Option<CommandLine>)
    ensures
        match r {
            Some(command) => is_git(vcs@) && runs(
                command,
                "git"@,
                seq!["ls-files"@, "--others"@, "--exclude-standard"@, "--full-name"@, ":/"@],
                false,
            ),
            None => !is_git(vcs@),
        },
{
    if uses_git(vcs) {
        Some(git_untracked_command())
    } else {
        None
    }
}

/// A line that is not empty.
pub open spec fn not_empty(line: Seq<char>) -> Option<Seq<char>> {
    if line.len() > 0 {
        Some(line)
    } else {
        None
    }
}

/// The paths that an output lists, one to a line.
pub open spec fn listed_paths(lines: Seq<Seq<char>>) -> Seq<Seq<char>> {
    filter_mapped(lines, |line: Seq<char>| not_empty(line))
}

/// Reads a list of paths.
fn parse_paths(output: &str) -> (r: Vec<String>)
    ensures
        texts(r@) == listed_paths(lines_of(output@)),
{
    broadcast use lemma_texts_push;

    let all = lines(output);
    let mut paths: Vec<String> = Vec::new();
    let mut i: usize = 0;
    proof {
        assert(texts(all@).take(0) =~= Seq::<Seq<char>>::empty());
        assert(texts(paths@) =~= Seq::<Seq<char>>::empty());
    }
    while i < all.len()
        invariant
            i <= all@.len(),
            texts(all@) == lines_of(output@),
            texts(paths@) == listed_paths(texts(all@).take(i as int)),
        decreases all@.len() - i,
    {
        proof {
            lemma_filter_mapped_step(texts(all@), |line: Seq<char>| not_empty(line), i as int);
            assert(texts(all@)[i as int] == all@[i as int]@);
        }
        if !all[i].as_str().is_empty() {
            paths.push(all[i].clone());
        }
        i += 1;
    }
    proof {
        assert(texts(all@).take(all@.len() as int) =~= texts(all@));
    }
    paths
}

/// The paths of the untracked files, from what git printed; none where it failed.
pub fn git_untracked_files(output: &Option<CommandOutput>) -> (r: Vec<String>)
    ensures
        texts(r@) == match printed(*output) {
            Some(text) => listed_paths(lines_of(text)),
            None => Seq::empty(),
        },
        utf8_printed(*output) matches Some(text) ==> texts(r@) == listed_paths(lines_of(text)),
{
    match successful_output(output) {
        Some(text) => parse_paths(text.as_str()),
        None => {
            let none: Vec<String> = Vec::new();
            proof {
                assert(texts(none@) =~= Seq::<Seq<char>>::empty());
            }
            none
        },
    }
}

/// An untracked file: the report on it, its lines, and the added and deleted lines.
#[derive(Clone, Debug, PartialEq, Eq)]
pub struct UntrackedFile {
    pub file: DifftFile,
    pub new_lines: Vec<String>,
    pub added: u32,
    pub deleted: u32,
}

/// The file is as git would have it, were it added. The count of its lines is cut to
/// 32 bits.
pub open spec fn is_untracked_file(
    untracked: UntrackedFile,
    path: Seq<char>,
    content: Seq<char>,
) -> bool {
    &&& untracked.file.path@ == path
    &&& untracked.file.language@ == language_of(path)
    &&& untracked.file.status == Status::Created
    &&& untracked.file.aligned_lines@.len() == 0
    &&& untracked.file.chunks@.len() == 0
    &&& texts(untracked.new_lines@) == lines_of(content)
    &&& untracked.added == lines_of(content).len() % 0x1_0000_0000
    &&& untracked.deleted == 0
}

/// What is shown of an untracked file, if its content could be read.
pub fn untracked_file(path: String, content: Option<String>) -> (r: Option<UntrackedFile>)
    ensures
        match r {
            Some(untracked) => content is Some && is_untracked_file(
                untracked,
                path@,
                content->0@,
            ),
            None => content is None,
        },
{
    match content {
        Some(content) => {
            let new_lines = lines(content.as_str());
            let count: u64 = new_lines.len() as u64;
            proof {
                assert(texts(new_lines@).len() == new_lines@.len());
                assert((count as u32) == count % 0x1_0000_0000) by (bit_vector);
            }
            let added: u32 = #[verifier::truncate]
            (count as u32);
            let language = language_from_ext(path.as_str());
            let aligned_lines: Vec<(Option<u32>, Option<u32>)> = Vec::new();
            let chunks: Vec<Vec<DiffLine>> = Vec::new();
            Some(
                UntrackedFile {
                    file: DifftFile {
                        path,
                        language,
                        status: Status::Created,
                        aligned_lines,
                        chunks,
                    },
                    new_lines,
                    added,
                    deleted: 0,
                },
            )
        },
        None => None,
    }
}

/// Every line that is not empty is listed, as it stands and in order: a line more is
/// listed behind the others unless it is empty, and no lines list nothing.
pub proof fn law_filled_lines_are_listed(lines: Seq<Seq<char>>, line: Seq<char>)
    ensures
        listed_paths(Seq::empty()) == Seq::<Seq<char>>::empty(),
        listed_paths(lines.push(line)) == if line.len() > 0 {
            listed_paths(lines).push(line)
        } else {
            listed_paths(lines)
        },
{
    assert(lines.push(line).drop_last() =~= lines);
}

/// Paths that git prints, one to a line, are listed as they are, whatever they are, as
/// long as none is empty, holds a line feed, or ends in a carriage return.
pub proof fn law_printed_paths_are_listed(paths: Seq<Seq<char>>)
    requires
        forall|i: int|
            0 <= i < paths.len() ==> is_line(#[trigger] paths[i], false) && paths[i].len() > 0,
    ensures
        listed_paths(lines_of(terminated(paths, false))) == paths,
{
    law_lines_read_back(paths, false, Seq::empty());
    let f = |line: Seq<char>| not_empty(line);
    assert forall|i: int| 0 <= i < paths.len() implies f(#[trigger] paths[i]) == Some(
        paths[i],
    ) by {
        assert(is_line(paths[i], false));
    }
    lemma_filter_mapped_all(paths, f);
    assert forall|i: int| 0 <= i < paths.len() implies listed_paths(paths)[i]
        == #[trigger] paths[i] by {
        assert(f(paths[i]) is Some);
    }
    assert(listed_paths(paths) =~= paths);
}

/// Whatever is listed is a line of the output that is not empty, and every such line is
/// listed.
pub proof fn law_listed_paths_are_lines(output: Seq<char>, path: Seq<char>)
    ensures
        listed_paths(lines_of(output)).contains(path) <==> path.len() > 0 && lines_of(
            output,
        ).contains(path),
{
    let lines = lines_of(output);
    let f = |line: Seq<char>| not_empty(line);
    let listed = listed_paths(lines);
    if listed.contains(path) {
        let k = choose|k: int| 0 <= k < listed.len() && listed[k] == path;
        lemma_filter_mapped_source(lines, f, k);
        let i = choose|i: int| 0 <= i < lines.len() && f(#[trigger] lines[i]) == Some(listed[k]);
        assert(lines[i] == path);
    }
    if path.len() > 0 && lines.contains(path) {
        let i = choose|i: int| 0 <= i < lines.len() && lines[i] == path;
        assert(f(lines[i]) is Some);
        lemma_filter_mapped_keeps(lines, f, i);
    }
}

/// An untracked file is shown as created under its own path, with all its lines as new
/// ones, none deleted, and the language of its extension.
pub proof fn law_untracked_files_are_all_new(
    untracked: UntrackedFile,
    path: Seq<char>,
    content: Seq<char>,
)
    requires
        is_untracked_file(untracked, path, content),
    ensures
        untracked.file.path@ == path,
        untracked.file.status == Status::Created,
        untracked.file.language@ == language_of(path),
        untracked.file.aligned_lines@.len() == 0,
        untracked.file.chunks@.len() == 0,
        untracked.new_lines@.len() == content_lines(Some(content)).len(),
        forall|i: int|
            0 <= i < untracked.new_lines@.len() ==> (#[trigger] untracked.new_lines@[i])@
                == content_lines(Some(content))[i],
        untracked.new_lines@.len() < 0x1_0000_0000 ==> untracked.added
            == untracked.new_lines@.len(),
        untracked.added == untracked.new_lines@.len() % 0x1_0000_0000,
        untracked.deleted == 0,
{
    let shown = texts(untracked.new_lines@);
    assert(shown.len() == untracked.new_lines@.len());
    assert forall|i: int| 0 <= i < untracked.new_lines@.len() implies (
    #[trigger] untracked.new_lines@[i])@ == content_lines(Some(content))[i] by {
        assert(shown[i] == untracked.new_lines@[i]@);
    }
}

} // verus!
