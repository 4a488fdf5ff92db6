//! Comparing the files of a git range one by one.
//!
//! Every file that git reports must give exactly one result, or the whole operation
//! fails: there are no partial results.

use vstd::prelude::*;

use crate::command::{
    lossy_text, required_output, required_text, runs, CommandLine, CommandOutput,
};
use crate::difft::{DifftFile, Status};
use crate::language::{language_from_ext, language_of};
use crate::list::{filter_mapped, lemma_filter_mapped_step};
use crate::number::{decimal, signed_decimal, write_decimal, write_signed};
use crate::path::{file_name, file_name_of, paths_equal, same_path};
use crate::text::{
    fields, fields_of, lemma_first_field, lemma_single_field, lines, lines_of, starts_with_char,
    text_option, text_result, texts, trim, trimmed,
};
use crate::vcs::git_file_command;

verus! {

/// A file that changed, as `git diff --name-status` reports it.
#[derive(Clone, Debug, PartialEq, Eq)]
pub struct ChangedEntry {
    pub status: String,
    pub old_path: String,
    pub new_path: String,
}

impl View for ChangedEntry {
    type V = (Seq<char>, Seq<char>, Seq<char>);

    open spec fn view(&self) -> (Seq<char>, Seq<char>, Seq<char>) {
        (self.status@, self.old_path@, self.new_path@)
    }
}

/// The text begins with the letter.
pub open spec fn has_letter(s: Seq<char>, c: char) -> bool {
    s.len() > 0 && s[0] == c
}

/// What a line says: the status, then the path, with a tab between them; after the
/// status of a rename or a copy, the old and the new path.
pub open spec fn name_status_entry(line: Seq<char>) -> Option<(Seq<char>, Seq<char>, Seq<char>)> {
    let f = fields_of(line, '\t');
    if f.len() < 2 {
        None
    } else if has_letter(trimmed(f[0]), 'R') || has_letter(trimmed(f[0]), 'C') {
        if f.len() < 3 {
            None
        } else {
            Some((trimmed(f[0]), trimmed(f[1]), trimmed(f[2])))
        }
    } else {
        Some((trimmed(f[0]), trimmed(f[1]), trimmed(f[1])))
    }
}

/// What the lines say, in order.
pub open spec fn name_status_entries(lines: Seq<Seq<char>>) -> Seq<
    (Seq<char>, Seq<char>, Seq<char>),
> {
    filter_mapped(lines, |line: Seq<char>| name_status_entry(line))
}

/// The views of a list of entries.
pub open spec fn entry_views(entries: Seq<ChangedEntry>) -> Seq<
    (Seq<char>, Seq<char>, Seq<char>),
> {
    entries.map_values(|e: ChangedEntry| e@)
}

/// Reads one line.
fn parse_name_status_line(line: &str) -> (r: Option<ChangedEntry>)
    ensures
        match r {
            Some(entry) => name_status_entry(line@) == Some(entry@),
            None => name_status_entry(line@) is None,
        },
{
    let parts = fields(line, '\t');
    proof {
        assert(texts(parts@).len() == parts@.len());
    }
    if parts.len() < 2 {
        return None;
    }
    proof {
        assert(texts(parts@)[0] == parts@[0]@);
        assert(texts(parts@)[1] == parts@[1]@);
    }
    let status = trim(parts[0].as_str());
    let first_path = trim(parts[1].as_str());
    if starts_with_char(status.as_str(), 'R') || starts_with_char(status.as_str(), 'C') {
        if parts.len() < 3 {
            return None;
        }
        proof {
            assert(texts(parts@)[2] == parts@[2]@);
        }
        let second_path = trim(parts[2].as_str());
        Some(ChangedEntry { status, old_path: first_path, new_path: second_path })
    } else {
        Some(ChangedEntry { status, old_path: first_path.clone(), new_path: first_path })
    }
}

/// Reads the output of `git diff --name-status`.
pub fn parse_name_status_entries(output: &str) -> (r: Vec<ChangedEntry>)
    ensures
        entry_views(r@) == name_status_entries(lines_of(output@)),
{
    let all = lines(output);
    let mut entries: Vec<ChangedEntry> = Vec::new();
    let mut i: usize = 0;
    proof {
        assert(texts(all@).take(0) =~= Seq::<Seq<char>>::empty());
        assert(entry_views(entries@) =~= Seq::<(Seq<char>, Seq<char>, Seq<char>)>::empty());
    }
    while i < all.len()
        invariant
            i <= all@.len(),
            texts(all@) == lines_of(output@),
            entry_views(entries@) == name_status_entries(texts(all@).take(i as int)),
        decreases all@.len() - i,
    {
        let ghost before = entries@;
        proof {
            lemma_filter_mapped_step(
                texts(all@),
                |line: Seq<char>| name_status_entry(line),
                i as int,
            );
            assert(texts(all@)[i as int] == all@[i as int]@);
        }
        match parse_name_status_line(all[i].as_str()) {
            Some(entry) => {
                proof {
                    assert(entry_views(before.push(entry)) =~= entry_views(before).push(entry@));
                }
                entries.push(entry);
            },
            None => {},
        }
        i += 1;
    }
    proof {
        assert(texts(all@).take(all@.len() as int) =~= texts(all@));
    }
    entries
}

/// The list of changed files that git gave, or why it gave none.
pub fn git_changed_files(outcome: &Result<CommandOutput, String>) -> (r: Result<
    Vec<ChangedEntry>,
    String,
>)
    ensures
        match (r, required_text("git"@, "name-status"@, *outcome)) {
            (Ok(entries), Ok(text)) => entry_views(entries@) == name_status_entries(
                lines_of(text),
            ),
            (Err(message), Err(expected)) => message@ == expected,
            _ => false,
        },
{
    match required_output("git", "name-status", outcome) {
        Ok(text) => Ok(parse_name_status_entries(text.as_str())),
        Err(message) => Err(message),
    }
}

/// The name that a temporary copy of a file gets: its own, by which difftastic tells
/// the language, or `file` where it has none.
pub open spec fn temp_name_of(path: Seq<char>) -> Seq<char> {
    match file_name_of(path) {
        Some(name) => if name.len() > 0 {
            name
        } else {
            "file"@
        },
        None => "file"@,
    }
}

/// Names the temporary copy of a file.
pub fn temp_name(path: &str) -> (r: String)
    ensures
        r@ == temp_name_of(path@),
{
    match file_name(path) {
        Some(name) => if name.as_str().is_empty() {
            "file".to_owned()
        } else {
            name
        },
        None => "file".to_owned(),
    }
}

/// A step of comparing one file that may fail.
#[derive(Clone, Copy, Debug, PartialEq, Eq, Structural)]
pub enum FileStep {
    TempDir,
    OldDir,
    NewDir,
    WriteOld,
    WriteNew,
    RunDifft,
}

/// What a step is called.
pub open spec fn step_text(step: FileStep) -> Seq<char> {
    match step {
        FileStep::TempDir => "temp dir"@,
        FileStep::OldDir => "old dir"@,
        FileStep::NewDir => "new dir"@,
        FileStep::WriteOld => "write old"@,
        FileStep::WriteNew => "write new"@,
        FileStep::RunDifft => "difft failed to run"@,
    }
}

/// Says that a step of comparing a file failed.
pub fn step_failure(entry: &ChangedEntry, step: FileStep, error: &str) -> (r: String)
    ensures
        r@ == entry.new_path@ + ": "@ + step_text(step) + ": "@ + error@,
{
    let name = match step {
        FileStep::TempDir => "temp dir",
        FileStep::OldDir => "old dir",
        FileStep::NewDir => "new dir",
        FileStep::WriteOld => "write old",
        FileStep::WriteNew => "write new",
        FileStep::RunDifft => "difft failed to run",
    };
    entry.new_path.clone().concat(": ").concat(name).concat(": ").concat(error)
}

/// The command that prints the old content. An added file has none.
pub fn old_content_command(entry: &ChangedEntry, old_ref: &str) -> (r: Option<CommandLine>)
    ensures
        r is None <==> has_letter(entry.status@, 'A'),
        r matches Some(command) ==> runs(
            command,
            "git"@,
            seq!["show"@, old_ref@ + ":"@ + entry.old_path@],
            false,
        ),
{
    if starts_with_char(entry.status.as_str(), 'A') {
        None
    } else {
        Some(git_file_command(old_ref, entry.old_path.as_str()))
    }
}

/// The command that prints the new content. A deleted file has none.
pub fn new_content_command(entry: &ChangedEntry, new_ref: &str) -> (r: Option<CommandLine>)
    ensures
        r is None <==> has_letter(entry.status@, 'D'),
        r matches Some(command) ==> runs(
            command,
            "git"@,
            seq!["show"@, new_ref@ + ":"@ + entry.new_path@],
            false,
        ),
{
    if starts_with_char(entry.status.as_str(), 'D') {
        None
    } else {
        Some(git_file_command(new_ref, entry.new_path.as_str()))
    }
}

/// The old content to compare: nothing for an added file, and for any other what was
/// fetched, which must be there.
pub open spec fn old_side(
    entry: ChangedEntry,
    old_ref: Seq<char>,
    fetched: Option<Seq<char>>,
) -> Result<Seq<char>, Seq<char>> {
    if has_letter(entry.status@, 'A') {
        Ok(Seq::empty())
    } else {
        match fetched {
            Some(content) => Ok(content),
            None => Err(
                entry.new_path@ + ": failed to fetch old content from "@ + old_ref + ":"@
                    + entry.old_path@,
            ),
        }
    }
}

/// The new content to compare: nothing for a deleted file, and for any other what was
/// fetched, which must be there.
pub open spec fn new_side(
    entry: ChangedEntry,
    new_ref: Seq<char>,
    fetched: Option<Seq<char>>,
) -> Result<Seq<char>, Seq<char>> {
    if has_letter(entry.status@, 'D') {
        Ok(Seq::empty())
    } else {
        match fetched {
            Some(content) => Ok(content),
            None => Err(
                entry.new_path@ + ": failed to fetch new content from "@ + new_ref + ":"@
                    + entry.new_path@,
            ),
        }
    }
}

/// Takes the old content from what was fetched.
pub fn old_content(entry: &ChangedEntry, old_ref: &str, fetched: Option<String>) -> (r: Result<
    String,
    String,
>)
    ensures
        text_result(r) == old_side(*entry, old_ref@, text_option(fetched)),
{
    if starts_with_char(entry.status.as_str(), 'A') {
        return Ok(String::new());
    }
    match fetched {
        Some(content) => Ok(content),
        None => Err(
            entry.new_path.clone().concat(": failed to fetch old content from ").concat(
                old_ref,
            ).concat(":").concat(entry.old_path.as_str()),
        ),
    }
}

/// Takes the new content from what was fetched.
pub fn new_content(entry: &ChangedEntry, new_ref: &str, fetched: Option<String>) -> (r: Result<
    String,
    String,
>)
    ensures
        text_result(r) == new_side(*entry, new_ref@, text_option(fetched)),
{
    if starts_with_char(entry.status.as_str(), 'D') {
        return Ok(String::new());
    }
    match fetched {
        Some(content) => Ok(content),
        None => Err(
            entry.new_path.clone().concat(": failed to fetch new content from ").concat(
                new_ref,
            ).concat(":").concat(entry.new_path.as_str()),
        ),
    }
}

/// What difftastic answered on one file.
#[derive(Clone, Debug, PartialEq, Eq)]
pub enum DifftReply {
    /// Nothing: there are no syntactic changes.
    Nothing,
    /// A report to parse.
    Report(String),
}

/// The exit code of difftastic, where a process that was killed counts as -1.
pub open spec fn difft_code(output: CommandOutput) -> int {
    match output.code {
        Some(code) => code as int,
        None => -1,
    }
}

/// Reads what difftastic answered. It exits with 0 where it found no changes and with 1
/// where it found some; any other code is a failure.
pub fn difft_reply(entry: &ChangedEntry, output: &CommandOutput) -> (r: Result<DifftReply, String>)
    ensures
        match r {
            Ok(reply) => {
                &&& difft_code(*output) == 0 || difft_code(*output) == 1
                &&& match reply {
                    DifftReply::Nothing => trimmed(lossy_text(output.stdout@)).len() == 0,
                    DifftReply::Report(json) => {
                        &&& json@ == lossy_text(output.stdout@)
                        &&& trimmed(json@).len() > 0
                    },
                }
            },
            Err(message) => {
                &&& difft_code(*output) != 0 && difft_code(*output) != 1
                &&& message@ == entry.new_path@ + ": difft exited with code "@ + signed_decimal(
                    difft_code(*output),
                ) + ": "@ + lossy_text(output.stderr@)
            },
        },
{
    let code: i32 = match output.code {
        Some(code) => code,
        None => -1,
    };
    if code != 0 && code != 1 {
        return Err(
            entry.new_path.clone().concat(": difft exited with code ").concat(
                write_signed(code).as_str(),
            ).concat(": ").concat(output.stderr_text().as_str()),
        );
    }
    let json = output.stdout_text();
    if trim(json.as_str()).as_str().is_empty() {
        Ok(DifftReply::Nothing)
    } else {
        Ok(DifftReply::Report(json))
    }
}

/// The result for a file in which difftastic found no changes.
pub fn unchanged_file(entry: &ChangedEntry) -> (r: DifftFile)
    ensures
        r.path@ == entry.new_path@,
        r.language@ == language_of(entry.new_path@),
        r.status == Status::Unchanged,
        r.aligned_lines@.len() == 0,
        r.chunks@.len() == 0,
{
    DifftFile {
        path: entry.new_path.clone(),
        language: language_from_ext(entry.new_path.as_str()),
        status: Status::Unchanged,
        aligned_lines: Vec::new(),
        chunks: Vec::new(),
    }
}

/// The report with another path, the one that git knows the file by.
pub open spec fn with_path(file: DifftFile, path: String) -> DifftFile {
    DifftFile { path, ..file }
}

/// Takes the one file of a parsed report, under the path that git knows it by.
pub fn accept_report(entry: &ChangedEntry, parsed: Result<Vec<DifftFile>, String>) -> (r: Result<
    DifftFile,
    String,
>)
    ensures
        match parsed {
            Ok(files) => if files@.len() == 1 {
                r == Ok::<DifftFile, String>(with_path(files@[0], entry.new_path))
            } else {
                r matches Err(message) && message@ == entry.new_path@
                    + ": expected 1 file from difft, got "@ + decimal(files@.len())
            },
            Err(error) => r matches Err(message) && message@ == entry.new_path@
                + ": JSON parse error: "@ + error@,
        },
{
    match parsed {
        Ok(files) => {
            let mut files = files;
            if files.len() != 1 {
                return Err(
                    entry.new_path.clone().concat(": expected 1 file from difft, got ").concat(
                        write_decimal(files.len() as u64).as_str(),
                    ),
                );
            }
            let mut file = files.remove(0);
            file.path = entry.new_path.clone();
            Ok(file)
        },
        Err(error) => Err(
            entry.new_path.clone().concat(": JSON parse error: ").concat(error.as_str()),
        ),
    }
}

/// The first failure among the results, from the `i`th on.
pub open spec fn first_failure(results: Seq<Result<DifftFile, String>>, i: int) -> Option<Seq<char>>
    decreases results.len() - i,
{
    if i < 0 || i >= results.len() {
        None
    } else {
        match results[i] {
            Ok(_) => first_failure(results, i + 1),
            Err(message) => Some(message@),
        }
    }
}

/// The files of the results, where none failed.
pub open spec fn result_files(results: Seq<Result<DifftFile, String>>) -> Seq<DifftFile> {
    results.map_values(|r: Result<DifftFile, String>| r->Ok_0)
}

/// The first file with a path, at `from` or later.
pub open spec fn file_at(files: Seq<DifftFile>, path: Seq<char>, from: int) -> Option<int>
    decreases files.len() - from,
{
    if from < 0 || from >= files.len() {
        None
    } else if same_path(files[from].path@, path) {
        Some(from)
    } else {
        file_at(files, path, from + 1)
    }
}

/// The first entry, from the `i`th on, that no file has the new path of.
pub open spec fn missing_entry(
    entries: Seq<ChangedEntry>,
    files: Seq<DifftFile>,
    i: int,
) -> Option<Seq<char>>
    decreases entries.len() - i,
{
    if i < 0 || i >= entries.len() {
        None
    } else if file_at(files, entries[i].new_path@, 0) is None {
        Some(
            "Integrity: file "@ + entries[i].new_path@
                + " reported by git but missing from diff output"@,
        )
    } else {
        missing_entry(entries, files, i + 1)
    }
}

/// What git and difftastic say of a file contradicts itself: content was fetched for
/// the wrong side.
pub open spec fn contradiction(entry: ChangedEntry, file: DifftFile) -> Option<Seq<char>> {
    if has_letter(entry.status@, 'A') && file.status == Status::Deleted {
        Some("Integrity: git says "@ + entry.new_path@ + " is Added but difft says Deleted"@)
    } else if has_letter(entry.status@, 'D') && file.status == Status::Created {
        Some("Integrity: git says "@ + entry.new_path@ + " is Deleted but difft says Created"@)
    } else {
        None
    }
}

/// The first contradiction, from the `i`th entry on.
pub open spec fn first_contradiction(
    entries: Seq<ChangedEntry>,
    files: Seq<DifftFile>,
    i: int,
) -> Option<Seq<char>>
    decreases entries.len() - i,
{
    if i < 0 || i >= entries.len() {
        None
    } else {
        let found = match file_at(files, entries[i].new_path@, 0) {
            Some(k) => contradiction(entries[i], files[k]),
            None => None,
        };
        match found {
            Some(message) => Some(message),
            None => first_contradiction(entries, files, i + 1),
        }
    }
}

/// What is wrong with the files, held against what git reported: their number, a
/// path that is missing, or a contradiction.
pub open spec fn integrity_failure(
    entries: Seq<ChangedEntry>,
    files: Seq<DifftFile>,
) -> Option<Seq<char>> {
    if files.len() != entries.len() {
        Some(
            "Integrity: git reported "@ + decimal(entries.len()) + " files but diff produced "@
                + decimal(files.len()),
        )
    } else if missing_entry(entries, files, 0) is Some {
        missing_entry(entries, files, 0)
    } else {
        first_contradiction(entries, files, 0)
    }
}

/// Why the whole batch fails: a file failed, or the files do not match what git
/// reported.
pub open spec fn batch_failure(
    entries: Seq<ChangedEntry>,
    results: Seq<Result<DifftFile, String>>,
) -> Option<Seq<char>> {
    if first_failure(results, 0) is Some {
        first_failure(results, 0)
    } else {
        integrity_failure(entries, result_files(results))
    }
}

/// What a found file means.
pub proof fn lemma_file_at(files: Seq<DifftFile>, path: Seq<char>, from: int)
    requires
        0 <= from,
    ensures
        match file_at(files, path, from) {
            Some(i) => from <= i < files.len() && same_path(files[i].path@, path)
                && forall|j: int|
                from <= j < i ==> !same_path((#[trigger] files[j]).path@, path),
            None => forall|j: int|
                from <= j < files.len() ==> !same_path((#[trigger] files[j]).path@, path),
        },
    decreases files.len() - from,
{
    if from < files.len() && !same_path(files[from].path@, path) {
        lemma_file_at(files, path, from + 1);
    }
}

/// Finds the first file with a path.
pub fn find_file(files: &Vec<DifftFile>, path: &str) -> (r: Option<usize>)
    ensures
        match r {
            Some(i) => file_at(files@, path@, 0) == Some(i as int) && i < files@.len(),
            None => file_at(files@, path@, 0) == None::<int>,
        },
{
    let mut i: usize = 0;
    while i < files.len()
        invariant
            i <= files@.len(),
            file_at(files@, path@, 0) == file_at(files@, path@, i as int),
        decreases files@.len() - i,
    {
        if paths_equal(files[i].path.as_str(), path) {
            return Some(i);
        }
        i += 1;
    }
    None
}

/// Collects the results. A single failure fails them all.
fn collect_results(results: Vec<Result<DifftFile, String>>) -> (r: Result<Vec<DifftFile>, String>)
    ensures
        match r {
            Ok(files) => first_failure(results@, 0) is None && files@ == result_files(results@),
            Err(message) => first_failure(results@, 0) == Some(message@),
        },
{
    let mut files: Vec<DifftFile> = Vec::new();
    let ghost all = results@;
    for result in it: results.into_iter()
        invariant
            it.seq() == all,
            files@ == result_files(all.take(it.index())),
            first_failure(all, 0) == first_failure(all, it.index()),
    {
        match result {
            Ok(file) => {
                proof {
                    assert(all[it.index()] == Ok::<DifftFile, String>(file));
                    assert(result_files(all.take(it.index() + 1)) =~= result_files(
                        all.take(it.index()),
                    ).push(file));
                }
                files.push(file);
            },
            Err(message) => {
                proof {
                    assert(all[it.index()] == Err::<DifftFile, String>(message));
                }
                return Err(message);
            },
        }
    }
    proof {
        assert(all.take(all.len() as int) =~= all);
    }
    Ok(files)
}

/// Holds the files against what git reported.
pub fn check_integrity(entries: &Vec<ChangedEntry>, files: &Vec<DifftFile>) -> (r: Result<
    (),
    String,
>)
    ensures
        match r {
            Ok(_) => integrity_failure(entries@, files@) is None,
            Err(message) => integrity_failure(entries@, files@) == Some(message@),
        },
{
    if files.len() != entries.len() {
        return Err(
            "Integrity: git reported ".to_owned().concat(
                write_decimal(entries.len() as u64).as_str(),
            ).concat(" files but diff produced ").concat(
                write_decimal(files.len() as u64).as_str(),
            ),
        );
    }
    let mut i: usize = 0;
    while i < entries.len()
        invariant
            i <= entries@.len(),
            files@.len() == entries@.len(),
            missing_entry(entries@, files@, 0) == missing_entry(entries@, files@, i as int),
        decreases entries@.len() - i,
    {
        if find_file(files, entries[i].new_path.as_str()).is_none() {
            return Err(
                "Integrity: file ".to_owned().concat(entries[i].new_path.as_str()).concat(
                    " reported by git but missing from diff output",
                ),
            );
        }
        i += 1;
    }
    let mut k: usize = 0;
    while k < entries.len()
        invariant
            k <= entries@.len(),
            files@.len() == entries@.len(),
            missing_entry(entries@, files@, 0) is None,
            first_contradiction(entries@, files@, 0) == first_contradiction(
                entries@,
                files@,
                k as int,
            ),
        decreases entries@.len() - k,
    {
        let entry = &entries[k];
        match find_file(files, entry.new_path.as_str()) {
            Some(at) => {
                let file = &files[at];
                if starts_with_char(entry.status.as_str(), 'A') && file.status == Status::Deleted {
                    return Err(
                        "Integrity: git says ".to_owned().concat(entry.new_path.as_str()).concat(
                            " is Added but difft says Deleted",
                        ),
                    );
                }
                if starts_with_char(entry.status.as_str(), 'D') && file.status == Status::Created {
                    return Err(
                        "Integrity: git says ".to_owned().concat(entry.new_path.as_str()).concat(
                            " is Deleted but difft says Created",
                        ),
                    );
                }
            },
            None => {},
        }
        k += 1;
    }
    Ok(())
}

/// Collects the results of comparing the files one by one. Every file must have a
/// result, and what comes out must match what git reported.
pub fn collect_files(
    entries: &Vec<ChangedEntry>,
    results: Vec<Result<DifftFile, String>>,
) -> (r: Result<Vec<DifftFile>, String>)
    ensures
        match r {
            Ok(files) => batch_failure(entries@, results@) is None && files@ == result_files(
                results@,
            ),
            Err(message) => batch_failure(entries@, results@) == Some(message@),
        },
{
    match collect_results(results) {
        Ok(files) => match check_integrity(entries, &files) {
            Ok(_) => Ok(files),
            Err(message) => Err(message),
        },
        Err(message) => Err(message),
    }
}

proof fn lemma_no_failure(results: Seq<Result<DifftFile, String>>, i: int)
    requires
        0 <= i,
    ensures
        first_failure(results, i) is None <==> (forall|j: int|
            i <= j < results.len() ==> (#[trigger] results[j]) is Ok),
    decreases results.len() - i,
{
    if i < results.len() {
        lemma_no_failure(results, i + 1);
    }
}

proof fn lemma_none_missing(entries: Seq<ChangedEntry>, files: Seq<DifftFile>, i: int)
    requires
        0 <= i,
    ensures
        missing_entry(entries, files, i) is None <==> (forall|j: int|
            i <= j < entries.len() ==> file_at(
                files,
                (#[trigger] entries[j]).new_path@,
                0,
            ) is Some),
    decreases entries.len() - i,
{
    if i < entries.len() {
        lemma_none_missing(entries, files, i + 1);
    }
}

proof fn lemma_no_contradiction(entries: Seq<ChangedEntry>, files: Seq<DifftFile>, i: int)
    requires
        0 <= i,
    ensures
        first_contradiction(entries, files, i) is None <==> (forall|j: int|
            #![trigger entries[j]]
            i <= j < entries.len() && file_at(files, entries[j].new_path@, 0) is Some
                ==> contradiction(
                entries[j],
                files[file_at(files, entries[j].new_path@, 0)->0],
            ) is None),
    decreases entries.len() - i,
{
    if i < entries.len() {
        lemma_no_contradiction(entries, files, i + 1);
    }
}

/// A batch that does not fail has as many results as entries, none of them a failure,
/// and a file under the new path of every entry.
pub proof fn law_no_partial_results(
    entries: Seq<ChangedEntry>,
    results: Seq<Result<DifftFile, String>>,
)
    requires
        batch_failure(entries, results) is None,
    ensures
        results.len() == entries.len(),
        forall|i: int| 0 <= i < results.len() ==> (#[trigger] results[i]) is Ok,
        forall|i: int|
            0 <= i < entries.len() ==> exists|k: int|
                0 <= k < results.len() && same_path(
                    (#[trigger] result_files(results)[k]).path@,
                    (#[trigger] entries[i]).new_path@,
                ),
{
    let files = result_files(results);
    lemma_no_failure(results, 0);
    lemma_none_missing(entries, files, 0);
    assert forall|i: int| 0 <= i < entries.len() implies exists|k: int|
        0 <= k < results.len() && same_path(
            (#[trigger] result_files(results)[k]).path@,
            (#[trigger] entries[i]).new_path@,
        ) by {
        lemma_file_at(files, entries[i].new_path@, 0);
        let k = file_at(files, entries[i].new_path@, 0)->0;
        assert(same_path(result_files(results)[k].path@, entries[i].new_path@));
    }
}

/// One file that fails, fails the batch.
pub proof fn law_one_failure_fails_all(
    entries: Seq<ChangedEntry>,
    results: Seq<Result<DifftFile, String>>,
    i: int,
)
    requires
        0 <= i < results.len(),
        results[i] is Err,
    ensures
        batch_failure(entries, results) is Some,
{
    lemma_no_failure(results, 0);
}

/// A file that git says was added is not taken as deleted, nor one that git says was
/// deleted as created.
pub proof fn law_no_contradictions(
    entries: Seq<ChangedEntry>,
    results: Seq<Result<DifftFile, String>>,
    i: int,
)
    requires
        batch_failure(entries, results) is None,
        0 <= i < entries.len(),
    ensures
        file_at(result_files(results), entries[i].new_path@, 0) matches Some(k) && {
            let file = result_files(results)[k];
            &&& has_letter(entries[i].status@, 'A') ==> file.status != Status::Deleted
            &&& has_letter(entries[i].status@, 'D') ==> file.status != Status::Created
        },
{
    let files = result_files(results);
    lemma_none_missing(entries, files, 0);
    lemma_no_contradiction(entries, files, 0);
    assert(entries[i] == entries[i]);
}

/// Where every entry has its own result, under its own path, and git and difftastic
/// agree on what was added and deleted, the batch does not fail.
pub proof fn law_complete_results_are_accepted(
    entries: Seq<ChangedEntry>,
    results: Seq<Result<DifftFile, String>>,
)
    requires
        results.len() == entries.len(),
        forall|i: int|
            0 <= i < results.len() ==> (#[trigger] results[i]) is Ok && results[i]->Ok_0.path@
                == entries[i].new_path@,
        forall|i: int, k: int|
            0 <= i < entries.len() && 0 <= k < results.len() && same_path(
                entries[k].new_path@,
                entries[i].new_path@,
            ) ==> contradiction(#[trigger] entries[i], (#[trigger] results[k])->Ok_0) is None,
    ensures
        batch_failure(entries, results) is None,
{
    let files = result_files(results);
    lemma_no_failure(results, 0);
    lemma_none_missing(entries, files, 0);
    lemma_no_contradiction(entries, files, 0);
    assert forall|j: int| 0 <= j < entries.len() implies file_at(
        files,
        (#[trigger] entries[j]).new_path@,
        0,
    ) is Some by {
        lemma_file_at(files, entries[j].new_path@, 0);
        assert(results[j] is Ok);
        assert(files[j].path@ == entries[j].new_path@);
    }
    assert forall|j: int|
        #![trigger entries[j]]
        0 <= j < entries.len() && file_at(files, entries[j].new_path@, 0) is Some implies contradiction(
        entries[j],
        files[file_at(files, entries[j].new_path@, 0)->0],
    ) is None by {
        lemma_file_at(files, entries[j].new_path@, 0);
        let k = file_at(files, entries[j].new_path@, 0)->0;
        assert(results[k] is Ok);
        assert(files[k] == results[k]->Ok_0);
    }
}

/// A line that gives a status and a path is read as these, and one that gives the status
/// of a rename or a copy and two paths as the old and the new one.
pub proof fn law_name_status_reads_back(
    status: Seq<char>,
    old_path: Seq<char>,
    new_path: Seq<char>,
)
    requires
        !status.contains('\t'),
        !old_path.contains('\t'),
        !new_path.contains('\t'),
    ensures
        ({
            let two_paths = has_letter(trimmed(status), 'R') || has_letter(trimmed(status), 'C');
            &&& !two_paths ==> name_status_entry(status + seq!['\t'] + new_path) == Some(
                (trimmed(status), trimmed(new_path), trimmed(new_path)),
            )
            &&& two_paths ==> name_status_entry(
                status + seq!['\t'] + (old_path + seq!['\t'] + new_path),
            ) == Some((trimmed(status), trimmed(old_path), trimmed(new_path)))
        }),
{
    lemma_first_field(status, '\t', new_path);
    lemma_first_field(status, '\t', old_path + seq!['\t'] + new_path);
    lemma_first_field(old_path, '\t', new_path);
    lemma_single_field(new_path, '\t');
}

/// A line gives an entry exactly where it has at least two fields, and at least three
/// after a status of a rename or a copy. Status and paths are the fields without the
/// whitespace around them, and only a rename or a copy has two paths.
pub proof fn law_name_status_lines_are_fields(line: Seq<char>)
    ensures
        ({
            let f = fields_of(line, '\t');
            let status = trimmed(f[0]);
            let two = status.len() > 0 && (status[0] == 'R' || status[0] == 'C');
            match name_status_entry(line) {
                Some((s, old_path, new_path)) => {
                    &&& f.len() >= 2
                    &&& s == status
                    &&& old_path == trimmed(f[1])
                    &&& two ==> f.len() >= 3 && new_path == trimmed(f[2])
                    &&& !two ==> new_path == old_path
                },
                None => f.len() < 2 || (two && f.len() < 3),
            }
        }),
{
}

/// Every line that gives an entry does so, in order: a line more adds its entry behind
/// the others, if it gives one.
pub proof fn law_entries_come_in_order(lines: Seq<Seq<char>>, line: Seq<char>)
    ensures
        name_status_entries(Seq::empty()).len() == 0,
        name_status_entries(lines.push(line)) == match name_status_entry(line) {
            Some(entry) => name_status_entries(lines).push(entry),
            None => name_status_entries(lines),
        },
{
    assert(lines.push(line).drop_last() =~= lines);
}

/// An entry is viewed by its status and its two paths.
pub proof fn law_entries_are_viewed_one_for_one(entries: Seq<ChangedEntry>, i: int)
    requires
        0 <= i < entries.len(),
    ensures
        entry_views(entries).len() == entries.len(),
        entry_views(entries)[i] == (
            entries[i].status@,
            entries[i].old_path@,
            entries[i].new_path@,
        ),
{
}

proof fn lemma_failure_at(results: Seq<Result<DifftFile, String>>, from: int, i: int)
    requires
        0 <= from <= i < results.len(),
        results[i] is Err,
        forall|j: int| from <= j < i ==> (#[trigger] results[j]) is Ok,
    ensures
        first_failure(results, from) == Some(results[i]->Err_0@),
    decreases i - from,
{
    if from < i {
        assert(results[from] is Ok);
        lemma_failure_at(results, from + 1, i);
    }
}

proof fn lemma_missing_at(entries: Seq<ChangedEntry>, files: Seq<DifftFile>, from: int, i: int)
    requires
        0 <= from <= i < entries.len(),
        file_at(files, entries[i].new_path@, 0) is None,
        forall|j: int|
            from <= j < i ==> file_at(files, (#[trigger] entries[j]).new_path@, 0) is Some,
    ensures
        missing_entry(entries, files, from) == Some(
            "Integrity: file "@ + entries[i].new_path@
                + " reported by git but missing from diff output"@,
        ),
    decreases i - from,
{
    if from < i {
        assert(file_at(files, entries[from].new_path@, 0) is Some);
        lemma_missing_at(entries, files, from + 1, i);
    }
}

/// The first file that failed is why the batch fails, with its own message.
pub proof fn law_first_failure_is_told(
    entries: Seq<ChangedEntry>,
    results: Seq<Result<DifftFile, String>>,
    i: int,
)
    requires
        0 <= i < results.len(),
        results[i] is Err,
        forall|j: int| 0 <= j < i ==> (#[trigger] results[j]) is Ok,
    ensures
        batch_failure(entries, results) == Some(results[i]->Err_0@),
{
    lemma_failure_at(results, 0, i);
}

/// Where no file failed but there are more or fewer files than entries, both numbers are
/// told.
pub proof fn law_other_number_of_files_is_told(
    entries: Seq<ChangedEntry>,
    results: Seq<Result<DifftFile, String>>,
)
    requires
        forall|j: int| 0 <= j < results.len() ==> (#[trigger] results[j]) is Ok,
        results.len() != entries.len(),
    ensures
        batch_failure(entries, results) == Some(
            "Integrity: git reported "@ + decimal(entries.len()) + " files but diff produced "@
                + decimal(results.len()),
        ),
{
    lemma_no_failure(results, 0);
}

/// A file of the results has the path.
pub open spec fn has_file(results: Seq<Result<DifftFile, String>>, path: Seq<char>) -> bool {
    exists|k: int|
        0 <= k < results.len() && (#[trigger] results[k] matches Ok(file) && same_path(
            file.path@,
            path,
        ))
}

proof fn lemma_has_file(results: Seq<Result<DifftFile, String>>, path: Seq<char>)
    requires
        forall|j: int| 0 <= j < results.len() ==> (#[trigger] results[j]) is Ok,
    ensures
        has_file(results, path) <==> file_at(result_files(results), path, 0) is Some,
{
    let files = result_files(results);
    lemma_file_at(files, path, 0);
    match file_at(files, path, 0) {
        Some(k) => {
            assert(results[k] is Ok);
            assert(files[k] == results[k]->Ok_0);
        },
        None => {
            if has_file(results, path) {
                let k = choose|k: int|
                    0 <= k < results.len() && (#[trigger] results[k] matches Ok(file) && same_path(
                        file.path@,
                        path,
                    ));
                assert(files[k] == results[k]->Ok_0);
            }
        },
    }
}

/// Where no file failed and there are as many as entries, the first entry whose path no
/// file has is told.
pub proof fn law_first_missing_file_is_told(
    entries: Seq<ChangedEntry>,
    results: Seq<Result<DifftFile, String>>,
    i: int,
)
    requires
        forall|j: int| 0 <= j < results.len() ==> (#[trigger] results[j]) is Ok,
        results.len() == entries.len(),
        0 <= i < entries.len(),
        !has_file(results, entries[i].new_path@),
        forall|j: int| 0 <= j < i ==> has_file(results, (#[trigger] entries[j]).new_path@),
    ensures
        batch_failure(entries, results) == Some(
            "Integrity: file "@ + entries[i].new_path@
                + " reported by git but missing from diff output"@,
        ),
{
    let files = result_files(results);
    lemma_no_failure(results, 0);
    lemma_has_file(results, entries[i].new_path@);
    assert forall|j: int| 0 <= j < i implies file_at(
        files,
        (#[trigger] entries[j]).new_path@,
        0,
    ) is Some by {
        lemma_has_file(results, entries[j].new_path@);
    }
    lemma_missing_at(entries, files, 0, i);
}

/// The first file of the results that has the path of an entry says the opposite of git:
/// it was deleted, where git says added, or created, where git says deleted.
#[verifier::opaque]
pub open spec fn contradicts(entry: ChangedEntry, results: Seq<Result<DifftFile, String>>) -> bool {
    exists|k: int|
        0 <= k < results.len() && same_path(
            (#[trigger] results[k])->Ok_0.path@,
            entry.new_path@,
        ) && (forall|j: int|
            0 <= j < k ==> !same_path((#[trigger] results[j])->Ok_0.path@, entry.new_path@))
            && entry.status@.len() > 0 && ((entry.status@[0] == 'A' && results[k]->Ok_0.status
            == Status::Deleted) || (entry.status@[0] == 'D' && results[k]->Ok_0.status
            == Status::Created))
}

proof fn lemma_contradicts(entry: ChangedEntry, results: Seq<Result<DifftFile, String>>)
    ensures
        contradicts(entry, results) <==> (file_at(
            result_files(results),
            entry.new_path@,
            0,
        ) matches Some(k) && contradiction(entry, result_files(results)[k]) is Some),
{
    reveal(contradicts);
    let files = result_files(results);
    let path = entry.new_path@;
    lemma_file_at(files, path, 0);
    assert forall|j: int| 0 <= j < results.len() implies files[j] == (
    #[trigger] results[j])->Ok_0 by {}
    match file_at(files, path, 0) {
        Some(k) => {
            assert(files[k] == results[k]->Ok_0);
            assert forall|j: int| 0 <= j < k implies !same_path(
                (#[trigger] results[j])->Ok_0.path@,
                path,
            ) by {
                assert(files[j] == results[j]->Ok_0);
            }
            if contradicts(entry, results) {
                let m = choose|m: int|
                    0 <= m < results.len() && same_path(
                        (#[trigger] results[m])->Ok_0.path@,
                        path,
                    ) && (forall|j: int|
                        0 <= j < m ==> !same_path((#[trigger] results[j])->Ok_0.path@, path))
                        && entry.status@.len() > 0 && ((entry.status@[0] == 'A'
                        && results[m]->Ok_0.status == Status::Deleted) || (entry.status@[0] == 'D'
                        && results[m]->Ok_0.status == Status::Created));
                assert(files[m] == results[m]->Ok_0);
                assert(m == k) by {
                    if k < m {
                        assert(!same_path(results[k]->Ok_0.path@, path));
                    }
                    if m < k {
                        assert(!same_path(results[m]->Ok_0.path@, path));
                    }
                }
            }
        },
        None => {
            if contradicts(entry, results) {
                let m = choose|m: int|
                    0 <= m < results.len() && same_path(
                        (#[trigger] results[m])->Ok_0.path@,
                        path,
                    ) && (forall|j: int|
                        0 <= j < m ==> !same_path((#[trigger] results[j])->Ok_0.path@, path))
                        && entry.status@.len() > 0 && ((entry.status@[0] == 'A'
                        && results[m]->Ok_0.status == Status::Deleted) || (entry.status@[0] == 'D'
                        && results[m]->Ok_0.status == Status::Created));
                assert(files[m] == results[m]->Ok_0);
            }
        },
    }
}

proof fn lemma_contradiction_at(
    entries: Seq<ChangedEntry>,
    results: Seq<Result<DifftFile, String>>,
    from: int,
    i: int,
)
    requires
        0 <= from <= i < entries.len(),
        contradicts(entries[i], results),
        forall|j: int| from <= j < i ==> !contradicts(#[trigger] entries[j], results),
    ensures
        first_contradiction(entries, result_files(results), from) == Some(
            "Integrity: git says "@ + entries[i].new_path@ + (if entries[i].status@[0] == 'A' {
                " is Added but difft says Deleted"@
            } else {
                " is Deleted but difft says Created"@
            }),
        ),
    decreases i - from,
{
    lemma_contradicts(entries[from], results);
    if from < i {
        assert(!contradicts(entries[from], results));
        lemma_contradiction_at(entries, results, from + 1, i);
    }
}

/// Where no file failed or is missing, the first entry that a file contradicts is told.
pub proof fn law_first_contradiction_is_told(
    entries: Seq<ChangedEntry>,
    results: Seq<Result<DifftFile, String>>,
    i: int,
)
    requires
        forall|j: int| 0 <= j < results.len() ==> (#[trigger] results[j]) is Ok,
        results.len() == entries.len(),
        forall|j: int|
            0 <= j < entries.len() ==> has_file(results, (#[trigger] entries[j]).new_path@),
        0 <= i < entries.len(),
        contradicts(entries[i], results),
        forall|j: int| 0 <= j < i ==> !contradicts(#[trigger] entries[j], results),
    ensures
        batch_failure(entries, results) == Some(
            "Integrity: git says "@ + entries[i].new_path@ + (if entries[i].status@[0] == 'A' {
                " is Added but difft says Deleted"@
            } else {
                " is Deleted but difft says Created"@
            }),
        ),
{
    let files = result_files(results);
    lemma_no_failure(results, 0);
    assert forall|j: int| 0 <= j < entries.len() implies file_at(
        files,
        (#[trigger] entries[j]).new_path@,
        0,
    ) is Some by {
        lemma_has_file(results, entries[j].new_path@);
    }
    lemma_none_missing(entries, files, 0);
    lemma_contradiction_at(entries, results, 0, i);
}

/// A batch does not fail exactly where no file failed, there are as many files as
/// entries, every entry has a file under its path, and none is contradicted. Its files
/// are then those of the results, in order.
pub proof fn law_batch_fails_exactly_where_something_is_wrong(
    entries: Seq<ChangedEntry>,
    results: Seq<Result<DifftFile, String>>,
)
    ensures
        batch_failure(entries, results) is None <==> {
            &&& forall|j: int| 0 <= j < results.len() ==> (#[trigger] results[j]) is Ok
            &&& results.len() == entries.len()
            &&& forall|j: int|
                0 <= j < entries.len() ==> has_file(results, (#[trigger] entries[j]).new_path@)
            &&& forall|j: int|
                0 <= j < entries.len() ==> !contradicts(#[trigger] entries[j], results)
        },
        batch_failure(entries, results) is None ==> result_files(results).len() == results.len()
            && forall|j: int|
            0 <= j < results.len() ==> Ok::<DifftFile, String>(
                #[trigger] result_files(results)[j],
            ) == results[j],
{
    lemma_no_failure(results, 0);
    lemma_all_have_files(entries, results);
    lemma_none_contradicts(entries, results, 0);
    if batch_failure(entries, results) is None {
        assert forall|j: int| 0 <= j < results.len() implies Ok::<DifftFile, String>(
            #[trigger] result_files(results)[j],
        ) == results[j] by {
            assert(results[j] is Ok);
        }
    }
}

proof fn lemma_all_have_files(
    entries: Seq<ChangedEntry>,
    results: Seq<Result<DifftFile, String>>,
)
    ensures
        (forall|j: int| 0 <= j < results.len() ==> (#[trigger] results[j]) is Ok) ==> (
        missing_entry(entries, result_files(results), 0) is None <==> (forall|j: int|
            0 <= j < entries.len() ==> has_file(results, (#[trigger] entries[j]).new_path@))),
{
    if forall|j: int| 0 <= j < results.len() ==> (#[trigger] results[j]) is Ok {
        lemma_none_missing(entries, result_files(results), 0);
        assert forall|j: int| 0 <= j < entries.len() implies (has_file(
            results,
            (#[trigger] entries[j]).new_path@,
        ) <==> file_at(result_files(results), entries[j].new_path@, 0) is Some) by {
            lemma_has_file(results, entries[j].new_path@);
        }
    }
}

proof fn lemma_none_contradicts(
    entries: Seq<ChangedEntry>,
    results: Seq<Result<DifftFile, String>>,
    i: int,
)
    requires
        0 <= i,
    ensures
        first_contradiction(entries, result_files(results), i) is None <==> (forall|j: int|
            i <= j < entries.len() ==> !contradicts(#[trigger] entries[j], results)),
    decreases entries.len() - i,
{
    if i < entries.len() {
        lemma_contradicts(entries[i], results);
        lemma_none_contradicts(entries, results, i + 1);
    }
}

/// A side that git says is not there is empty. Else it is what was fetched, and where
/// nothing was fetched, that is told with the revision and the path.
pub proof fn law_missing_sides_are_empty(
    entry: ChangedEntry,
    revision: Seq<char>,
    content: Seq<char>,
)
    ensures
        ({
            let added = entry.status@.len() > 0 && entry.status@[0] == 'A';
            let deleted = entry.status@.len() > 0 && entry.status@[0] == 'D';
            let empty = Ok::<Seq<char>, Seq<char>>(Seq::empty());
            let fetched = Ok::<Seq<char>, Seq<char>>(content);
            &&& added ==> old_side(entry, revision, Some(content)) == empty && old_side(
                entry,
                revision,
                None,
            ) == empty
            &&& deleted ==> new_side(entry, revision, Some(content)) == empty && new_side(
                entry,
                revision,
                None,
            ) == empty
            &&& !added ==> old_side(entry, revision, Some(content)) == fetched && old_side(
                entry,
                revision,
                None,
            ) == Err::<Seq<char>, Seq<char>>(
                entry.new_path@ + ": failed to fetch old content from "@ + revision + ":"@
                    + entry.old_path@,
            )
            &&& !deleted ==> new_side(entry, revision, Some(content)) == fetched && new_side(
                entry,
                revision,
                None,
            ) == Err::<Seq<char>, Seq<char>>(
                entry.new_path@ + ": failed to fetch new content from "@ + revision + ":"@
                    + entry.new_path@,
            )
        }),
{
}

/// The code of a command that was ended by a signal is told as minus one, and else the
/// code is the one that it exited with.
pub proof fn law_exit_codes_are_as_told(output: CommandOutput)
    ensures
        difft_code(output) == match output.code {
            Some(code) => code as int,
            None => -1int,
        },
{
}

/// The steps go by their names.
pub proof fn law_steps_go_by_their_names()
    ensures
        step_text(FileStep::TempDir) == "temp dir"@,
        step_text(FileStep::OldDir) == "old dir"@,
        step_text(FileStep::NewDir) == "new dir"@,
        step_text(FileStep::WriteOld) == "write old"@,
        step_text(FileStep::WriteNew) == "write new"@,
        step_text(FileStep::RunDifft) == "difft failed to run"@,
{
}

/// A file is written under its own name, and under `file` where it has none.
pub proof fn law_files_are_written_under_their_names(path: Seq<char>, name: Seq<char>)
    ensures
        file_name_of(path) == Some(name) && name.len() > 0 ==> temp_name_of(path) == name,
        file_name_of(path) is None ==> temp_name_of(path) == "file"@,
        temp_name_of(path).len() > 0,
{
    reveal_strlit("file");
}

/// A report keeps all that it says but for the path, which is that of git.
pub proof fn law_reports_keep_all_but_the_path(file: DifftFile, path: String)
    ensures
        ({
            let kept = with_path(file, path);
            &&& kept.path == path
            &&& kept.language == file.language
            &&& kept.status == file.status
            &&& kept.aligned_lines == file.aligned_lines
            &&& kept.chunks == file.chunks
        }),
{
}

/// What is wrong with the files of a batch is what is wrong with the batch where every
/// file was compared.
pub proof fn law_compared_files_are_checked(
    entries: Seq<ChangedEntry>,
    results: Seq<Result<DifftFile, String>>,
    files: Seq<DifftFile>,
)
    requires
        results.len() == files.len(),
        forall|i: int| 0 <= i < files.len() ==> #[trigger] results[i] == Ok::<DifftFile, String>(
            files[i],
        ),
    ensures
        integrity_failure(entries, files) == batch_failure(entries, results),
{
    lemma_no_failure(results, 0);
    assert(result_files(results) =~= files);
}

} // verus!
