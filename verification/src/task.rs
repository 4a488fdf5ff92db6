//! Comparing one file between two revisions, step by step.
//!
//! A task says what is to be done next. Whoever does it tells the task what came of it,
//! until the task is finished.

use vstd::prelude::*;

use crate::command::{lossy_text, printed, runs, successful_output, CommandLine, CommandOutput};
use crate::difft::{DifftFile, Status};
use crate::language::language_of;
use crate::number::{decimal, signed_decimal};
use crate::parallel::{
    accept_report, batch_failure, collect_files, difft_code, difft_reply, has_letter,
    law_no_partial_results, new_content, new_content_command, new_side, old_content,
    old_content_command, old_side, result_files, step_failure, step_text, temp_name, temp_name_of,
    unchanged_file, with_path, ChangedEntry, DifftReply, FileStep,
};
use crate::path::file_name_of;
use crate::text::{is_whitespace, law_trimming_takes_off_whitespace, texts, trimmed};
use crate::vcs::difft_command;

verus! {

/// What is to be done next.
#[derive(Debug, PartialEq, Eq)]
pub enum FileStage {
    /// Make the directory of the task.
    MakeSlot,
    /// Make the directory of the old file.
    MakeOld,
    /// Make the directory of the new file.
    MakeNew,
    /// Fetch the old content.
    FetchOld(CommandLine),
    /// Fetch the new content.
    FetchNew { old_content: String, command: CommandLine },
    /// Write the old file.
    WriteOld { path: String, content: String, new_content: String },
    /// Write the new file.
    WriteNew { path: String, content: String },
    /// Run difftastic on the two files.
    Compare(CommandLine),
    /// Parse what difftastic reported.
    Parse(String),
    /// Nothing: this is the result.
    Finished(Result<DifftFile, String>),
}

/// What came of it.
#[derive(Debug, PartialEq, Eq)]
pub enum FileEvent {
    /// It was done.
    Done,
    /// It failed.
    Failed(String),
    /// The command that fetches content ran, or could not be run.
    Fetched(Option<CommandOutput>),
    /// Difftastic ran.
    Compared(CommandOutput),
    /// The report was parsed, or could not be parsed.
    Parsed(Result<Vec<DifftFile>, String>),
}

/// The comparison of one file.
#[derive(Debug, PartialEq, Eq)]
pub struct FileTask {
    pub entry: ChangedEntry,
    pub old_ref: String,
    pub new_ref: String,
    /// The directory of the task.
    pub slot: String,
    pub stage: FileStage,
}

/// The task is over, with a message.
pub open spec fn fails(stage: FileStage, message: Seq<char>) -> bool {
    stage matches FileStage::Finished(Err(m)) && m@ == message
}

/// The task is over, since a step failed.
pub open spec fn fails_at(
    stage: FileStage,
    entry: ChangedEntry,
    step: FileStep,
    error: Seq<char>,
) -> bool {
    fails(stage, entry.new_path@ + ": "@ + step_text(step) + ": "@ + error)
}

/// Where the temporary copy of the old file stands.
pub open spec fn old_temp(slot: Seq<char>, entry: ChangedEntry) -> Seq<char> {
    slot + "/old/"@ + temp_name_of(entry.old_path@)
}

/// Where the temporary copy of the new file stands.
pub open spec fn new_temp(slot: Seq<char>, entry: ChangedEntry) -> Seq<char> {
    slot + "/new/"@ + temp_name_of(entry.new_path@)
}

/// The files are written next.
pub open spec fn writes(
    stage: FileStage,
    slot: Seq<char>,
    entry: ChangedEntry,
    old_text: Seq<char>,
    new_text: Seq<char>,
) -> bool {
    stage matches FileStage::WriteOld { path, content, new_content } && path@ == old_temp(
        slot,
        entry,
    ) && content@ == old_text && new_content@ == new_text
}

/// The new content is fetched next, unless there is none.
pub open spec fn goes_for_new(
    stage: FileStage,
    slot: Seq<char>,
    entry: ChangedEntry,
    new_ref: Seq<char>,
    old_text: Seq<char>,
) -> bool {
    if has_letter(entry.status@, 'D') {
        writes(stage, slot, entry, old_text, Seq::empty())
    } else {
        stage matches FileStage::FetchNew { old_content, command } && old_content@ == old_text
            && runs(command, "git"@, seq!["show"@, new_ref + ":"@ + entry.new_path@], false)
    }
}

/// The old content is fetched next, unless there is none.
pub open spec fn goes_for_old(
    stage: FileStage,
    slot: Seq<char>,
    entry: ChangedEntry,
    old_ref: Seq<char>,
    new_ref: Seq<char>,
) -> bool {
    if has_letter(entry.status@, 'A') {
        goes_for_new(stage, slot, entry, new_ref, Seq::empty())
    } else {
        stage matches FileStage::FetchOld(command) && runs(
            command,
            "git"@,
            seq!["show"@, old_ref + ":"@ + entry.old_path@],
            false,
        )
    }
}

/// What difftastic answered is taken: a failure, nothing, or a report to parse.
pub open spec fn takes_reply(
    stage: FileStage,
    entry: ChangedEntry,
    output: CommandOutput,
) -> bool {
    if difft_code(output) != 0 && difft_code(output) != 1 {
        fails(
            stage,
            entry.new_path@ + ": difft exited with code "@ + signed_decimal(difft_code(output))
                + ": "@ + lossy_text(output.stderr@),
        )
    } else if trimmed(lossy_text(output.stdout@)).len() == 0 {
        stage matches FileStage::Finished(Ok(file)) && {
            &&& file.path@ == entry.new_path@
            &&& file.language@ == language_of(entry.new_path@)
            &&& file.status == Status::Unchanged
            &&& file.aligned_lines@.len() == 0
            &&& file.chunks@.len() == 0
        }
    } else {
        stage matches FileStage::Parse(json) && json@ == lossy_text(output.stdout@)
    }
}

/// What was parsed is taken: the one file, under the path that git knows it by.
pub open spec fn takes_report(
    stage: FileStage,
    entry: ChangedEntry,
    parsed: Result<Vec<DifftFile>, String>,
) -> bool {
    match parsed {
        Ok(files) => if files@.len() == 1 {
            stage == FileStage::Finished(Ok(with_path(files@[0], entry.new_path)))
        } else {
            fails(
                stage,
                entry.new_path@ + ": expected 1 file from difft, got "@ + decimal(files@.len()),
            )
        },
        Err(error) => fails(stage, entry.new_path@ + ": JSON parse error: "@ + error@),
    }
}

/// The event tells what came of the stage.
pub open spec fn fits(stage: FileStage, event: FileEvent) -> bool {
    match stage {
        FileStage::MakeSlot
        | FileStage::MakeOld
        | FileStage::MakeNew
        | FileStage::WriteOld { .. }
        | FileStage::WriteNew { .. } => event is Done || event is Failed,
        FileStage::FetchOld(_) | FileStage::FetchNew { .. } => event is Fetched,
        FileStage::Compare(_) => event is Compared || event is Failed,
        FileStage::Parse(_) => event is Parsed,
        FileStage::Finished(_) => false,
    }
}

/// What an event makes of a task. One that does not tell what came of the stage changes
/// nothing.
pub open spec fn stepped(before: FileTask, event: FileEvent, after: FileTask) -> bool {
    let entry = before.entry;
    let slot = before.slot@;
    &&& after.entry == entry
    &&& after.slot == before.slot
    &&& after.old_ref == before.old_ref
    &&& after.new_ref == before.new_ref
    &&& match (before.stage, event) {
        (FileStage::MakeSlot, FileEvent::Done) => after.stage is MakeOld,
        (FileStage::MakeSlot, FileEvent::Failed(error)) => fails_at(
            after.stage,
            entry,
            FileStep::TempDir,
            error@,
        ),
        (FileStage::MakeOld, FileEvent::Done) => after.stage is MakeNew,
        (FileStage::MakeOld, FileEvent::Failed(error)) => fails_at(
            after.stage,
            entry,
            FileStep::OldDir,
            error@,
        ),
        (FileStage::MakeNew, FileEvent::Done) => goes_for_old(
            after.stage,
            slot,
            entry,
            before.old_ref@,
            before.new_ref@,
        ),
        (FileStage::MakeNew, FileEvent::Failed(error)) => fails_at(
            after.stage,
            entry,
            FileStep::NewDir,
            error@,
        ),
        (FileStage::FetchOld(_), FileEvent::Fetched(output)) => match old_side(
            entry,
            before.old_ref@,
            printed(output),
        ) {
            Ok(content) => goes_for_new(after.stage, slot, entry, before.new_ref@, content),
            Err(message) => fails(after.stage, message),
        },
        (FileStage::FetchNew { old_content, .. }, FileEvent::Fetched(output)) => match new_side(
            entry,
            before.new_ref@,
            printed(output),
        ) {
            Ok(content) => writes(after.stage, slot, entry, old_content@, content),
            Err(message) => fails(after.stage, message),
        },
        (FileStage::WriteOld { new_content, .. }, FileEvent::Done) => {
            after.stage matches FileStage::WriteNew { path, content } && path@ == new_temp(
                slot,
                entry,
            ) && content == new_content
        },
        (FileStage::WriteOld { .. }, FileEvent::Failed(error)) => fails_at(
            after.stage,
            entry,
            FileStep::WriteOld,
            error@,
        ),
        (FileStage::WriteNew { .. }, FileEvent::Done) => {
            after.stage matches FileStage::Compare(command) && runs(
                command,
                "difft"@,
                seq![old_temp(slot, entry), new_temp(slot, entry)],
                true,
            )
        },
        (FileStage::WriteNew { .. }, FileEvent::Failed(error)) => fails_at(
            after.stage,
            entry,
            FileStep::WriteNew,
            error@,
        ),
        (FileStage::Compare(_), FileEvent::Compared(output)) => takes_reply(
            after.stage,
            entry,
            output,
        ),
        (FileStage::Compare(_), FileEvent::Failed(error)) => fails_at(
            after.stage,
            entry,
            FileStep::RunDifft,
            error@,
        ),
        (FileStage::Parse(_), FileEvent::Parsed(parsed)) => takes_report(
            after.stage,
            entry,
            parsed,
        ),
        (stage, _) => after.stage == stage,
    }
}

/// What every task keeps: content is only fetched where there is some, temporary files
/// have the names of the files, and a result stands under the path that git knows the
/// file by.
pub open spec fn is_valid(task: FileTask) -> bool {
    let entry = task.entry;
    let slot = task.slot@;
    match task.stage {
        FileStage::FetchOld(_) => !has_letter(entry.status@, 'A'),
        FileStage::FetchNew { .. } => !has_letter(entry.status@, 'D'),
        FileStage::WriteOld { path, .. } => path@ == old_temp(slot, entry),
        FileStage::WriteNew { path, .. } => path@ == new_temp(slot, entry),
        FileStage::Compare(command) => runs(
            command,
            "difft"@,
            seq![old_temp(slot, entry), new_temp(slot, entry)],
            true,
        ),
        FileStage::Finished(Ok(file)) => file.path@ == entry.new_path@,
        _ => true,
    }
}

/// Where to write the old file.
fn old_temp_path(slot: &str, entry: &ChangedEntry) -> (r: String)
    ensures
        r@ == old_temp(slot@, *entry),
{
    slot.to_owned().concat("/old/").concat(temp_name(entry.old_path.as_str()).as_str())
}

/// Where to write the new file.
fn new_temp_path(slot: &str, entry: &ChangedEntry) -> (r: String)
    ensures
        r@ == new_temp(slot@, *entry),
{
    slot.to_owned().concat("/new/").concat(temp_name(entry.new_path.as_str()).as_str())
}

/// The stage in which the files are written.
fn write_stage(slot: &str, entry: &ChangedEntry, old_text: String, new_text: String) -> (r:
    FileStage)
    ensures
        writes(r, slot@, *entry, old_text@, new_text@),
{
    FileStage::WriteOld {
        path: old_temp_path(slot, entry),
        content: old_text,
        new_content: new_text,
    }
}

/// The stage in which the new content is fetched, or the next one.
fn new_stage(slot: &str, entry: &ChangedEntry, new_ref: &str, old_text: String) -> (r: FileStage)
    ensures
        goes_for_new(r, slot@, *entry, new_ref@, old_text@),
{
    match new_content_command(entry, new_ref) {
        Some(command) => FileStage::FetchNew { old_content: old_text, command },
        None => write_stage(slot, entry, old_text, String::new()),
    }
}

/// The stage in which the old content is fetched, or the next one.
fn old_stage(slot: &str, entry: &ChangedEntry, old_ref: &str, new_ref: &str) -> (r: FileStage)
    ensures
        goes_for_old(r, slot@, *entry, old_ref@, new_ref@),
{
    match old_content_command(entry, old_ref) {
        Some(command) => FileStage::FetchOld(command),
        None => new_stage(slot, entry, new_ref, String::new()),
    }
}

/// The end of a task at a step that failed.
fn failed_stage(entry: &ChangedEntry, step: FileStep, error: String) -> (r: FileStage)
    ensures
        fails_at(r, *entry, step, error@),
{
    FileStage::Finished(Err(step_failure(entry, step, error.as_str())))
}

/// The stage after difftastic ran.
fn reply_stage(entry: &ChangedEntry, output: &CommandOutput) -> (r: FileStage)
    ensures
        takes_reply(r, *entry, *output),
{
    match difft_reply(entry, output) {
        Ok(DifftReply::Nothing) => FileStage::Finished(Ok(unchanged_file(entry))),
        Ok(DifftReply::Report(json)) => FileStage::Parse(json),
        Err(message) => FileStage::Finished(Err(message)),
    }
}

impl FileTask {
    /// The task at its beginning. Its temporary files stand in the directory `slot`.
    pub fn new(entry: ChangedEntry, old_ref: &str, new_ref: &str, slot: &str) -> (r: Self)
        ensures
            r.entry == entry,
            r.old_ref@ == old_ref@,
            r.new_ref@ == new_ref@,
            r.slot@ == slot@,
            r.stage is MakeSlot,
            is_valid(r),
    {
        FileTask {
            entry,
            old_ref: old_ref.to_owned(),
            new_ref: new_ref.to_owned(),
            slot: slot.to_owned(),
            stage: FileStage::MakeSlot,
        }
    }

    /// The task after an event.
    pub fn step(self, event: FileEvent) -> (r: Self)
        ensures
            stepped(self, event, r),
            is_valid(self) ==> is_valid(r),
    {
        let entry = self.entry;
        let old_ref = self.old_ref;
        let new_ref = self.new_ref;
        let slot = self.slot;
        let stage = match (self.stage, event) {
            (FileStage::MakeSlot, FileEvent::Done) => FileStage::MakeOld,
            (FileStage::MakeSlot, FileEvent::Failed(error)) => failed_stage(
                &entry,
                FileStep::TempDir,
                error,
            ),
            (FileStage::MakeOld, FileEvent::Done) => FileStage::MakeNew,
            (FileStage::MakeOld, FileEvent::Failed(error)) => failed_stage(
                &entry,
                FileStep::OldDir,
                error,
            ),
            (FileStage::MakeNew, FileEvent::Done) => old_stage(
                slot.as_str(),
                &entry,
                old_ref.as_str(),
                new_ref.as_str(),
            ),
            (FileStage::MakeNew, FileEvent::Failed(error)) => failed_stage(
                &entry,
                FileStep::NewDir,
                error,
            ),
            (FileStage::FetchOld(_), FileEvent::Fetched(output)) => {
                match old_content(&entry, old_ref.as_str(), successful_output(&output)) {
                    Ok(content) => new_stage(slot.as_str(), &entry, new_ref.as_str(), content),
                    Err(message) => FileStage::Finished(Err(message)),
                }
            },
            (FileStage::FetchNew { old_content, .. }, FileEvent::Fetched(output)) => {
                match new_content(&entry, new_ref.as_str(), successful_output(&output)) {
                    Ok(content) => write_stage(slot.as_str(), &entry, old_content, content),
                    Err(message) => FileStage::Finished(Err(message)),
                }
            },
            (FileStage::WriteOld { new_content, .. }, FileEvent::Done) => {
                FileStage::WriteNew {
                    path: new_temp_path(slot.as_str(), &entry),
                    content: new_content,
                }
            },
            (FileStage::WriteOld { .. }, FileEvent::Failed(error)) => failed_stage(
                &entry,
                FileStep::WriteOld,
                error,
            ),
            (FileStage::WriteNew { .. }, FileEvent::Done) => FileStage::Compare(
                difft_command(
                    old_temp_path(slot.as_str(), &entry).as_str(),
                    new_temp_path(slot.as_str(), &entry).as_str(),
                ),
            ),
            (FileStage::WriteNew { .. }, FileEvent::Failed(error)) => failed_stage(
                &entry,
                FileStep::WriteNew,
                error,
            ),
            (FileStage::Compare(_), FileEvent::Compared(output)) => reply_stage(
                &entry,
                &output,
            ),
            (FileStage::Compare(_), FileEvent::Failed(error)) => failed_stage(
                &entry,
                FileStep::RunDifft,
                error,
            ),
            (FileStage::Parse(_), FileEvent::Parsed(parsed)) => FileStage::Finished(
                accept_report(&entry, parsed),
            ),
            (stage, _) => stage,
        };
        FileTask { entry, old_ref, new_ref, slot, stage }
    }
}

/// How far a task has come.
pub open spec fn progress(stage: FileStage) -> nat {
    match stage {
        FileStage::MakeSlot => 0,
        FileStage::MakeOld => 1,
        FileStage::MakeNew => 2,
        FileStage::FetchOld(_) => 3,
        FileStage::FetchNew { .. } => 4,
        FileStage::WriteOld { .. } => 5,
        FileStage::WriteNew { .. } => 6,
        FileStage::Compare(_) => 7,
        FileStage::Parse(_) => 8,
        FileStage::Finished(_) => 9,
    }
}

/// Every event that tells what came of a stage brings the task further, so a task is
/// finished after nine of them at the most.
pub proof fn law_task_comes_to_an_end(before: FileTask, event: FileEvent, after: FileTask)
    requires
        stepped(before, event, after),
        fits(before.stage, event),
    ensures
        progress(before.stage) < progress(after.stage) <= 9,
{
}

/// Any other event changes nothing; in particular a finished task keeps its result.
pub proof fn law_unfit_events_change_nothing(before: FileTask, event: FileEvent, after: FileTask)
    requires
        stepped(before, event, after),
        !fits(before.stage, event),
    ensures
        after == before,
{
}

/// The event tells of a failure: a step that could not be done, content that is not
/// there, an exit code of difftastic other than 0 and 1, or a report that is not on one
/// file.
pub open spec fn tells_failure(event: FileEvent) -> bool {
    match event {
        FileEvent::Done => false,
        FileEvent::Failed(_) => true,
        FileEvent::Fetched(output) => printed(output) is None,
        FileEvent::Compared(output) => difft_code(output) != 0 && difft_code(output) != 1,
        FileEvent::Parsed(Ok(files)) => files@.len() != 1,
        FileEvent::Parsed(Err(_)) => true,
    }
}

/// Nothing is passed over in silence: a task ends with an error exactly where the event
/// tells of a failure.
pub proof fn law_failures_end_the_task(before: FileTask, event: FileEvent, after: FileTask)
    requires
        is_valid(before),
        stepped(before, event, after),
        fits(before.stage, event),
    ensures
        tells_failure(event) <==> after.stage matches FileStage::Finished(Err(_)),
{
}

/// The results of finished tasks, in order.
pub open spec fn task_results(tasks: Seq<FileTask>) -> Seq<Result<DifftFile, String>> {
    tasks.map_values(|task: FileTask| task.stage->Finished_0)
}

/// Every task is finished.
pub open spec fn all_finished(tasks: Seq<FileTask>) -> bool {
    forall|i: int| 0 <= i < tasks.len() ==> (#[trigger] tasks[i]).stage is Finished
}

/// The tasks are those of the entries, in order, and each keeps what a task keeps.
pub open spec fn tasks_of(tasks: Seq<FileTask>, entries: Seq<ChangedEntry>) -> bool {
    &&& tasks.len() == entries.len()
    &&& forall|i: int|
        0 <= i < tasks.len() ==> is_valid(#[trigger] tasks[i]) && tasks[i].entry@ == entries[i]@
}

/// The files stand under the new paths of the entries, one for one.
pub open spec fn one_for_one(files: Seq<DifftFile>, entries: Seq<ChangedEntry>) -> bool {
    &&& files.len() == entries.len()
    &&& forall|i: int|
        0 <= i < files.len() ==> (#[trigger] files[i]).path@ == entries[i].new_path@
}

/// Collects the results of finished tasks. Every entry must have its file, and what
/// comes out must match what git reported.
pub fn collect_tasks(entries: &Vec<ChangedEntry>, tasks: Vec<FileTask>) -> (r: Result<
    Vec<DifftFile>,
    String,
>)
    requires
        all_finished(tasks@),
    ensures
        match r {
            Ok(files) => {
                &&& batch_failure(entries@, task_results(tasks@)) is None
                &&& files@ == result_files(task_results(tasks@))
                &&& tasks_of(tasks@, entries@) ==> one_for_one(files@, entries@)
            },
            Err(message) => batch_failure(entries@, task_results(tasks@)) == Some(message@),
        },
{
    let ghost all = tasks@;
    let mut results: Vec<Result<DifftFile, String>> = Vec::new();
    for task in it: tasks.into_iter()
        invariant
            it.seq() == all,
            all_finished(all),
            results@ == task_results(all).take(it.index()),
    {
        proof {
            assert(all[it.index()] == task);
            assert(task_results(all)[it.index()] == task.stage->Finished_0);
            assert(task_results(all).take(it.index() + 1) =~= task_results(all).take(
                it.index(),
            ).push(task.stage->Finished_0));
        }
        if let FileStage::Finished(result) = task.stage {
            results.push(result);
        }
    }
    proof {
        assert(task_results(all).take(all.len() as int) =~= task_results(all));
        if batch_failure(entries@, task_results(all)) is None && tasks_of(all, entries@) {
            law_results_stand_one_for_one(all, entries@);
        }
    }
    collect_files(entries, results)
}

/// There are no partial results: a batch of the tasks of the entries that does not fail
/// has one file for each entry, in its place and under its new path.
pub proof fn law_results_stand_one_for_one(tasks: Seq<FileTask>, entries: Seq<ChangedEntry>)
    requires
        all_finished(tasks),
        tasks_of(tasks, entries),
        batch_failure(entries, task_results(tasks)) is None,
    ensures
        one_for_one(result_files(task_results(tasks)), entries),
{
    let results = task_results(tasks);
    let files = result_files(results);
    law_no_partial_results(entries, results);
    assert forall|i: int| 0 <= i < files.len() implies (#[trigger] files[i]).path@
        == entries[i].new_path@ by {
        assert(results[i] is Ok);
        assert(is_valid(tasks[i]));
        assert(tasks[i].stage is Finished);
        assert(tasks[i].entry@ == entries[i]@);
    }
}

/// There is nothing but whitespace in the text.
pub open spec fn is_blank(s: Seq<char>) -> bool {
    forall|i: int| 0 <= i < s.len() ==> is_whitespace(#[trigger] s[i])
}

proof fn lemma_blank(s: Seq<char>)
    ensures
        trimmed(s).len() == 0 <==> is_blank(s),
{
    let ends = law_trimming_takes_off_whitespace(s);
    if is_blank(s) && ends.0 < ends.1 {
        assert(is_whitespace(s[ends.0]));
    }
}

/// Exit codes 0 and 1 of difftastic are taken alike: a file is taken as unchanged exactly
/// where nothing but whitespace was printed, and else what was printed is parsed, as it
/// stands. Any other end of difftastic is a failure, with its code, or -1 where it has
/// none, and what it complained of.
pub proof fn law_what_difft_prints_decides(
    before: FileTask,
    output: CommandOutput,
    after: FileTask,
)
    requires
        before.stage is Compare,
        stepped(before, FileEvent::Compared(output), after),
    ensures
        ({
            let printed_text = lossy_text(output.stdout@);
            let valid = output.code == Some(0i32) || output.code == Some(1i32);
            &&& valid && is_blank(printed_text) <==> after.stage is Finished
                && after.stage->Finished_0 is Ok
            &&& valid && !is_blank(printed_text) <==> after.stage is Parse
            &&& after.stage matches FileStage::Parse(json) ==> json@ == printed_text
            &&& after.stage matches FileStage::Finished(Ok(file)) ==> {
                &&& file.status == Status::Unchanged
                &&& file.path@ == before.entry.new_path@
                &&& file.language@ == language_of(before.entry.new_path@)
                &&& file.aligned_lines@.len() == 0
                &&& file.chunks@.len() == 0
            }
            &&& !valid <==> after.stage is Finished && after.stage->Finished_0 is Err
            &&& after.stage matches FileStage::Finished(Err(message)) ==> message@
                == before.entry.new_path@ + ": difft exited with code "@ + (match output.code {
                Some(code) => signed_decimal(code as int),
                None => "-1"@,
            }) + ": "@ + lossy_text(output.stderr@)
        }),
{
    lemma_blank(lossy_text(output.stdout@));
    reveal_strlit("-1");
    assert(signed_decimal(-1) =~= "-1"@);
}

/// A step that could not be done ends the task with its name and the reason.
pub proof fn law_failed_steps_are_named(before: FileTask, error: String, after: FileTask)
    requires
        stepped(before, FileEvent::Failed(error), after),
        fits(before.stage, FileEvent::Failed(error)),
    ensures
        after.stage matches FileStage::Finished(Err(message)) && message@ == before.entry.new_path@
            + ": "@ + (match before.stage {
            FileStage::MakeSlot => "temp dir"@,
            FileStage::MakeOld => "old dir"@,
            FileStage::MakeNew => "new dir"@,
            FileStage::WriteOld { .. } => "write old"@,
            FileStage::WriteNew { .. } => "write new"@,
            _ => "difft failed to run"@,
        }) + ": "@ + error@,
{
}

/// Directories are made one after the other, and what a task is about does not change.
pub proof fn law_directories_come_first(before: FileTask, event: FileEvent, after: FileTask)
    requires
        stepped(before, event, after),
    ensures
        after.entry == before.entry,
        after.old_ref == before.old_ref,
        after.new_ref == before.new_ref,
        after.slot == before.slot,
        event is Done && before.stage is MakeSlot ==> after.stage is MakeOld,
        event is Done && before.stage is MakeOld ==> after.stage is MakeNew,
{
}

/// The command prints a file as of a revision, by git.
pub open spec fn shows(command: CommandLine, revision: Seq<char>, path: Seq<char>) -> bool {
    &&& command.program@ == "git"@
    &&& command.args@.len() == 2
    &&& command.args@[0]@ == "show"@
    &&& command.args@[1]@ == revision + ":"@ + path
    &&& !command.json_output
}

proof fn lemma_shows(command: CommandLine, revision: Seq<char>, path: Seq<char>)
    requires
        runs(command, "git"@, seq!["show"@, revision + ":"@ + path], false),
    ensures
        shows(command, revision, path),
{
    let args = texts(command.args@);
    assert(args.len() == 2);
    assert(args[0] == command.args@[0]@);
    assert(args[1] == command.args@[1]@);
}

/// After the directories the old content is fetched from the old revision. Of an added
/// file there is none, and the new content is fetched from the new revision at once.
pub proof fn law_old_content_is_fetched_first(before: FileTask, after: FileTask)
    requires
        before.stage is MakeNew,
        stepped(before, FileEvent::Done, after),
    ensures
        ({
            let added = before.entry.status@.len() > 0 && before.entry.status@[0] == 'A';
            if added {
                after.stage matches FileStage::FetchNew { old_content, command }
                    && old_content@.len() == 0 && shows(
                    command,
                    before.new_ref@,
                    before.entry.new_path@,
                )
            } else {
                after.stage matches FileStage::FetchOld(command) && shows(
                    command,
                    before.old_ref@,
                    before.entry.old_path@,
                )
            }
        }),
{
    match after.stage {
        FileStage::FetchOld(command) => {
            lemma_shows(command, before.old_ref@, before.entry.old_path@);
        },
        FileStage::FetchNew { old_content, command } => {
            lemma_shows(command, before.new_ref@, before.entry.new_path@);
        },
        _ => {},
    }
}

/// The old content is what git printed, where it succeeded, and is kept while the new
/// content is fetched from the new revision. Of a deleted file there is none, and the
/// files are written at once. Content that git did not print fails the file.
pub proof fn law_old_content_is_what_git_printed(
    before: FileTask,
    output: Option<CommandOutput>,
    after: FileTask,
)
    requires
        before.stage is FetchOld,
        is_valid(before),
        stepped(before, FileEvent::Fetched(output), after),
    ensures
        ({
            let deleted = before.entry.status@.len() > 0 && before.entry.status@[0] == 'D';
            match output {
                Some(o) => if o.code == Some(0i32) {
                    if deleted {
                        after.stage matches FileStage::WriteOld { content, new_content, .. }
                            && content@ == lossy_text(o.stdout@) && new_content@.len() == 0
                    } else {
                        after.stage matches FileStage::FetchNew { old_content, command }
                            && old_content@ == lossy_text(o.stdout@) && shows(
                            command,
                            before.new_ref@,
                            before.entry.new_path@,
                        )
                    }
                } else {
                    lacks_content(after, "old"@, before.old_ref@, before.entry.old_path@)
                },
                None => lacks_content(after, "old"@, before.old_ref@, before.entry.old_path@),
            }
        }),
{
    if let FileStage::FetchNew { old_content, command } = after.stage {
        lemma_shows(command, before.new_ref@, before.entry.new_path@);
    }
    lemma_lack(before.entry.new_path@, "old"@, before.old_ref@, before.entry.old_path@);
    lemma_lack_literals();
}

/// The task is over: a side of the file could not be fetched.
pub open spec fn lacks_content(
    task: FileTask,
    side: Seq<char>,
    revision: Seq<char>,
    path: Seq<char>,
) -> bool {
    task.stage matches FileStage::Finished(Err(message)) && message@ == task.entry.new_path@
        + ": failed to fetch "@ + side + " content from "@ + revision + ":"@ + path
}

proof fn lemma_lack(path: Seq<char>, side: Seq<char>, revision: Seq<char>, from: Seq<char>)
    ensures
        path + ": failed to fetch "@ + side + " content from "@ + revision + ":"@ + from == path + (
        ": failed to fetch "@ + side + " content from "@) + revision + ":"@ + from,
{
    assert(path + ": failed to fetch "@ + side + " content from "@ =~= path + (
    ": failed to fetch "@ + side + " content from "@));
}

proof fn lemma_lack_literals()
    ensures
        ": failed to fetch "@ + "old"@ + " content from "@
            == ": failed to fetch old content from "@,
        ": failed to fetch "@ + "new"@ + " content from "@
            == ": failed to fetch new content from "@,
{
    reveal_strlit(": failed to fetch ");
    reveal_strlit("old");
    reveal_strlit("new");
    reveal_strlit(" content from ");
    reveal_strlit(": failed to fetch old content from ");
    reveal_strlit(": failed to fetch new content from ");
    assert(": failed to fetch "@ + "old"@ + " content from "@
        =~= ": failed to fetch old content from "@);
    assert(": failed to fetch "@ + "new"@ + " content from "@
        =~= ": failed to fetch new content from "@);
}

/// The new content is what git printed, where it succeeded, and is written behind the
/// old content that was kept. Content that git did not print fails the file.
pub proof fn law_new_content_is_what_git_printed(
    before: FileTask,
    output: Option<CommandOutput>,
    after: FileTask,
)
    requires
        before.stage is FetchNew,
        is_valid(before),
        stepped(before, FileEvent::Fetched(output), after),
    ensures
        match output {
            Some(o) => if o.code == Some(0i32) {
                after.stage matches FileStage::WriteOld { content, new_content, .. } && content@
                    == before.stage->FetchNew_old_content@ && new_content@ == lossy_text(o.stdout@)
            } else {
                lacks_content(after, "new"@, before.new_ref@, before.entry.new_path@)
            },
            None => lacks_content(after, "new"@, before.new_ref@, before.entry.new_path@),
        },
{
    lemma_lack(before.entry.new_path@, "new"@, before.new_ref@, before.entry.new_path@);
    lemma_lack_literals();
}

/// The temporary name of a file: its own, or `file` where it has none.
pub open spec fn is_temp_name(name: Seq<char>, path: Seq<char>) -> bool {
    match file_name_of(path) {
        Some(own) => own.len() > 0 ==> name == own,
        None => name == "file"@,
    }
}

/// The old and the new content are written to two files of their own, each under the
/// name of its side, and difftastic is run on the old one and then the new one, asked
/// for JSON.
pub proof fn law_difft_compares_what_was_written(before: FileTask, after: FileTask)
    requires
        is_valid(before),
        stepped(before, FileEvent::Done, after),
        before.stage is WriteOld || before.stage is WriteNew,
    ensures
        before.stage matches FileStage::WriteOld { path, new_content, .. } ==> {
            &&& exists|name: Seq<char>| #[trigger]
                is_temp_name(name, before.entry.old_path@) && path@ == before.slot@ + "/old/"@
                    + name
            &&& after.stage matches FileStage::WriteNew { content, .. } && content@ == new_content@
        },
        before.stage matches FileStage::WriteNew { path, .. } ==> {
            &&& exists|name: Seq<char>| #[trigger]
                is_temp_name(name, before.entry.new_path@) && path@ == before.slot@ + "/new/"@
                    + name
            &&& after.stage matches FileStage::Compare(command) && {
                &&& command.program@ == "difft"@
                &&& command.json_output
                &&& command.args@.len() == 2
                &&& command.args@[1]@ == path@
                &&& exists|name: Seq<char>| #[trigger]
                    is_temp_name(name, before.entry.old_path@) && command.args@[0]@
                        == before.slot@ + "/old/"@ + name
            }
        },
{
    assert(is_temp_name(temp_name_of(before.entry.old_path@), before.entry.old_path@));
    assert(is_temp_name(temp_name_of(before.entry.new_path@), before.entry.new_path@));
    if let FileStage::Compare(command) = after.stage {
        let args = texts(command.args@);
        assert(args.len() == 2);
        assert(args[0] == command.args@[0]@);
        assert(args[1] == command.args@[1]@);
    }
}

/// A report is taken exactly where it is on one file. Of it everything is kept but the
/// path, which is the one that git knows the file by.
pub proof fn law_one_report_is_taken(
    before: FileTask,
    parsed: Result<Vec<DifftFile>, String>,
    after: FileTask,
)
    requires
        before.stage is Parse,
        stepped(before, FileEvent::Parsed(parsed), after),
    ensures
        ({
            &&& (after.stage is Finished && after.stage->Finished_0 is Ok) <==> (parsed is Ok
                && parsed->Ok_0@.len() == 1)
            &&& after.stage matches FileStage::Finished(Ok(file)) ==> {
                &&& file.path@ == before.entry.new_path@
                &&& file.language == parsed->Ok_0@[0].language
                &&& file.status == parsed->Ok_0@[0].status
                &&& file.aligned_lines == parsed->Ok_0@[0].aligned_lines
                &&& file.chunks == parsed->Ok_0@[0].chunks
            }
            &&& after.stage matches FileStage::Finished(Err(message)) ==> message@
                == before.entry.new_path@ + (match parsed {
                Ok(files) => ": expected 1 file from difft, got "@ + decimal(files@.len()),
                Err(error) => ": JSON parse error: "@ + error@,
            })
            &&& after.stage is Finished
        }),
{
    let path = before.entry.new_path@;
    match parsed {
        Ok(files) => {
            assert(path + ": expected 1 file from difft, got "@ + decimal(files@.len()) =~= path + (
            ": expected 1 file from difft, got "@ + decimal(files@.len())));
        },
        Err(error) => {
            assert(path + ": JSON parse error: "@ + error@ =~= path + (": JSON parse error: "@
                + error@));
        },
    }
}

/// Where every task is done and nothing is wrong with the batch, there is a file for each
/// entry of git, in its place and under its path, and it is the one that its task gave.
pub proof fn law_files_stand_in_the_places_of_their_entries(
    tasks: Seq<FileTask>,
    entries: Seq<ChangedEntry>,
    i: int,
)
    requires
        tasks.len() == entries.len(),
        forall|k: int| 0 <= k < tasks.len() ==> (#[trigger] tasks[k]).stage is Finished,
        forall|k: int| 0 <= k < tasks.len() ==> is_valid(#[trigger] tasks[k]),
        forall|k: int|
            #![trigger tasks[k]]
            0 <= k < tasks.len() ==> {
                &&& tasks[k].entry.status@ == entries[k].status@
                &&& tasks[k].entry.old_path@ == entries[k].old_path@
                &&& tasks[k].entry.new_path@ == entries[k].new_path@
            },
        batch_failure(entries, task_results(tasks)) is None,
        0 <= i < entries.len(),
    ensures
        ({
            let files = result_files(task_results(tasks));
            &&& files.len() == entries.len()
            &&& files[i].path@ == entries[i].new_path@
            &&& tasks[i].stage->Finished_0 == Ok::<DifftFile, String>(files[i])
        }),
{
    assert(tasks_of(tasks, entries));
    assert(all_finished(tasks));
    law_results_stand_one_for_one(tasks, entries);
    law_no_partial_results(entries, task_results(tasks));
    assert(task_results(tasks)[i] is Ok);
}

/// Files and entries stand one for one exactly where there are as many and each has its
/// path.
pub proof fn law_one_for_one_means_each_path_in_its_place(
    files: Seq<DifftFile>,
    entries: Seq<ChangedEntry>,
    i: int,
)
    requires
        one_for_one(files, entries),
    ensures
        files.len() == entries.len(),
        0 <= i < files.len() ==> files[i].path@ == entries[i].new_path@,
{
}

} // verus!
