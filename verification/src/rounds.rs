//! The runs of a benchmark, one after the other.
//!
//! A benchmark says which way of making the diff is run next. Whoever runs it hands back
//! what came out and how long it took, until there is something to report.

use vstd::prelude::*;

use crate::difft::DifftFile;

verus! {

/// What is to be done next.
#[derive(Debug, PartialEq, Eq)]
pub enum BenchmarkStage {
    /// Run the sequential diff.
    RunSequential,
    /// Run the parallel diff.
    RunParallel,
    /// Report: every run is done.
    Report,
    /// Give up, with a message.
    Failed(String),
}

/// A run that gave files, and the milliseconds that it took.
#[derive(Debug, PartialEq, Eq)]
pub struct TimedRun {
    pub files: Vec<DifftFile>,
    pub millis: u64,
}

/// A benchmark: the files of the first run of each way, and the times of all runs.
#[derive(Debug, PartialEq, Eq)]
pub struct Benchmark {
    pub iterations: u32,
    pub current: Vec<DifftFile>,
    pub parallel: Vec<DifftFile>,
    pub current_times: Vec<u64>,
    pub parallel_times: Vec<u64>,
    pub stage: BenchmarkStage,
}

/// How often each way is run: as often as asked for, and at least once, since the files
/// of a first run are what is compared.
pub open spec fn rounds(iterations: u32) -> nat {
    if iterations == 0 {
        1
    } else {
        iterations as nat
    }
}

/// What every benchmark keeps: the two ways take turns, and there is a report exactly
/// after all rounds of both.
pub open spec fn is_valid(b: Benchmark) -> bool {
    let current = b.current_times@.len();
    let parallel = b.parallel_times@.len();
    let all = rounds(b.iterations);
    match b.stage {
        BenchmarkStage::RunSequential => current == parallel && current < all,
        BenchmarkStage::RunParallel => current == parallel + 1 && current <= all,
        BenchmarkStage::Report => current == all && parallel == all,
        BenchmarkStage::Failed(_) => current <= all && parallel < all,
    }
}

/// The files of the first run, and after it the same.
pub open spec fn first_files(
    before: Seq<DifftFile>,
    times: Seq<u64>,
    files: Seq<DifftFile>,
) -> Seq<DifftFile> {
    if times.len() == 0 {
        files
    } else {
        before
    }
}

/// What the outcome of a run makes of a benchmark. A failure ends it with its message; a
/// benchmark that is at its end stays as it is.
pub open spec fn stepped(
    before: Benchmark,
    outcome: Result<TimedRun, String>,
    after: Benchmark,
) -> bool {
    &&& after.iterations == before.iterations
    &&& match (before.stage, outcome) {
        (BenchmarkStage::RunSequential, Ok(run)) => {
            &&& after.stage is RunParallel
            &&& after.current_times@ == before.current_times@.push(run.millis)
            &&& after.current@ == first_files(
                before.current@,
                before.current_times@,
                run.files@,
            )
            &&& after.parallel_times == before.parallel_times
            &&& after.parallel == before.parallel
        },
        (BenchmarkStage::RunParallel, Ok(run)) => {
            &&& after.stage == if after.parallel_times@.len() < rounds(before.iterations) {
                BenchmarkStage::RunSequential
            } else {
                BenchmarkStage::Report
            }
            &&& after.parallel_times@ == before.parallel_times@.push(run.millis)
            &&& after.parallel@ == first_files(
                before.parallel@,
                before.parallel_times@,
                run.files@,
            )
            &&& after.current_times == before.current_times
            &&& after.current == before.current
        },
        (BenchmarkStage::RunSequential | BenchmarkStage::RunParallel, Err(message)) => {
            after == Benchmark { stage: BenchmarkStage::Failed(message), ..before }
        },
        _ => after == before,
    }
}

impl Benchmark {
    /// A benchmark of which nothing is done.
    pub fn new(iterations: u32) -> (r: Self)
        ensures
            r.iterations == iterations,
            r.current@.len() == 0,
            r.parallel@.len() == 0,
            r.current_times@.len() == 0,
            r.parallel_times@.len() == 0,
            r.stage is RunSequential,
            is_valid(r),
    {
        Benchmark {
            iterations,
            current: Vec::new(),
            parallel: Vec::new(),
            current_times: Vec::new(),
            parallel_times: Vec::new(),
            stage: BenchmarkStage::RunSequential,
        }
    }

    /// The benchmark after a run.
    pub fn step(self, outcome: Result<TimedRun, String>) -> (r: Self)
        ensures
            stepped(self, outcome, r),
            is_valid(self) ==> is_valid(r),
    {
        let mut next = self;
        let sequential = matches!(next.stage, BenchmarkStage::RunSequential);
        let parallel = matches!(next.stage, BenchmarkStage::RunParallel);
        match outcome {
            Ok(run) => {
                if sequential {
                    if next.current_times.len() == 0 {
                        next.current = run.files;
                    }
                    next.current_times.push(run.millis);
                    next.stage = BenchmarkStage::RunParallel;
                } else if parallel {
                    if next.parallel_times.len() == 0 {
                        next.parallel = run.files;
                    }
                    next.parallel_times.push(run.millis);
                    next.stage = if (next.parallel_times.len() as u64) < (next.iterations as u64) {
                        BenchmarkStage::RunSequential
                    } else {
                        BenchmarkStage::Report
                    };
                }
            },
            Err(message) => {
                if sequential || parallel {
                    next.stage = BenchmarkStage::Failed(message);
                }
            },
        }
        next
    }
}

/// How many runs are done.
pub open spec fn runs_done(b: Benchmark) -> nat {
    b.current_times@.len() + b.parallel_times@.len()
}

/// The benchmark still asks for a run.
pub open spec fn is_running(b: Benchmark) -> bool {
    b.stage is RunSequential || b.stage is RunParallel
}

/// A report is made only after as many successful runs of each way as were asked for,
/// and then after no more than that, but for the one that there always is.
pub proof fn law_report_follows_all_runs(b: Benchmark)
    requires
        is_valid(b),
        b.stage is Report,
    ensures
        b.current_times@.len() == rounds(b.iterations),
        b.parallel_times@.len() == rounds(b.iterations),
        b.iterations > 0 ==> b.current_times@.len() == b.iterations && b.parallel_times@.len()
            == b.iterations,
        b.current_times@.len() > 0,
        b.parallel_times@.len() > 0,
{
}

/// The first failure ends a benchmark, with its message and without a report, and
/// nothing else does.
pub proof fn law_first_failure_ends_the_benchmark(
    before: Benchmark,
    outcome: Result<TimedRun, String>,
    after: Benchmark,
)
    requires
        is_running(before),
        stepped(before, outcome, after),
    ensures
        outcome matches Err(message) ==> after.stage == BenchmarkStage::Failed(message),
        after.stage is Failed <==> outcome is Err,
{
}

/// Every run that succeeds brings a benchmark one run closer to its report, which comes
/// after twice the rounds.
pub proof fn law_benchmark_comes_to_an_end(
    before: Benchmark,
    outcome: Result<TimedRun, String>,
    after: Benchmark,
)
    requires
        is_valid(before),
        is_running(before),
        stepped(before, outcome, after),
        outcome is Ok,
    ensures
        runs_done(after) == runs_done(before) + 1,
        runs_done(after) <= 2 * rounds(before.iterations),
        after.stage is Report <==> runs_done(after) == 2 * rounds(before.iterations),
{
}

/// What is compared is what the first runs gave: later ones change nothing of it.
pub proof fn law_first_runs_are_compared(
    before: Benchmark,
    outcome: Result<TimedRun, String>,
    after: Benchmark,
)
    requires
        stepped(before, outcome, after),
    ensures
        before.current_times@.len() > 0 ==> after.current@ == before.current@,
        before.parallel_times@.len() > 0 ==> after.parallel@ == before.parallel@,
{
}

/// A run that succeeds adds its time to those of the way that was run, and to no other.
/// The files of the first run of a way are taken, and of no later one.
pub proof fn law_runs_add_their_times(before: Benchmark, run: TimedRun, after: Benchmark)
    requires
        stepped(before, Ok(run), after),
        is_running(before),
    ensures
        after.iterations == before.iterations,
        before.stage is RunSequential ==> {
            &&& after.stage is RunParallel
            &&& after.current_times@ == before.current_times@.push(run.millis)
            &&& after.parallel_times@ == before.parallel_times@
            &&& before.current_times@.len() == 0 ==> after.current@ == run.files@
            &&& before.current_times@.len() > 0 ==> after.current@ == before.current@
            &&& after.parallel@ == before.parallel@
        },
        before.stage is RunParallel ==> {
            &&& after.stage is RunSequential || after.stage is Report
            &&& after.parallel_times@ == before.parallel_times@.push(run.millis)
            &&& after.current_times@ == before.current_times@
            &&& before.parallel_times@.len() == 0 ==> after.parallel@ == run.files@
            &&& before.parallel_times@.len() > 0 ==> after.parallel@ == before.parallel@
            &&& after.current@ == before.current@
        },
{
}

/// A benchmark that was reported or given up stays as it is, whatever comes.
pub proof fn law_ended_benchmarks_stay(
    before: Benchmark,
    outcome: Result<TimedRun, String>,
    after: Benchmark,
)
    requires
        stepped(before, outcome, after),
        !is_running(before),
    ensures
        after == before,
{
}

/// Each way is run as often as asked for, and once where that is never.
pub proof fn law_rounds_are_as_asked(iterations: u32)
    ensures
        iterations > 0 ==> rounds(iterations) == iterations,
        rounds(0) == 1,
{
}

/// A run that fails loses nothing of what was timed before.
pub proof fn law_failures_keep_the_times(before: Benchmark, message: String, after: Benchmark)
    requires
        stepped(before, Err(message), after),
    ensures
        after.iterations == before.iterations,
        after.current == before.current,
        after.parallel == before.parallel,
        after.current_times == before.current_times,
        after.parallel_times == before.parallel_times,
{
}

} // verus!
