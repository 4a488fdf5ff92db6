use difftastic_nvim::benchmark::{compare_runs, count_changes, FileComparison};
use difftastic_nvim::compare::{deep_compare_files, deep_compare_sides};
use difftastic_nvim::difft::{Change, DiffLine, DifftFile, Side, Status};
use difftastic_nvim::json::{benchmark_report, Json, TimingReport};
use difftastic_nvim::json_text::write_json;
use difftastic_nvim::report::{require_git, verify_runs};
use difftastic_nvim::rounds::{Benchmark, BenchmarkStage, TimedRun};
use difftastic_nvim::timing::{rank_times, sort_times};

fn text(s: &str) -> String {
    s.to_string()
}

fn change(start: u32, end: u32, content: &str) -> Change {
    Change { start, end, content: text(content), highlight: text("normal") }
}

fn side(line_number: u32, changes: Vec<Change>) -> Side {
    Side { line_number, changes }
}

fn file(path: &str) -> DifftFile {
    DifftFile {
        path: text(path),
        language: text("Rust"),
        status: Status::Changed,
        aligned_lines: vec![(Some(0), Some(0)), (None, Some(1))],
        chunks: vec![vec![DiffLine {
            lhs: Some(side(3, vec![change(0, 2, "fn")])),
            rhs: Some(side(4, vec![change(0, 2, "fn"), change(3, 4, "x")])),
        }]],
    }
}

fn difference(p: &DifftFile) -> Option<String> {
    deep_compare_files(&file("a"), p)
}

#[test]
fn same_reports_do_not_differ() {
    assert_eq!(difference(&file("a")), None);
    assert_eq!(difference(&file("elsewhere")), None);
}

#[test]
fn the_first_difference_of_files_is_told() {
    let mut p = file("a");
    p.status = Status::Created;
    assert_eq!(difference(&p), Some(text("status: Changed vs Created")));

    let mut p = file("a");
    p.language = text("C \"plus\"");
    assert_eq!(difference(&p), Some(text("language: \"Rust\" vs \"C \\\"plus\\\"\"")));

    let mut p = file("a");
    p.aligned_lines.pop();
    assert_eq!(difference(&p), Some(text("aligned_lines count: 2 vs 1")));

    let mut p = file("a");
    p.aligned_lines[1] = (Some(7), None);
    assert_eq!(difference(&p), Some(text("aligned_lines[1]: (None,Some(1)) vs (Some(7),None)")));

    let mut p = file("a");
    p.chunks.push(Vec::new());
    assert_eq!(difference(&p), Some(text("chunk count: 1 vs 2")));

    let mut p = file("a");
    p.chunks[0].push(DiffLine { lhs: None, rhs: None });
    assert_eq!(difference(&p), Some(text("chunk[0] line count: 1 vs 2")));

    let mut p = file("a");
    p.chunks[0][0].lhs = None;
    assert_eq!(difference(&p), Some(text("chunk[0].line[0].lhs: present vs absent")));
    assert_eq!(
        deep_compare_files(&p, &file("a")),
        Some(text("chunk[0].line[0].lhs: absent vs present"))
    );

    let mut p = file("a");
    p.chunks[0][0].rhs = None;
    assert_eq!(difference(&p), Some(text("chunk[0].line[0].rhs: present vs absent")));
    assert_eq!(
        deep_compare_files(&p, &file("a")),
        Some(text("chunk[0].line[0].rhs: absent vs present"))
    );
}

#[test]
fn the_first_difference_of_sides_is_told() {
    let c = side(3, vec![change(0, 2, "fn")]);
    let differ = |p: Side| deep_compare_sides(&c, &p, 5, 6, "lhs");
    assert_eq!(differ(c.clone()), None);
    assert_eq!(
        differ(side(4, Vec::new())),
        Some(text("chunk[5].line[6].lhs.line_number: 3 vs 4"))
    );
    assert_eq!(
        differ(side(3, Vec::new())),
        Some(text("chunk[5].line[6].lhs.changes count: 1 vs 0"))
    );
    assert_eq!(
        differ(side(3, vec![change(1, 2, "fn")])),
        Some(text("chunk[5].line[6].lhs.changes[0].start: 0 vs 1"))
    );
    assert_eq!(
        differ(side(3, vec![change(0, 3, "fn")])),
        Some(text("chunk[5].line[6].lhs.changes[0].end: 2 vs 3"))
    );
    assert_eq!(
        differ(side(3, vec![change(0, 2, "f\n")])),
        Some(text("chunk[5].line[6].lhs.changes[0].content: \"fn\" vs \"f\\n\""))
    );
    let mut other = change(0, 2, "fn");
    other.highlight = text("keyword");
    assert_eq!(
        differ(side(3, vec![other])),
        Some(text("chunk[5].line[6].lhs.changes[0].highlight: \"normal\" vs \"keyword\""))
    );
}

#[test]
fn only_git_is_verified() {
    assert_eq!(require_git("git", "verify"), Ok(()));
    assert_eq!(require_git("jj", "verify"), Err(text("verify only supports git")));
    assert_eq!(require_git("", "benchmark"), Err(text("benchmark only supports git")));
}

#[test]
fn a_run_agrees_with_itself() {
    let run = vec![file("a => b"), file("c")];
    let report = verify_runs(&run, &run);
    assert!(report.passed);
    assert_eq!(report.files, 2);
    assert_eq!(report.message, "All 2 files identical (deep structural comparison)");
}

#[test]
fn runs_are_matched_by_the_new_path() {
    let report = verify_runs(&vec![file("x/{a => b}")], &vec![file("x/b")]);
    assert!(report.passed);
}

#[test]
fn runs_of_different_length_disagree() {
    let report = verify_runs(&vec![file("a"), file("b")], &vec![file("a")]);
    assert!(!report.passed);
    assert_eq!(report.files, 2);
    assert_eq!(report.message, "File count mismatch: sequential=2 parallel=1");
}

#[test]
fn everything_that_is_wrong_is_told() {
    let mut changed = file("b");
    changed.status = Status::Deleted;
    let report = verify_runs(
        &vec![file("a"), file("b"), file("d")],
        &vec![file("c"), changed, file("d")],
    );
    assert!(!report.passed);
    assert_eq!(
        report.message,
        "a: missing from parallel\nb: status: Changed vs Deleted\nc: missing from sequential"
    );
}

#[test]
fn changes_are_counted() {
    assert_eq!(count_changes(&file("a")), Some(3));
    let mut none = file("a");
    none.chunks = Vec::new();
    assert_eq!(count_changes(&none), Some(0));
}

fn some_comparison() -> difftastic_nvim::benchmark::RunComparison {
    let mut changed = file("b");
    changed.language = text("C");
    let current = vec![file("d"), file("b"), file("a"), file("z => c")];
    let parallel = vec![changed, file("c"), file("e")];
    compare_runs(&current, &parallel).unwrap()
}

#[test]
fn runs_are_compared_path_by_path() {
    let comparison = some_comparison();
    assert_eq!(comparison.total_files, 5);
    assert_eq!(comparison.files_matched, 1);
    assert_eq!(comparison.files_mismatched, 1);
    assert_eq!(comparison.only_in_current, 2);
    assert_eq!(comparison.only_in_parallel, 1);
    assert_eq!(comparison.total_chunks, 2);
    assert_eq!(comparison.total_aligned_lines, 4);
    assert_eq!(comparison.total_changes, 6);
    assert!(!comparison.all_identical());
    let results: Vec<String> = comparison.per_file.iter().map(|c| c.result()).collect();
    assert_eq!(
        results,
        vec!["ONLY_IN_CURRENT", "MISMATCH", "MATCH", "ONLY_IN_CURRENT", "ONLY_IN_PARALLEL"]
    );
    assert_eq!(
        comparison.per_file[1],
        FileComparison::Both {
            path: text("b"),
            first_difference: Some(text("language: \"Rust\" vs \"C\"")),
            status_current: Status::Changed,
            status_parallel: Status::Changed,
            language: text("Rust"),
            chunks: 1,
            aligned_lines: 2,
            changes: 3,
        }
    );
    assert_eq!(
        comparison.per_file[4],
        FileComparison::OnlyParallel { path: text("e"), status: Status::Changed }
    );
}

#[test]
fn identical_runs_are_identical() {
    let run = vec![file("a"), file("b")];
    let comparison = compare_runs(&run, &run).unwrap();
    assert!(comparison.all_identical());
    assert_eq!(comparison.files_matched, 2);
    let nothing = compare_runs(&Vec::new(), &Vec::new()).unwrap();
    assert!(nothing.all_identical() && nothing.total_files == 0);
}

#[test]
fn times_are_ranked() {
    assert_eq!(sort_times(vec![3, 1, 2, 1]), vec![1, 1, 2, 3]);
    let one = rank_times(vec![7]);
    assert_eq!((one.min, one.p5, one.p95, one.max), (7, 7, 7, 7));
    let many = rank_times((0..50).rev().collect());
    assert_eq!((many.min, many.p5, many.p95, many.max), (0, 2, 47, 49));
    assert_eq!(many.times, (0..50).collect::<Vec<u64>>());
}

#[test]
fn percentiles_are_where_fractions_of_the_length_are() {
    for len in 1..200u64 {
        let timing = rank_times((0..len).collect());
        assert_eq!(timing.p5, (len as f64 * 0.05) as u64);
        assert_eq!(timing.p95, (len as f64 * 0.95) as u64);
    }
}

fn member<'a>(json: &'a Json, name: &str) -> &'a Json {
    match json {
        Json::Object(members) => &members.iter().find(|m| m.0 == name).unwrap().1,
        _ => panic!("not an object"),
    }
}

#[test]
fn a_benchmark_is_reported() {
    let comparison = some_comparison();
    let timing = |times: Vec<u64>| TimingReport {
        timing: rank_times(times),
        mean: text("1.5"),
        median: text("1.0"),
        stddev: text("0.5"),
    };
    let report = benchmark_report("a..b", 2, &comparison, &timing(vec![2, 1]), &timing(vec![5]));
    assert_eq!(member(&report, "range"), &Json::Text(text("a..b")));
    assert_eq!(member(&report, "iterations"), &Json::Number(2));
    let summary = member(&report, "deep_comparison");
    assert_eq!(member(summary, "total_files"), &Json::Number(5));
    assert_eq!(member(summary, "files_matched"), &Json::Number(1));
    assert_eq!(member(summary, "files_mismatched"), &Json::Number(1));
    assert_eq!(member(summary, "only_in_current"), &Json::Number(2));
    assert_eq!(member(summary, "only_in_parallel"), &Json::Number(1));
    assert_eq!(member(summary, "total_chunks_compared"), &Json::Number(2));
    assert_eq!(member(summary, "total_aligned_lines_compared"), &Json::Number(4));
    assert_eq!(member(summary, "total_changes_compared"), &Json::Number(6));
    assert_eq!(member(summary, "all_identical"), &Json::Bool(false));
    let current = member(member(&report, "timing"), "current");
    assert_eq!(member(current, "min"), &Json::Number(1));
    assert_eq!(member(current, "mean"), &Json::Text(text("1.5")));
    assert_eq!(member(current, "all_ms"), &Json::List(vec![Json::Number(1), Json::Number(2)]));
    assert_eq!(member(member(member(&report, "timing"), "parallel"), "p95"), &Json::Number(5));
    let per_file = match member(&report, "per_file") {
        Json::List(items) => items,
        _ => panic!("not a list"),
    };
    assert_eq!(member(&per_file[0], "status"), &Json::Text(text("Changed")));
    assert_eq!(member(&per_file[2], "first_difference"), &Json::Null);
    assert_eq!(member(&per_file[2], "result"), &Json::Text(text("MATCH")));
    assert_eq!(member(&per_file[2], "status_current"), &Json::Text(text("Changed")));
    assert_eq!(member(&per_file[2], "status_parallel"), &Json::Text(text("Changed")));
    assert_eq!(member(&per_file[2], "changes"), &Json::Number(3));
    assert_eq!(member(&per_file[4], "result"), &Json::Text(text("ONLY_IN_PARALLEL")));
}

#[test]
fn json_is_written_on_many_lines() {
    let json = Json::Object(vec![
        (text("b"), Json::List(vec![Json::Number(u64::MAX), Json::Null])),
        (text("a"), Json::Text(text("x\"\n"))),
        (text("c"), Json::Object(vec![(text("d"), Json::Bool(true))])),
        (text("e"), Json::List(Vec::new())),
    ]);
    let expected = [
        "{",
        "  \"a\": \"x\\\"\\n\",",
        "  \"b\": [",
        "    18446744073709551615,",
        "    null",
        "  ],",
        "  \"c\": {",
        "    \"d\": true",
        "  },",
        "  \"e\": []",
        "}",
    ];
    assert_eq!(write_json(&json), expected.join("\n"));
}

/// Runs a benchmark with runs that each take a millisecond more than the one before.
fn run_benchmark(iterations: u32) -> (Benchmark, Vec<&'static str>) {
    let mut benchmark = Benchmark::new(iterations);
    let mut order = Vec::new();
    loop {
        order.push(match benchmark.stage {
            BenchmarkStage::RunSequential => "sequential",
            BenchmarkStage::RunParallel => "parallel",
            _ => break,
        });
        let millis = order.len() as u64;
        let files = vec![file(&format!("run{millis}"))];
        benchmark = benchmark.step(Ok(TimedRun { files, millis }));
    }
    (benchmark, order)
}

#[test]
fn both_ways_take_turns_as_often_as_asked_for() {
    let (benchmark, order) = run_benchmark(3);
    assert_eq!(benchmark.stage, BenchmarkStage::Report);
    assert_eq!(
        order,
        vec!["sequential", "parallel", "sequential", "parallel", "sequential", "parallel"]
    );
    assert_eq!(benchmark.current_times, vec![1, 3, 5]);
    assert_eq!(benchmark.parallel_times, vec![2, 4, 6]);
    assert_eq!(benchmark.current, vec![file("run1")]);
    assert_eq!(benchmark.parallel, vec![file("run2")]);
}

#[test]
fn there_is_always_one_run_to_compare() {
    for iterations in [0, 1] {
        let (benchmark, order) = run_benchmark(iterations);
        assert_eq!(benchmark.stage, BenchmarkStage::Report);
        assert_eq!(order, vec!["sequential", "parallel"]);
    }
}

#[test]
fn the_first_failure_ends_a_benchmark() {
    let run = || Ok(TimedRun { files: Vec::new(), millis: 1 });
    let failed = Benchmark::new(2).step(run()).step(Err(text("no git")));
    assert_eq!(failed.stage, BenchmarkStage::Failed(text("no git")));
    let failed = failed.step(run());
    assert_eq!(failed.stage, BenchmarkStage::Failed(text("no git")));
    assert_eq!(failed.current_times, vec![1]);
    assert!(failed.parallel_times.is_empty());
}
