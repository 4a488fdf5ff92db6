//! The report of a benchmark, as a tree of JSON.

use vstd::prelude::*;

use crate::benchmark::{compared_views, verdict, Compared, FileComparison, RunComparison};
use crate::difft::{status_name, status_text};
use crate::text::text_option;
use crate::timing::Timing;

verus! {

/// A JSON value. The members of an object have a name each.
#[derive(Debug, PartialEq, Eq)]
pub enum Json {
    Null,
    Bool(bool),
    Number(u64),
    Text(String),
    List(Vec<Json>),
    Object(Vec<(String, Json)>),
}

/// What a JSON value holds.
pub enum JsonValue {
    Null,
    Bool(bool),
    Number(nat),
    Text(Seq<char>),
    List(Seq<JsonValue>),
    Object(Seq<(Seq<char>, JsonValue)>),
}

/// What a JSON value holds.
pub open spec fn json_value(json: Json) -> JsonValue
    decreases json,
{
    match json {
        Json::Null => JsonValue::Null,
        Json::Bool(b) => JsonValue::Bool(b),
        Json::Number(n) => JsonValue::Number(n as nat),
        Json::Text(s) => JsonValue::Text(s@),
        Json::List(items) => JsonValue::List(
            Seq::new(
                items@.len(),
                |i: int|
                    if 0 <= i < items@.len() {
                        json_value(items@[i])
                    } else {
                        JsonValue::Null
                    },
            ),
        ),
        Json::Object(members) => JsonValue::Object(
            Seq::new(
                members@.len(),
                |i: int|
                    if 0 <= i < members@.len() {
                        (members@[i].0@, json_value(members@[i].1))
                    } else {
                        (Seq::empty(), JsonValue::Null)
                    },
            ),
        ),
    }
}

impl View for Json {
    type V = JsonValue;

    open spec fn view(&self) -> JsonValue {
        json_value(*self)
    }
}

/// The members of an object, as values.
pub open spec fn member_values(members: Seq<(String, Json)>) -> Seq<(Seq<char>, JsonValue)> {
    members.map_values(|m: (String, Json)| (m.0@, m.1@))
}

/// The items of a list, as values.
pub open spec fn item_values(items: Seq<Json>) -> Seq<JsonValue> {
    items.map_values(|item: Json| item@)
}

/// An object holds its members.
pub proof fn lemma_object_value(members: Vec<(String, Json)>)
    ensures
        Json::Object(members)@ == JsonValue::Object(member_values(members@)),
{
    let held = json_value(Json::Object(members))->Object_0;
    assert(held =~= member_values(members@));
}

/// A list holds its items.
pub proof fn lemma_list_value(items: Vec<Json>)
    ensures
        Json::List(items)@ == JsonValue::List(item_values(items@)),
{
    let held = json_value(Json::List(items))->List_0;
    assert(held =~= item_values(items@));
}

/// An object of the members.
fn object(members: Vec<(String, Json)>) -> (r: Json)
    ensures
        r@ == JsonValue::Object(member_values(members@)),
{
    proof {
        lemma_object_value(members);
    }
    Json::Object(members)
}

/// A list of the items.
fn list(items: Vec<Json>) -> (r: Json)
    ensures
        r@ == JsonValue::List(item_values(items@)),
{
    proof {
        lemma_list_value(items);
    }
    Json::List(items)
}

/// A number.
fn number(n: u64) -> (r: Json)
    ensures
        r@ == JsonValue::Number(n as nat),
{
    Json::Number(n)
}

/// A text.
fn text(s: &str) -> (r: Json)
    ensures
        r@ == JsonValue::Text(s@),
{
    Json::Text(s.to_owned())
}

/// A text that may be missing.
fn optional_text(s: &Option<String>) -> (r: Json)
    ensures
        r@ == optional_text_value(text_option(*s)),
{
    match s {
        Some(s) => text(s.as_str()),
        None => Json::Null,
    }
}

/// A text that may be missing.
pub open spec fn optional_text_value(s: Option<Seq<char>>) -> JsonValue {
    match s {
        Some(s) => JsonValue::Text(s),
        None => JsonValue::Null,
    }
}

/// What is reported of a path.
pub open spec fn compared_value(c: Compared) -> JsonValue {
    match c {
        Compared::Both {
            path,
            first_difference,
            status_current,
            status_parallel,
            language,
            chunks,
            aligned_lines,
            changes,
        } => JsonValue::Object(
            seq![
                ("path"@, JsonValue::Text(path)),
                ("result"@, JsonValue::Text(verdict(c))),
                ("first_difference"@, optional_text_value(first_difference)),
                ("status_current"@, JsonValue::Text(status_text(status_current))),
                ("status_parallel"@, JsonValue::Text(status_text(status_parallel))),
                ("language"@, JsonValue::Text(language)),
                ("chunks"@, JsonValue::Number(chunks)),
                ("aligned_lines"@, JsonValue::Number(aligned_lines)),
                ("changes"@, JsonValue::Number(changes)),
            ],
        ),
        Compared::OnlyCurrent { path, status } | Compared::OnlyParallel { path, status } => {
            JsonValue::Object(
                seq![
                    ("path"@, JsonValue::Text(path)),
                    ("result"@, JsonValue::Text(verdict(c))),
                    ("status"@, JsonValue::Text(status_text(status))),
                ],
            )
        },
    }
}

/// The report on a path.
fn compared_json(c: &FileComparison) -> (r: Json)
    ensures
        r@ == compared_value(c@),
{
    let result = c.result();
    let members = match c {
        FileComparison::Both {
            path,
            first_difference,
            status_current,
            status_parallel,
            language,
            chunks,
            aligned_lines,
            changes,
        } => vec![
            ("path".to_owned(), text(path.as_str())),
            ("result".to_owned(), Json::Text(result)),
            ("first_difference".to_owned(), optional_text(first_difference)),
            ("status_current".to_owned(), Json::Text(status_name(*status_current))),
            ("status_parallel".to_owned(), Json::Text(status_name(*status_parallel))),
            ("language".to_owned(), text(language.as_str())),
            ("chunks".to_owned(), number(*chunks as u64)),
            ("aligned_lines".to_owned(), number(*aligned_lines as u64)),
            ("changes".to_owned(), number(*changes as u64)),
        ],
        FileComparison::OnlyCurrent { path, status } => vec![
            ("path".to_owned(), text(path.as_str())),
            ("result".to_owned(), Json::Text(result)),
            ("status".to_owned(), Json::Text(status_name(*status))),
        ],
        FileComparison::OnlyParallel { path, status } => vec![
            ("path".to_owned(), text(path.as_str())),
            ("result".to_owned(), Json::Text(result)),
            ("status".to_owned(), Json::Text(status_name(*status))),
        ],
    };
    proof {
        let held = compared_value(c@)->Object_0;
        assert(member_values(members@) =~= held);
    }
    object(members)
}

/// What is reported of each path.
pub open spec fn per_file_value(list: Seq<Compared>) -> JsonValue {
    JsonValue::List(list.map_values(|c: Compared| compared_value(c)))
}

/// The report on each path.
fn per_file_json(comparisons: &Vec<FileComparison>) -> (r: Json)
    ensures
        r@ == per_file_value(compared_views(comparisons@)),
{
    let mut items: Vec<Json> = Vec::new();
    let mut i: usize = 0;
    while i < comparisons.len()
        invariant
            i <= comparisons@.len(),
            items@.len() == i,
            forall|j: int| 0 <= j < i ==> (#[trigger] items@[j])@ == compared_value(
                comparisons@[j]@,
            ),
        decreases comparisons@.len() - i,
    {
        items.push(compared_json(&comparisons[i]));
        i += 1;
    }
    proof {
        let all = compared_views(comparisons@).map_values(|c: Compared| compared_value(c));
        assert(item_values(items@) =~= all);
    }
    list(items)
}

/// The times of one method, with the numbers that are rounded given as texts.
#[derive(Clone, Debug, PartialEq, Eq)]
pub struct TimingReport {
    pub timing: Timing,
    pub mean: String,
    pub median: String,
    pub stddev: String,
}

/// What is reported of the times of a method.
pub open spec fn timing_value(report: TimingReport) -> JsonValue {
    JsonValue::Object(
        seq![
            ("min"@, JsonValue::Number(report.timing.min as nat)),
            ("max"@, JsonValue::Number(report.timing.max as nat)),
            ("mean"@, JsonValue::Text(report.mean@)),
            ("median"@, JsonValue::Text(report.median@)),
            ("stddev"@, JsonValue::Text(report.stddev@)),
            ("p5"@, JsonValue::Number(report.timing.p5 as nat)),
            ("p95"@, JsonValue::Number(report.timing.p95 as nat)),
            (
                "all_ms"@,
                JsonValue::List(
                    report.timing.times@.map_values(|t: u64| JsonValue::Number(t as nat)),
                ),
            ),
        ],
    )
}

/// A list of numbers.
fn numbers(values: &Vec<u64>) -> (r: Json)
    ensures
        r@ == JsonValue::List(values@.map_values(|n: u64| JsonValue::Number(n as nat))),
{
    let mut items: Vec<Json> = Vec::new();
    let mut i: usize = 0;
    while i < values.len()
        invariant
            i <= values@.len(),
            items@.len() == i,
            forall|j: int| 0 <= j < i ==> (#[trigger] items@[j])@ == JsonValue::Number(
                values@[j] as nat,
            ),
        decreases values@.len() - i,
    {
        items.push(number(values[i]));
        i += 1;
    }
    proof {
        let all = values@.map_values(|n: u64| JsonValue::Number(n as nat));
        assert(item_values(items@) =~= all);
    }
    list(items)
}

/// The report on the times of a method.
fn timing_json(report: &TimingReport) -> (r: Json)
    ensures
        r@ == timing_value(*report),
{
    let members = vec![
        ("min".to_owned(), number(report.timing.min)),
        ("max".to_owned(), number(report.timing.max)),
        ("mean".to_owned(), text(report.mean.as_str())),
        ("median".to_owned(), text(report.median.as_str())),
        ("stddev".to_owned(), text(report.stddev.as_str())),
        ("p5".to_owned(), number(report.timing.p5)),
        ("p95".to_owned(), number(report.timing.p95)),
        ("all_ms".to_owned(), numbers(&report.timing.times)),
    ];
    proof {
        let held = timing_value(*report)->Object_0;
        assert(member_values(members@) =~= held);
    }
    object(members)
}

/// What is reported of the comparison as a whole.
pub open spec fn summary_value(c: RunComparison) -> JsonValue {
    JsonValue::Object(
        seq![
            ("total_files"@, JsonValue::Number(c.total_files as nat)),
            ("files_matched"@, JsonValue::Number(c.files_matched as nat)),
            ("files_mismatched"@, JsonValue::Number(c.files_mismatched as nat)),
            ("only_in_current"@, JsonValue::Number(c.only_in_current as nat)),
            ("only_in_parallel"@, JsonValue::Number(c.only_in_parallel as nat)),
            ("total_chunks_compared"@, JsonValue::Number(c.total_chunks as nat)),
            ("total_aligned_lines_compared"@, JsonValue::Number(c.total_aligned_lines as nat)),
            ("total_changes_compared"@, JsonValue::Number(c.total_changes as nat)),
            (
                "all_identical"@,
                JsonValue::Bool(
                    c.files_mismatched == 0 && c.only_in_current == 0 && c.only_in_parallel == 0,
                ),
            ),
        ],
    )
}

/// The report on the comparison as a whole.
fn summary_json(c: &RunComparison) -> (r: Json)
    ensures
        r@ == summary_value(*c),
{
    let members = vec![
        ("total_files".to_owned(), number(c.total_files as u64)),
        ("files_matched".to_owned(), number(c.files_matched as u64)),
        ("files_mismatched".to_owned(), number(c.files_mismatched as u64)),
        ("only_in_current".to_owned(), number(c.only_in_current as u64)),
        ("only_in_parallel".to_owned(), number(c.only_in_parallel as u64)),
        ("total_chunks_compared".to_owned(), number(c.total_chunks as u64)),
        ("total_aligned_lines_compared".to_owned(), number(c.total_aligned_lines as u64)),
        ("total_changes_compared".to_owned(), number(c.total_changes as u64)),
        ("all_identical".to_owned(), Json::Bool(c.all_identical())),
    ];
    proof {
        let held = summary_value(*c)->Object_0;
        assert(member_values(members@) =~= held);
    }
    object(members)
}

/// What a benchmark reports.
pub open spec fn report_value(
    range: Seq<char>,
    iterations: nat,
    comparison: RunComparison,
    current: TimingReport,
    parallel: TimingReport,
) -> JsonValue {
    JsonValue::Object(
        seq![
            ("range"@, JsonValue::Text(range)),
            ("iterations"@, JsonValue::Number(iterations)),
            ("deep_comparison"@, summary_value(comparison)),
            (
                "timing"@,
                JsonValue::Object(
                    seq![
                        ("current"@, timing_value(current)),
                        ("parallel"@, timing_value(parallel)),
                    ],
                ),
            ),
            ("per_file"@, per_file_value(compared_views(comparison.per_file@))),
        ],
    )
}

/// Builds the report of a benchmark.
pub fn benchmark_report(
    range: &str,
    iterations: u32,
    comparison: &RunComparison,
    current: &TimingReport,
    parallel: &TimingReport,
) -> (r: Json)
    ensures
        r@ == report_value(range@, iterations as nat, *comparison, *current, *parallel),
{
    let timing = vec![
        ("current".to_owned(), timing_json(current)),
        ("parallel".to_owned(), timing_json(parallel)),
    ];
    proof {
        assert(member_values(timing@) =~= seq![
            ("current"@, timing_value(*current)),
            ("parallel"@, timing_value(*parallel)),
        ]);
    }
    let members = vec![
        ("range".to_owned(), text(range)),
        ("iterations".to_owned(), number(iterations as u64)),
        ("deep_comparison".to_owned(), summary_json(comparison)),
        ("timing".to_owned(), object(timing)),
        ("per_file".to_owned(), per_file_json(&comparison.per_file)),
    ];
    proof {
        let held = report_value(
            range@,
            iterations as nat,
            *comparison,
            *current,
            *parallel,
        )->Object_0;
        assert(member_values(members@) =~= held);
    }
    object(members)
}

/// The value has as many members as given, and one of that name that holds that.
pub open spec fn has_member(
    value: JsonValue,
    count: nat,
    place: int,
    name: Seq<char>,
    held: JsonValue,
) -> bool {
    match value {
        JsonValue::Object(members) => {
            &&& members.len() == count
            &&& 0 <= place < count
            &&& members[place] == (name, held)
        },
        _ => false,
    }
}

/// A path that both runs report on is told with what tells the reports apart, with both
/// statuses, and with what was counted.
pub proof fn law_paths_of_both_runs_are_told_in_full(c: Compared)
    requires
        c is Both,
    ensures
        has_member(compared_value(c), 9, 0, "path"@, JsonValue::Text(c->Both_path)),
        has_member(
            compared_value(c),
            9,
            1,
            "result"@,
            JsonValue::Text(
                if c->first_difference is None {
                    "MATCH"@
                } else {
                    "MISMATCH"@
                },
            ),
        ),
        c->first_difference is None ==> has_member(
            compared_value(c),
            9,
            2,
            "first_difference"@,
            JsonValue::Null,
        ),
        c->first_difference is Some ==> has_member(
            compared_value(c),
            9,
            2,
            "first_difference"@,
            JsonValue::Text((c->first_difference)->0),
        ),
        has_member(
            compared_value(c),
            9,
            3,
            "status_current"@,
            JsonValue::Text(status_text(c->status_current)),
        ),
        has_member(
            compared_value(c),
            9,
            4,
            "status_parallel"@,
            JsonValue::Text(status_text(c->status_parallel)),
        ),
        has_member(compared_value(c), 9, 5, "language"@, JsonValue::Text(c->language)),
        has_member(compared_value(c), 9, 6, "chunks"@, JsonValue::Number(c->chunks)),
        has_member(compared_value(c), 9, 7, "aligned_lines"@, JsonValue::Number(c->aligned_lines)),
        has_member(compared_value(c), 9, 8, "changes"@, JsonValue::Number(c->changes)),
{
}

/// The times of a method are told each by its name, and all of them in their order.
pub proof fn law_times_are_told_by_name(report: TimingReport, i: int)
    ensures
        has_member(timing_value(report), 8, 0, "min"@, JsonValue::Number(report.timing.min as nat)),
        has_member(timing_value(report), 8, 1, "max"@, JsonValue::Number(report.timing.max as nat)),
        has_member(timing_value(report), 8, 2, "mean"@, JsonValue::Text(report.mean@)),
        has_member(timing_value(report), 8, 3, "median"@, JsonValue::Text(report.median@)),
        has_member(timing_value(report), 8, 4, "stddev"@, JsonValue::Text(report.stddev@)),
        has_member(timing_value(report), 8, 5, "p5"@, JsonValue::Number(report.timing.p5 as nat)),
        has_member(timing_value(report), 8, 6, "p95"@, JsonValue::Number(report.timing.p95 as nat)),
        ({
            let told = timing_value(report)->Object_0[7];
            &&& told.0 == "all_ms"@
            &&& told.1 is List
            &&& (told.1)->List_0.len() == report.timing.times@.len()
            &&& 0 <= i < report.timing.times@.len() ==> (told.1)->List_0[i] == JsonValue::Number(
                report.timing.times@[i] as nat,
            )
        }),
{
}

/// The comparison is told with each of its numbers by its name, and as identical exactly
/// where nothing differs and no path is missing from a run.
pub proof fn law_numbers_are_told_by_name(c: RunComparison)
    ensures
        has_member(
            summary_value(c),
            9,
            0,
            "total_files"@,
            JsonValue::Number(c.total_files as nat),
        ),
        has_member(
            summary_value(c),
            9,
            1,
            "files_matched"@,
            JsonValue::Number(c.files_matched as nat),
        ),
        has_member(
            summary_value(c),
            9,
            2,
            "files_mismatched"@,
            JsonValue::Number(c.files_mismatched as nat),
        ),
        has_member(
            summary_value(c),
            9,
            3,
            "only_in_current"@,
            JsonValue::Number(c.only_in_current as nat),
        ),
        has_member(
            summary_value(c),
            9,
            4,
            "only_in_parallel"@,
            JsonValue::Number(c.only_in_parallel as nat),
        ),
        has_member(
            summary_value(c),
            9,
            5,
            "total_chunks_compared"@,
            JsonValue::Number(c.total_chunks as nat),
        ),
        has_member(
            summary_value(c),
            9,
            6,
            "total_aligned_lines_compared"@,
            JsonValue::Number(c.total_aligned_lines as nat),
        ),
        has_member(
            summary_value(c),
            9,
            7,
            "total_changes_compared"@,
            JsonValue::Number(c.total_changes as nat),
        ),
        has_member(
            summary_value(c),
            9,
            8,
            "all_identical"@,
            JsonValue::Bool(c.files_mismatched + c.only_in_current + c.only_in_parallel == 0),
        ),
{
}

/// The report tells the range, the number of iterations, the comparison, the times of
/// both methods, and then each compared path in its place.
pub proof fn law_report_tells_of_every_path(
    range: Seq<char>,
    iterations: nat,
    comparison: RunComparison,
    current: TimingReport,
    parallel: TimingReport,
    i: int,
)
    ensures
        ({
            let report = report_value(range, iterations, comparison, current, parallel);
            let timing = report->Object_0[3];
            let told = report->Object_0[4];
            &&& has_member(report, 5, 0, "range"@, JsonValue::Text(range))
            &&& has_member(report, 5, 1, "iterations"@, JsonValue::Number(iterations))
            &&& has_member(report, 5, 2, "deep_comparison"@, summary_value(comparison))
            &&& timing.0 == "timing"@
            &&& has_member(timing.1, 2, 0, "current"@, timing_value(current))
            &&& has_member(timing.1, 2, 1, "parallel"@, timing_value(parallel))
            &&& told.0 == "per_file"@
            &&& told.1 is List
            &&& (told.1)->List_0.len() == comparison.per_file@.len()
            &&& 0 <= i < comparison.per_file@.len() ==> (told.1)->List_0[i] == compared_value(
                comparison.per_file@[i]@,
            )
        }),
{
}

/// A path that one run alone reports on is told with that run and its status there.
pub proof fn law_paths_of_one_run_are_told_with_the_run(c: Compared)
    ensures
        match c {
            Compared::OnlyCurrent { path, status } => {
                let value = compared_value(c);
                &&& has_member(value, 3, 0, "path"@, JsonValue::Text(path))
                &&& has_member(value, 3, 1, "result"@, JsonValue::Text("ONLY_IN_CURRENT"@))
                &&& has_member(value, 3, 2, "status"@, JsonValue::Text(status_text(status)))
            },
            Compared::OnlyParallel { path, status } => {
                let value = compared_value(c);
                &&& has_member(value, 3, 0, "path"@, JsonValue::Text(path))
                &&& has_member(value, 3, 1, "result"@, JsonValue::Text("ONLY_IN_PARALLEL"@))
                &&& has_member(value, 3, 2, "status"@, JsonValue::Text(status_text(status)))
            },
            Compared::Both { .. } => true,
        },
{
}

/// A list holds its items in their places, and an object its members, each under its name.
pub proof fn law_values_are_held_one_for_one(
    items: Vec<Json>,
    members: Vec<(String, Json)>,
    i: int,
)
    ensures
        ({
            let held = Json::List(items)@;
            &&& held is List
            &&& held->List_0.len() == items@.len()
            &&& 0 <= i < items@.len() ==> held->List_0[i] == items@[i]@
        }),
        ({
            let held = Json::Object(members)@;
            &&& held is Object
            &&& held->Object_0.len() == members@.len()
            &&& 0 <= i < members@.len() ==> held->Object_0[i] == (
                members@[i].0@,
                members@[i].1@,
            )
        }),
{
    lemma_list_value(items);
    lemma_object_value(members);
}

} // verus!
