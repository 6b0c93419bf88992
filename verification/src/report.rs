//! Rules of a comparison report: which runs may be merged, what is ranked, and the document.

use vstd::prelude::*;
use crate::aliases;
use crate::decimal;
use crate::document;
use crate::document::{Figures, FiguresModel};
use crate::measure::Real;
use crate::model;
use crate::model::{
    BenchmarkResult, BenchmarkResultModel, BenchmarkStatus, ContenderResult, ContenderResultModel,
    MetricDirection, ProfileRecord, ProfileRecordModel, RunReport, RunReportModel,
    RESULT_SCHEMA_VERSION,
};
use crate::privacy;
use crate::text;

verus! {

// ---------------------------------------------------------------------------------------------
// Metrics of a contender
// ---------------------------------------------------------------------------------------------

/// The metrics of the balanced index.
pub open spec fn core_names() -> Seq<Seq<char>> {
    seq![
        "server_startup_ready"@,
        "control_command_latency"@,
        "daemon_idle_cohort_cpu"@,
        "daemon_idle_cohort_rss"@,
        "foreground_idle_cohort_cpu"@,
        "foreground_idle_cohort_rss"@,
        "terminal_input_to_visible"@,
        "terminal_output_completion"@,
    ]
}

/// The metrics of the balanced index.
pub fn core_metrics() -> (r: Vec<String>)
    ensures
        text::texts(r@) == core_names(),
{
    let mut out: Vec<String> = Vec::new();
    out.push("server_startup_ready".to_owned());
    out.push("control_command_latency".to_owned());
    out.push("daemon_idle_cohort_cpu".to_owned());
    out.push("daemon_idle_cohort_rss".to_owned());
    out.push("foreground_idle_cohort_cpu".to_owned());
    out.push("foreground_idle_cohort_rss".to_owned());
    out.push("terminal_input_to_visible".to_owned());
    out.push("terminal_output_completion".to_owned());
    assert(text::texts(out@) =~= core_names());
    out
}

/// The index of the first benchmark of that name, from `from` on.
pub open spec fn first_named(list: Seq<BenchmarkResultModel>, name: Seq<char>, from: int) -> Option<
    int,
>
    decreases list.len() - from,
{
    if from < 0 || from >= list.len() {
        None
    } else if list[from].name == name {
        Some(from)
    } else {
        first_named(list, name, from + 1)
    }
}

/// The first benchmark of that name.
pub open spec fn raw(c: ContenderResultModel, name: Seq<char>) -> Option<BenchmarkResultModel> {
    match first_named(c.benchmarks, name, 0) {
        Some(i) => Some(c.benchmarks[i]),
        None => None,
    }
}

/// The first benchmark of that name, where it was measured.
pub open spec fn valid(c: ContenderResultModel, name: Seq<char>) -> Option<BenchmarkResultModel> {
    match raw(c, name) {
        Some(b) => if b.status == BenchmarkStatus::Measured {
            Some(b)
        } else {
            None
        },
        None => None,
    }
}

/// The median of the metric, where it was measured and has one.
pub open spec fn middle(c: ContenderResultModel, name: Seq<char>) -> Option<Real> {
    match valid(c, name) {
        Some(b) => b.summary.median,
        None => None,
    }
}

pub fn raw_metric<'a>(c: &'a ContenderResult, name: &str) -> (r: Option<&'a BenchmarkResult>)
    ensures
        match r {
            Some(b) => raw(c@, name@) == Some(b@),
            None => raw(c@, name@) is None,
        },
{
    let ghost list = c@.benchmarks;
    let mut i: usize = 0;
    while i < c.benchmarks.len()
        invariant
            i <= c.benchmarks@.len(),
            list == c@.benchmarks,
            first_named(list, name@, 0) == first_named(list, name@, i as int),
        decreases c.benchmarks@.len() - i,
    {
        assert(list[i as int] == c.benchmarks@[i as int]@);
        if text::same(c.benchmarks[i].name.as_str(), name) {
            return Some(&c.benchmarks[i]);
        }
        i = i + 1;
    }
    None
}

pub fn metric<'a>(c: &'a ContenderResult, name: &str) -> (r: Option<&'a BenchmarkResult>)
    ensures
        match r {
            Some(b) => valid(c@, name@) == Some(b@),
            None => valid(c@, name@) is None,
        },
{
    match raw_metric(c, name) {
        Some(b) => if b.status == BenchmarkStatus::Measured {
            Some(b)
        } else {
            None
        },
        None => None,
    }
}

pub fn median(c: &ContenderResult, name: &str) -> (r: Option<Real>)
    ensures
        r == middle(c@, name@),
{
    match metric(c, name) {
        Some(b) => b.summary.median,
        None => None,
    }
}

// ---------------------------------------------------------------------------------------------
// Failures
// ---------------------------------------------------------------------------------------------

/// How many of the first `upto` core metrics have a median.
pub open spec fn core_present(c: ContenderResultModel, upto: int) -> nat
    decreases upto,
{
    if upto <= 0 {
        0
    } else {
        core_present(c, upto - 1) + if middle(c, core_names()[upto - 1]) is Some {
            1nat
        } else {
            0nat
        }
    }
}

pub open spec fn core_complete(c: ContenderResultModel) -> bool {
    forall|i: int| 0 <= i < core_names().len() ==> middle(c, #[trigger] core_names()[i]) is Some
}

/// An error, a benchmark that was not measured, or a core metric without a median.
pub open spec fn contender_failed(c: ContenderResultModel) -> bool {
    ||| c.errors.len() > 0
    ||| exists|i: int|
        0 <= i < c.benchmarks.len() && (#[trigger] c.benchmarks[i]).status
            != BenchmarkStatus::Measured
    ||| !core_complete(c)
}

pub open spec fn failed(r: RunReportModel) -> bool {
    exists|k: int| 0 <= k < r.contenders.len() && contender_failed(#[trigger] r.contenders[k])
}

pub fn is_core_complete(c: &ContenderResult) -> (r: bool)
    ensures
        r == core_complete(c@),
{
    let names: Vec<String> = core_metrics();
    let mut i: usize = 0;
    while i < names.len()
        invariant
            i <= names@.len(),
            text::texts(names@) == core_names(),
            forall|k: int| 0 <= k < i ==> middle(c@, #[trigger] core_names()[k]) is Some,
        decreases names@.len() - i,
    {
        assert(core_names()[i as int] == names@[i as int]@);
        if median(c, names[i].as_str()).is_none() {
            return false;
        }
        i = i + 1;
    }
    assert(core_names().len() == names@.len());
    true
}

pub fn count_core_present(c: &ContenderResult) -> (r: usize)
    ensures
        r == core_present(c@, core_names().len() as int),
{
    let names: Vec<String> = core_metrics();
    let mut count: usize = 0;
    let mut i: usize = 0;
    while i < names.len()
        invariant
            i <= names@.len(),
            text::texts(names@) == core_names(),
            count == core_present(c@, i as int),
            count <= i,
        decreases names@.len() - i,
    {
        assert(core_names()[i as int] == names@[i as int]@);
        if median(c, names[i].as_str()).is_some() {
            count = count + 1;
        }
        i = i + 1;
    }
    assert(core_names().len() == names@.len());
    count
}

fn has_failed(c: &ContenderResult) -> (r: bool)
    ensures
        r == contender_failed(c@),
{
    if c.errors.len() > 0 {
        return true;
    }
    let mut i: usize = 0;
    while i < c.benchmarks.len()
        invariant
            i <= c.benchmarks@.len(),
            forall|k: int|
                0 <= k < i ==> (#[trigger] c@.benchmarks[k]).status == BenchmarkStatus::Measured,
        decreases c.benchmarks@.len() - i,
    {
        assert(c@.benchmarks[i as int] == c.benchmarks@[i as int]@);
        if c.benchmarks[i].status != BenchmarkStatus::Measured {
            return true;
        }
        i = i + 1;
    }
    !is_core_complete(c)
}

/// A failed or missing common measurement must never look like a successful run.
pub fn has_failures(report: &RunReport) -> (r: bool)
    ensures
        r == failed(report@),
{
    let mut k: usize = 0;
    while k < report.contenders.len()
        invariant
            k <= report.contenders@.len(),
            forall|j: int| 0 <= j < k ==> !contender_failed(#[trigger] report@.contenders[j]),
        decreases report.contenders@.len() - k,
    {
        assert(report@.contenders[k as int] == report.contenders@[k as int]@);
        if has_failed(&report.contenders[k]) {
            return true;
        }
        k = k + 1;
    }
    false
}

/// A run that recorded failures ends with an error.
pub fn verdict(report: &RunReport) -> (r: Result<(), String>)
    ensures
        match r {
            Ok(_) => !failed(report@),
            Err(error) => failed(report@) && error@ == "measurement failures were recorded"@,
        },
{
    if has_failures(report) {
        Err("measurement failures were recorded".to_owned())
    } else {
        Ok(())
    }
}

// ---------------------------------------------------------------------------------------------
// Merging
// ---------------------------------------------------------------------------------------------

/// The index of the first contender of that identifier, from `from` on.
pub open spec fn first_identified(
    list: Seq<ContenderResultModel>,
    id: Seq<char>,
    from: int,
) -> Option<int>
    decreases list.len() - from,
{
    if from < 0 || from >= list.len() {
        None
    } else if list[from].id == id {
        Some(from)
    } else {
        first_identified(list, id, from + 1)
    }
}

pub open spec fn identified(list: Seq<ContenderResultModel>, id: Seq<char>) -> bool {
    exists|k: int| 0 <= k < list.len() && (#[trigger] list[k]).id == id
}

/// Every contender of `a` has one of its identifier in `b`.
pub open spec fn covered(a: Seq<ContenderResultModel>, b: Seq<ContenderResultModel>) -> bool {
    forall|k: int| 0 <= k < a.len() ==> identified(b, (#[trigger] a[k]).id)
}

pub open spec fn same_profile(a: ProfileRecordModel, b: ProfileRecordModel) -> bool {
    &&& a.name == b.name
    &&& a.startup_iterations == b.startup_iterations
    &&& a.command_iterations == b.command_iterations
    &&& a.latency_iterations == b.latency_iterations
    &&& a.output_iterations == b.output_iterations
    &&& a.settle_seconds.equal(b.settle_seconds)
    &&& a.sample_interval_ms == b.sample_interval_ms
    &&& a.idle_seconds.equal(b.idle_seconds)
    &&& a.terminal_cols == b.terminal_cols
    &&& a.terminal_rows == b.terminal_rows
    &&& a.output_lines == b.output_lines
    &&& a.pane_count == b.pane_count
    &&& a.resize_iterations == b.resize_iterations
    &&& a.extra_clients == b.extra_clients
}

/// Why the contender of the first run and that of another do not go together.
pub open spec fn contender_conflict(
    run_id: Seq<char>,
    base: ContenderResultModel,
    current: ContenderResultModel,
) -> Option<Seq<char>> {
    if base.adapter != current.adapter {
        Some("run "@ + run_id + " uses a different adapter for "@ + base.id)
    } else if base.source.commit is Some && current.source.commit is Some && base.source.commit
        != current.source.commit {
        Some(
            "run "@ + run_id + " uses a different "@ + base.display_name
                + " source commit and cannot be merged"@,
        )
    } else {
        None
    }
}

/// The first conflict among the first `upto` contenders of the first run.
pub open spec fn contenders_conflict(
    first: RunReportModel,
    other: RunReportModel,
    upto: int,
) -> Option<Seq<char>>
    decreases upto,
{
    if upto <= 0 {
        None
    } else {
        match contenders_conflict(first, other, upto - 1) {
            Some(e) => Some(e),
            None => {
                let base = first.contenders[upto - 1];
                match first_identified(other.contenders, base.id, 0) {
                    Some(k) => contender_conflict(other.run_id, base, other.contenders[k]),
                    None => None,
                }
            },
        }
    }
}

/// Why the run does not go together with the first one.
pub open spec fn run_conflict(first: RunReportModel, other: RunReportModel) -> Option<Seq<char>> {
    if other.schema_version != first.schema_version {
        Some("runs with different result schemas cannot be merged"@)
    } else if !covered(first.contenders, other.contenders) || !covered(
        other.contenders,
        first.contenders,
    ) {
        Some(
            "run "@ + other.run_id + " has a different contender set and cannot be merged"@,
        )
    } else if !same_profile(first.profile, other.profile) {
        Some(
            "run "@ + other.run_id + " uses a different benchmark profile and cannot be merged"@,
        )
    } else {
        contenders_conflict(first, other, first.contenders.len() as int)
    }
}

/// The two contenders are the same one, at different source revisions.
pub open spec fn rivals(a: ContenderResultModel, b: ContenderResultModel) -> bool {
    &&& a.id == b.id
    &&& a.source.commit is Some
    &&& b.source.commit is Some
    &&& a.source.commit != b.source.commit
}

/// Some run before the run at `at` knows another source revision of the contender.
pub open spec fn disputed(list: Seq<RunReportModel>, at: int, id: Seq<char>) -> bool {
    exists|i: int, k: int, m: int|
        0 <= i < at && 0 <= k < list[i].contenders.len() && 0 <= m < list[at].contenders.len()
            && list[at].contenders[m].id == id && #[trigger] rivals(
            list[i].contenders[k],
            list[at].contenders[m],
        )
}

/// The first of the first `upto` contenders of the first run whose source revision in the run at
/// `at` is not the one that an earlier run knows.
pub open spec fn revision_conflict(list: Seq<RunReportModel>, at: int, upto: int) -> Option<
    Seq<char>,
>
    decreases upto,
{
    if upto <= 0 {
        None
    } else {
        match revision_conflict(list, at, upto - 1) {
            Some(e) => Some(e),
            None => {
                let base = list[0].contenders[upto - 1];
                if disputed(list, at, base.id) {
                    Some(
                        "run "@ + list[at].run_id + " uses a different "@ + base.display_name
                            + " source commit and cannot be merged"@,
                    )
                } else {
                    None
                }
            },
        }
    }
}

/// The first conflict among the first `upto` runs: each has to go together with the first one,
/// and its known source revisions with those of every run before it.
pub open spec fn conflict(list: Seq<RunReportModel>, upto: int) -> Option<Seq<char>>
    decreases upto,
{
    if upto <= 1 {
        None
    } else {
        match conflict(list, upto - 1) {
            Some(e) => Some(e),
            None => match run_conflict(list[0], list[upto - 1]) {
                Some(e) => Some(e),
                None => revision_conflict(list, upto - 1, list[0].contenders.len() as int),
            },
        }
    }
}

/// Why the runs cannot be merged.
pub open spec fn merge_fault(list: Seq<RunReportModel>) -> Option<Seq<char>> {
    if list.len() == 0 {
        Some("at least one report is required"@)
    } else {
        conflict(list, list.len() as int)
    }
}

pub fn find_contender(list: &Vec<ContenderResult>, id: &str) -> (r: Option<usize>)
    ensures
        ({
            let view = model::contender_views(list@);
            match r {
                Some(k) => k < list@.len() && first_identified(view, id@, 0) == Some(k as int),
                None => first_identified(view, id@, 0) is None,
            }
        }),
        r is Some == identified(model::contender_views(list@), id@),
{
    let ghost view = model::contender_views(list@);
    let mut k: usize = 0;
    while k < list.len()
        invariant
            k <= list@.len(),
            view == model::contender_views(list@),
            first_identified(view, id@, 0) == first_identified(view, id@, k as int),
            forall|j: int| 0 <= j < k ==> (#[trigger] view[j]).id != id@,
        decreases list@.len() - k,
    {
        assert(view[k as int] == list@[k as int]@);
        if text::same(list[k].id.as_str(), id) {
            assert(view[k as int].id == id@);
            return Some(k);
        }
        k = k + 1;
    }
    None
}

fn covers(a: &Vec<ContenderResult>, b: &Vec<ContenderResult>) -> (r: bool)
    ensures
        r == covered(model::contender_views(a@), model::contender_views(b@)),
{
    let ghost view = model::contender_views(a@);
    let mut k: usize = 0;
    while k < a.len()
        invariant
            k <= a@.len(),
            view == model::contender_views(a@),
            forall|j: int|
                0 <= j < k ==> identified(model::contender_views(b@), (#[trigger] view[j]).id),
        decreases a@.len() - k,
    {
        assert(view[k as int] == a@[k as int]@);
        if find_contender(b, a[k].id.as_str()).is_none() {
            return false;
        }
        k = k + 1;
    }
    true
}

fn profiles_agree(a: &ProfileRecord, b: &ProfileRecord) -> (r: bool)
    ensures
        r == same_profile(a@, b@),
{
    text::same(a.name.as_str(), b.name.as_str()) && a.startup_iterations == b.startup_iterations
        && a.command_iterations == b.command_iterations && a.latency_iterations
        == b.latency_iterations && a.output_iterations == b.output_iterations
        && a.settle_seconds.equals(b.settle_seconds) && a.sample_interval_ms
        == b.sample_interval_ms && a.idle_seconds.equals(b.idle_seconds) && a.terminal_cols
        == b.terminal_cols && a.terminal_rows == b.terminal_rows && a.output_lines
        == b.output_lines && a.pane_count == b.pane_count && a.resize_iterations
        == b.resize_iterations && a.extra_clients == b.extra_clients
}

fn run_message(run_id: &str, what: &str) -> (r: String)
    ensures
        r@ == "run "@ + run_id@ + what@,
{
    text::cat(text::cat("run ".to_owned(), run_id), what)
}

fn revision_message(run_id: &str, name: &str) -> (r: String)
    ensures
        r@ == "run "@ + run_id@ + " uses a different "@ + name@
            + " source commit and cannot be merged"@,
{
    let head: String = run_message(run_id, " uses a different ");
    text::cat(text::cat(head, name), " source commit and cannot be merged")
}

fn commits_differ(a: &Option<String>, b: &Option<String>) -> (r: bool)
    ensures
        r == (text::opt_text(*a) is Some && text::opt_text(*b) is Some && text::opt_text(*a)
            != text::opt_text(*b)),
{
    match a {
        Some(x) => match b {
            Some(y) => !text::same(x.as_str(), y.as_str()),
            None => false,
        },
        None => false,
    }
}

fn check_contender(run_id: &str, base: &ContenderResult, current: &ContenderResult) -> (r: Option<
    String,
>)
    ensures
        text::opt_text(r) == contender_conflict(run_id@, base@, current@),
{
    if !text::same(base.adapter.as_str(), current.adapter.as_str()) {
        let head: String = run_message(run_id, " uses a different adapter for ");
        Some(text::cat(head, base.id.as_str()))
    } else if commits_differ(&base.source.commit, &current.source.commit) {
        Some(revision_message(run_id, base.display_name.as_str()))
    } else {
        None
    }
}

pub proof fn lemma_contenders_conflict_stays(
    first: RunReportModel,
    other: RunReportModel,
    i: int,
    upto: int,
)
    requires
        0 <= i <= upto,
        contenders_conflict(first, other, i) is Some,
    ensures
        contenders_conflict(first, other, upto) == contenders_conflict(first, other, i),
    decreases upto,
{
    if i < upto {
        lemma_contenders_conflict_stays(first, other, i, upto - 1);
    }
}

fn check_contenders(first: &RunReport, other: &RunReport) -> (r: Option<String>)
    ensures
        text::opt_text(r) == contenders_conflict(
            first@,
            other@,
            first@.contenders.len() as int,
        ),
{
    let total: usize = first.contenders.len();
    let mut i: usize = 0;
    while i < total
        invariant
            i <= total,
            total == first.contenders@.len(),
            total == first@.contenders.len(),
            contenders_conflict(first@, other@, i as int) is None,
        decreases total - i,
    {
        let base: &ContenderResult = &first.contenders[i];
        assert(first@.contenders[i as int] == base@);
        match find_contender(&other.contenders, base.id.as_str()) {
            Some(k) => {
                let current: &ContenderResult = &other.contenders[k];
                assert(other@.contenders[k as int] == current@);
                match check_contender(other.run_id.as_str(), base, current) {
                    Some(e) => {
                        proof {
                            lemma_contenders_conflict_stays(first@, other@, i + 1, total as int);
                        }
                        return Some(e);
                    },
                    None => {},
                }
            },
            None => {},
        }
        i = i + 1;
    }
    None
}

fn check_run(first: &RunReport, other: &RunReport) -> (r: Option<String>)
    ensures
        text::opt_text(r) == run_conflict(first@, other@),
{
    if other.schema_version != first.schema_version {
        Some("runs with different result schemas cannot be merged".to_owned())
    } else if !covers(&first.contenders, &other.contenders) || !covers(
        &other.contenders,
        &first.contenders,
    ) {
        Some(
            run_message(
                other.run_id.as_str(),
                " has a different contender set and cannot be merged",
            ),
        )
    } else if !profiles_agree(&first.profile, &other.profile) {
        Some(
            run_message(
                other.run_id.as_str(),
                " uses a different benchmark profile and cannot be merged",
            ),
        )
    } else {
        check_contenders(first, other)
    }
}

/// Whether any contender of `a` and any of `b` are the contender `id` at different revisions.
fn has_rivals(a: &RunReport, b: &RunReport, id: &str) -> (r: bool)
    ensures
        r == exists|k: int, m: int|
            0 <= k < a@.contenders.len() && 0 <= m < b@.contenders.len() && b@.contenders[m].id
                == id@ && #[trigger] rivals(a@.contenders[k], b@.contenders[m]),
{
    let mut k: usize = 0;
    while k < a.contenders.len()
        invariant
            k <= a.contenders@.len(),
            forall|i: int, m: int|
                0 <= i < k && 0 <= m < b@.contenders.len() && b@.contenders[m].id == id@
                    ==> !#[trigger] rivals(a@.contenders[i], b@.contenders[m]),
        decreases a.contenders@.len() - k,
    {
        let base: &ContenderResult = &a.contenders[k];
        assert(a@.contenders[k as int] == base@);
        let mut m: usize = 0;
        while m < b.contenders.len()
            invariant
                k < a.contenders@.len(),
                m <= b.contenders@.len(),
                a@.contenders[k as int] == base@,
                forall|j: int|
                    0 <= j < m && b@.contenders[j].id == id@ ==> !#[trigger] rivals(
                        base@,
                        b@.contenders[j],
                    ),
            decreases b.contenders@.len() - m,
        {
            let current: &ContenderResult = &b.contenders[m];
            assert(b@.contenders[m as int] == current@);
            if text::same(current.id.as_str(), id) && text::same(base.id.as_str(), id)
                && commits_differ(&base.source.commit, &current.source.commit) {
                assert(rivals(a@.contenders[k as int], b@.contenders[m as int]));
                return true;
            }
            m = m + 1;
        }
        k = k + 1;
    }
    false
}

fn is_disputed(reports: &Vec<RunReport>, at: usize, id: &str) -> (r: bool)
    requires
        at < reports@.len(),
    ensures
        r == disputed(model::report_views(reports@), at as int, id@),
{
    let ghost view = model::report_views(reports@);
    assert(view[at as int] == reports@[at as int]@);
    let mut i: usize = 0;
    while i < at
        invariant
            i <= at < reports@.len(),
            view == model::report_views(reports@),
            view[at as int] == reports@[at as int]@,
            forall|j: int, k: int, m: int|
                0 <= j < i && 0 <= k < view[j].contenders.len() && 0 <= m
                    < view[at as int].contenders.len() && view[at as int].contenders[m].id == id@
                    ==> !#[trigger] rivals(
                    view[j].contenders[k],
                    view[at as int].contenders[m],
                ),
        decreases at - i,
    {
        assert(view[i as int] == reports@[i as int]@);
        if has_rivals(&reports[i], &reports[at], id) {
            return true;
        }
        i = i + 1;
    }
    false
}

proof fn lemma_revision_conflict_stays(list: Seq<RunReportModel>, at: int, i: int, upto: int)
    requires
        0 <= i <= upto,
        revision_conflict(list, at, i) is Some,
    ensures
        revision_conflict(list, at, upto) == revision_conflict(list, at, i),
    decreases upto,
{
    if i < upto {
        lemma_revision_conflict_stays(list, at, i, upto - 1);
    }
}

fn check_revisions(reports: &Vec<RunReport>, at: usize) -> (r: Option<String>)
    requires
        at < reports@.len(),
    ensures
        ({
            let view = model::report_views(reports@);
            text::opt_text(r) == revision_conflict(
                view,
                at as int,
                view[0].contenders.len() as int,
            )
        }),
{
    let ghost view = model::report_views(reports@);
    let first: &RunReport = &reports[0];
    assert(view[0] == first@);
    assert(view[at as int] == reports@[at as int]@);
    let total: usize = first.contenders.len();
    let mut i: usize = 0;
    while i < total
        invariant
            at < reports@.len(),
            view == model::report_views(reports@),
            view[0] == first@,
            view[at as int] == reports@[at as int]@,
            i <= total,
            total == first.contenders@.len(),
            total == first@.contenders.len(),
            revision_conflict(view, at as int, i as int) is None,
        decreases total - i,
    {
        let base: &ContenderResult = &first.contenders[i];
        assert(first@.contenders[i as int] == base@);
        if is_disputed(reports, at, base.id.as_str()) {
            proof {
                lemma_revision_conflict_stays(view, at as int, i + 1, total as int);
            }
            return Some(
                revision_message(reports[at].run_id.as_str(), base.display_name.as_str()),
            );
        }
        i = i + 1;
    }
    None
}

proof fn lemma_conflict_stays(list: Seq<RunReportModel>, i: int, upto: int)
    requires
        1 <= i <= upto,
        conflict(list, i) is Some,
    ensures
        conflict(list, upto) == conflict(list, i),
    decreases upto,
{
    if i < upto {
        lemma_conflict_stays(list, i, upto - 1);
    }
}

/// Whether the runs may stand in one report: each goes together with the first one, and no two of
/// them know different source revisions of a contender.
pub fn validate_merge(reports: &Vec<RunReport>) -> (r: Result<(), String>)
    ensures
        match r {
            Ok(_) => merge_fault(model::report_views(reports@)) is None,
            Err(e) => merge_fault(model::report_views(reports@)) == Some(e@),
        },
{
    let ghost view = model::report_views(reports@);
    if reports.len() == 0 {
        return Err("at least one report is required".to_owned());
    }
    assert(view[0] == reports@[0]@);
    let mut i: usize = 1;
    while i < reports.len()
        invariant
            1 <= i <= reports@.len(),
            view == model::report_views(reports@),
            view[0] == reports@[0]@,
            conflict(view, i as int) is None,
        decreases reports@.len() - i,
    {
        assert(view[i as int] == reports@[i as int]@);
        match check_run(&reports[0], &reports[i]) {
            Some(e) => {
                proof {
                    lemma_conflict_stays(view, i + 1, view.len() as int);
                }
                return Err(e);
            },
            None => {},
        }
        match check_revisions(reports, i) {
            Some(e) => {
                proof {
                    lemma_conflict_stays(view, i + 1, view.len() as int);
                }
                return Err(e);
            },
            None => {},
        }
        i = i + 1;
    }
    Ok(())
}

// ---------------------------------------------------------------------------------------------
// Publishing
// ---------------------------------------------------------------------------------------------

/// The first run, among the first `upto`, that cannot be published.
pub open spec fn publish_fault(list: Seq<RunReportModel>, upto: int) -> Option<Seq<char>>
    decreases upto,
{
    if upto <= 0 {
        None
    } else {
        match publish_fault(list, upto - 1) {
            Some(e) => Some(e),
            None => privacy::fault(list[upto - 1]),
        }
    }
}

/// The runs as they are published.
pub open spec fn published(list: Seq<RunReportModel>) -> Seq<RunReportModel> {
    list.map_values(|r: RunReportModel| privacy::clean(r))
}

proof fn lemma_publish_fault_stays(list: Seq<RunReportModel>, i: int, upto: int)
    requires
        0 <= i <= upto,
        publish_fault(list, i) is Some,
    ensures
        publish_fault(list, upto) == publish_fault(list, i),
    decreases upto,
{
    if i < upto {
        lemma_publish_fault_stays(list, i, upto - 1);
    }
}

/// Sanitizes each run.
fn sanitize_all(reports: &Vec<RunReport>) -> (r: Result<Vec<RunReport>, String>)
    ensures
        ({
            let view = model::report_views(reports@);
            match r {
                Ok(out) => publish_fault(view, view.len() as int) is None && model::report_views(
                    out@,
                ) == published(view) && (merge_fault(view) is None ==> settled(published(view))),
                Err(e) => publish_fault(view, view.len() as int) == Some(e@),
            }
        }),
{
    let ghost view = model::report_views(reports@);
    let mut out: Vec<RunReport> = Vec::new();
    let mut i: usize = 0;
    while i < reports.len()
        invariant
            i <= reports@.len(),
            view == model::report_views(reports@),
            publish_fault(view, i as int) is None,
            model::report_views(out@) =~= published(view).take(i as int),
            forall|j: int|
                0 <= j < i ==> (#[trigger] view[j]).contenders.len() <= usize::MAX,
            forall|j: int|
                0 <= j < i ==> privacy::sanitized(#[trigger] published(view)[j]) == Ok::<
                    RunReportModel,
                    Seq<char>,
                >(published(view)[j]),
        decreases reports@.len() - i,
    {
        assert(view[i as int] == reports@[i as int]@);
        let count: usize = reports[i].contenders.len();
        assert(view[i as int].contenders.len() == count);
        match privacy::sanitize(&reports[i]) {
            Ok(kept) => {
                assert(published(view)[i as int] == kept@);
                let ghost before = model::report_views(out@);
                out.push(kept);
                assert(model::report_views(out@) =~= before.push(kept@));
            },
            Err(e) => {
                proof {
                    lemma_publish_fault_stays(view, i + 1, view.len() as int);
                }
                return Err(e);
            },
        }
        i = i + 1;
    }
    assert(published(view).take(i as int) =~= published(view));
    proof {
        if merge_fault(view) is None {
            lemma_published_settles(view);
        }
    }
    Ok(out)
}

/// What came of reading one report file.
#[derive(Debug)]
pub enum Source {
    Unreadable { path: String, detail: String },
    Malformed { path: String, detail: String },
    Parsed { path: String, report: RunReport },
}

/// What a `Source` says.
pub ghost enum SourceModel {
    Unreadable { path: Seq<char>, detail: Seq<char> },
    Malformed { path: Seq<char>, detail: Seq<char> },
    Parsed { path: Seq<char>, report: RunReportModel },
}

impl View for Source {
    type V = SourceModel;

    open spec fn view(&self) -> SourceModel {
        match self {
            Source::Unreadable { path, detail } => SourceModel::Unreadable {
                path: path@,
                detail: detail@,
            },
            Source::Malformed { path, detail } => SourceModel::Malformed {
                path: path@,
                detail: detail@,
            },
            Source::Parsed { path, report } => SourceModel::Parsed {
                path: path@,
                report: report@,
            },
        }
    }
}

pub open spec fn source_views(list: Seq<Source>) -> Seq<SourceModel> {
    list.map_values(|s: Source| s@)
}

/// The report formats that can be read.
pub open spec fn readable_schema(version: u32) -> bool {
    version == 5 || version == 6 || version == RESULT_SCHEMA_VERSION
}

pub open spec fn schema_message(version: u32, path: Seq<char>) -> Seq<char> {
    "unsupported schema "@ + decimal::decimal(version as nat) + " in "@ + path
        + " (tool supports "@ + decimal::decimal(RESULT_SCHEMA_VERSION as nat) + ")"@
}

/// What is wrong with one source.
pub open spec fn source_fault(s: SourceModel) -> Option<Seq<char>> {
    match s {
        SourceModel::Unreadable { path, detail } => Some(
            "could not read "@ + path + ": "@ + detail,
        ),
        SourceModel::Malformed { path, detail } => Some(
            "invalid report "@ + path + ": "@ + detail,
        ),
        SourceModel::Parsed { path, report } => if readable_schema(report.schema_version) {
            None
        } else {
            Some(schema_message(report.schema_version, path))
        },
    }
}

/// The first fault among the first `upto` sources.
pub open spec fn sources_fault(list: Seq<SourceModel>, upto: int) -> Option<Seq<char>>
    decreases upto,
{
    if upto <= 0 {
        None
    } else {
        match sources_fault(list, upto - 1) {
            Some(e) => Some(e),
            None => source_fault(list[upto - 1]),
        }
    }
}

/// The reports in the sources.
pub open spec fn reports_in(list: Seq<SourceModel>) -> Seq<RunReportModel> {
    list.map_values(|s: SourceModel| s->report)
}

/// Why the sources cannot be loaded. Runs are compared before they are sanitized, so that
/// redaction cannot make incompatible runs mergeable.
pub open spec fn load_fault(list: Seq<SourceModel>) -> Option<Seq<char>> {
    let reports = reports_in(list);
    match sources_fault(list, list.len() as int) {
        Some(e) => Some(e),
        None => match merge_fault(reports) {
            Some(e) => Some(e),
            None => publish_fault(reports, reports.len() as int),
        },
    }
}

/// The message that is shown for an error.
pub open spec fn shown_error(error: Seq<char>) -> Seq<char> {
    privacy::error_category(error) + ". "@ + privacy::OMITTED@
}

fn check_source(s: &Source) -> (r: Option<String>)
    ensures
        text::opt_text(r) == source_fault(s@),
{
    match s {
        Source::Unreadable { path, detail } => Some(
            text::cat(
                text::cat(text::cat("could not read ".to_owned(), path.as_str()), ": "),
                detail.as_str(),
            ),
        ),
        Source::Malformed { path, detail } => Some(
            text::cat(
                text::cat(text::cat("invalid report ".to_owned(), path.as_str()), ": "),
                detail.as_str(),
            ),
        ),
        Source::Parsed { path, report } => {
            let version: u32 = report.schema_version;
            if version == 5 || version == 6 || version == RESULT_SCHEMA_VERSION {
                return None;
            }
            let head: String = text::cat(
                text::cat(
                    "unsupported schema ".to_owned(),
                    decimal::decimal_text(version as u64).as_str(),
                ),
                " in ",
            );
            let tool: String = decimal::decimal_text(RESULT_SCHEMA_VERSION as u64);
            Some(
                text::cat(
                    text::cat(
                        text::cat(text::cat(head, path.as_str()), " (tool supports "),
                        tool.as_str(),
                    ),
                    ")",
                ),
            )
        },
    }
}

proof fn lemma_sources_fault_stays(list: Seq<SourceModel>, i: int, upto: int)
    requires
        0 <= i <= upto,
        sources_fault(list, i) is Some,
    ensures
        sources_fault(list, upto) == sources_fault(list, i),
    decreases upto,
{
    if i < upto {
        lemma_sources_fault_stays(list, i, upto - 1);
    }
}

fn collect_reports(sources: &Vec<Source>) -> (r: Result<Vec<RunReport>, String>)
    ensures
        ({
            let view = source_views(sources@);
            match r {
                Ok(out) => sources_fault(view, view.len() as int) is None && model::report_views(
                    out@,
                ) == reports_in(view),
                Err(e) => sources_fault(view, view.len() as int) == Some(e@),
            }
        }),
{
    let ghost view = source_views(sources@);
    let mut out: Vec<RunReport> = Vec::new();
    let mut i: usize = 0;
    while i < sources.len()
        invariant
            i <= sources@.len(),
            view == source_views(sources@),
            sources_fault(view, i as int) is None,
            model::report_views(out@) =~= reports_in(view).take(i as int),
        decreases sources@.len() - i,
    {
        assert(view[i as int] == sources@[i as int]@);
        match check_source(&sources[i]) {
            Some(e) => {
                proof {
                    lemma_sources_fault_stays(view, i + 1, view.len() as int);
                }
                return Err(e);
            },
            None => {},
        }
        match &sources[i] {
            Source::Parsed { path: _, report } => {
                let ghost before = model::report_views(out@);
                let kept: RunReport = report.clone();
                out.push(kept);
                assert(model::report_views(out@) =~= before.push(kept@));
            },
            _ => {},
        }
        i = i + 1;
    }
    assert(reports_in(view).take(i as int) =~= reports_in(view));
    Ok(out)
}

fn load_reports_internal(sources: &Vec<Source>) -> (r: Result<Vec<RunReport>, String>)
    ensures
        match r {
            Ok(out) => load_fault(source_views(sources@)) is None && model::report_views(out@)
                == published(reports_in(source_views(sources@))) && settled(
                model::report_views(out@),
            ),
            Err(e) => load_fault(source_views(sources@)) == Some(e@),
        },
{
    let reports: Vec<RunReport> = match collect_reports(sources) {
        Ok(reports) => reports,
        Err(e) => {
            return Err(e);
        },
    };
    match validate_merge(&reports) {
        Ok(_) => {},
        Err(e) => {
            return Err(e);
        },
    }
    sanitize_all(&reports)
}

/// The reports in the sources, sanitized. An error is shown by its category alone.
pub fn load_reports(sources: &Vec<Source>) -> (r: Result<Vec<RunReport>, String>)
    ensures
        match r {
            Ok(out) => load_fault(source_views(sources@)) is None && model::report_views(out@)
                == published(reports_in(source_views(sources@))) && settled(
                model::report_views(out@),
            ),
            Err(e) => load_fault(source_views(sources@)) matches Some(raw) && e@ == shown_error(
                raw,
            ),
        },
{
    match load_reports_internal(sources) {
        Ok(out) => Ok(out),
        Err(e) => Err(privacy::public_error(e.as_str())),
    }
}

/// Why the runs cannot be shown: a conflict by its category, anything else as it is.
pub open spec fn prepare_fault(list: Seq<RunReportModel>) -> Option<Seq<char>> {
    match merge_fault(list) {
        Some(e) => Some(shown_error(e)),
        None => publish_fault(list, list.len() as int),
    }
}

/// The runs are as publishing leaves them: they may stand together, and publishing them changes
/// nothing.
pub open spec fn settled(list: Seq<RunReportModel>) -> bool {
    prepare_fault(list) is None && published(list) == list
}

/// The runs as they are shown: compared, then sanitized.
pub fn prepare(reports: &Vec<RunReport>) -> (r: Result<Vec<RunReport>, String>)
    ensures
        match r {
            Ok(out) => prepare_fault(model::report_views(reports@)) is None && model::report_views(
                out@,
            ) == published(model::report_views(reports@)) && settled(model::report_views(out@)),
            Err(e) => prepare_fault(model::report_views(reports@)) == Some(e@),
        },
{
    match validate_merge(reports) {
        Ok(_) => {},
        Err(e) => {
            return Err(privacy::public_error(e.as_str()));
        },
    }
    sanitize_all(reports)
}

/// The comparison document. Its title is fixed; `figures` are those of the runs as `prepare` gives
/// them. Runs that cannot be shown together are refused before anything is sanitized. The runs as
/// `prepare` gives them show the same document as the runs themselves.
pub fn markdown(_title: &str, reports: &Vec<RunReport>, figures: &Figures) -> (r: Result<
    String,
    String,
>)
    requires
        prepare_fault(model::report_views(reports@)) is None ==> reports@[0]@.contenders.len() > 0,
    ensures
        match r {
            Ok(out) => prepare_fault(model::report_views(reports@)) is None && out@
                == document::document(published(model::report_views(reports@)), figures@),
            Err(e) => prepare_fault(model::report_views(reports@)) == Some(e@),
        },
        r matches Ok(out) ==> text::starts_with(out@, "# "@ + privacy::TITLE@ + "\n"@),
        r is Ok ==> settled(published(model::report_views(reports@))),
{
    let ghost view = model::report_views(reports@);
    match prepare(reports) {
        Ok(safe) => {
            proof {
                assert(view.len() > 0);
                assert(published(view)[0] == privacy::clean(view[0]));
                assert(model::report_views(safe@).len() == safe@.len());
                assert(published(view).len() == view.len());
                assert(model::report_views(safe@)[0] == safe@[0]@);
                assert(safe@[0]@.contenders.len() == view[0].contenders.len());
                assert(view[0] == reports@[0]@);
                document::law_document_has_the_fixed_title(published(view), figures@);
            }
            Ok(document::render(&safe, figures))
        },
        Err(e) => Err(e),
    }
}

/// A run that conflicts with the first one is refused, whatever the others are and whatever
/// sanitizing would make of it.
pub proof fn law_conflicting_runs_are_refused(list: Seq<RunReportModel>, i: int)
    requires
        1 <= i < list.len(),
        run_conflict(list[0], list[i]) is Some,
    ensures
        merge_fault(list) is Some,
        prepare_fault(list) is Some,
{
    lemma_conflict_found(list, i, list.len() as int);
}

proof fn lemma_conflict_found(list: Seq<RunReportModel>, i: int, upto: int)
    requires
        1 <= i < upto <= list.len(),
        run_conflict(list[0], list[i]) is Some,
    ensures
        conflict(list, upto) is Some,
    decreases upto,
{
    if i < upto - 1 {
        lemma_conflict_found(list, i, upto - 1);
    }
}

/// Two runs that know different source revisions of a contender are refused, wherever they stand
/// among the runs and whatever the others know.
pub proof fn law_known_revisions_have_to_agree(
    list: Seq<RunReportModel>,
    i: int,
    j: int,
    k: int,
    m: int,
)
    requires
        0 <= i < j < list.len(),
        0 <= k < list[i].contenders.len(),
        0 <= m < list[j].contenders.len(),
        rivals(list[i].contenders[k], list[j].contenders[m]),
    ensures
        merge_fault(list) is Some,
        prepare_fault(list) is Some,
{
    let id = list[j].contenders[m].id;
    if conflict(list, j + 1) is None {
        assert(run_conflict(list[0], list[j]) is None);
        assert(identified(list[0].contenders, id));
        let b = choose|b: int|
            0 <= b < list[0].contenders.len() && (#[trigger] list[0].contenders[b]).id == id;
        assert(disputed(list, j, id));
        assert(revision_conflict(list, j, b + 1) is Some);
        lemma_revision_conflict_stays(list, j, b + 1, list[0].contenders.len() as int);
    }
    lemma_conflict_stays(list, j + 1, list.len() as int);
}

/// Runs that have been published can be published again, and show the same document: the one that
/// begins with the fixed title. What the digest of a run's name looks like is part of the
/// premises; `privacy::digest_hex` says it of every digest that it makes.
pub proof fn law_published_runs_show_the_same(list: Seq<RunReportModel>, figures: FiguresModel)
    requires
        prepare_fault(list) is None,
        forall|i: int|
            0 <= i < list.len() ==> (#[trigger] list[i]).contenders.len() <= usize::MAX
                && privacy::opaque_id(privacy::clean_run_id(list[i].run_id)),
    ensures
        settled(published(list)),
        document::document(published(published(list)), figures) == document::document(
            published(list),
            figures,
        ),
        text::starts_with(
            document::document(published(list), figures),
            "# "@ + privacy::TITLE@ + "\n"@,
        ),
{
    let kept = published(list);
    lemma_publishable(list, list.len() as int);
    assert forall|i: int| 0 <= i < kept.len() implies privacy::sanitized(#[trigger] kept[i]) == Ok::<
        RunReportModel,
        Seq<char>,
    >(kept[i]) by {
        assert(privacy::fault(list[i]) is None);
        privacy::lemma_sanitized_stays(list[i]);
    }
    lemma_published_settles(list);
    document::law_document_has_the_fixed_title(kept, figures);
}

/// Each of the runs can be published.
proof fn lemma_publishable(list: Seq<RunReportModel>, upto: int)
    requires
        upto <= list.len(),
        publish_fault(list, upto) is None,
    ensures
        forall|i: int| 0 <= i < upto ==> privacy::fault(#[trigger] list[i]) is None,
    decreases upto,
{
    if upto > 0 {
        lemma_publishable(list, upto - 1);
    }
}

proof fn lemma_nothing_unpublishable(list: Seq<RunReportModel>, upto: int)
    requires
        upto <= list.len(),
        forall|i: int| 0 <= i < upto ==> privacy::fault(#[trigger] list[i]) is None,
    ensures
        publish_fault(list, upto) is None,
    decreases upto,
{
    if upto > 0 {
        lemma_nothing_unpublishable(list, upto - 1);
        assert(privacy::fault(list[upto - 1]) is None);
    }
}

proof fn lemma_first_identified(list: Seq<ContenderResultModel>, id: Seq<char>, from: int)
    requires
        0 <= from,
    ensures
        match first_identified(list, id, from) {
            Some(k) => from <= k < list.len() && list[k].id == id,
            None => forall|j: int| from <= j < list.len() ==> (#[trigger] list[j]).id != id,
        },
    decreases list.len() - from,
{
    if from < list.len() && list[from].id != id {
        lemma_first_identified(list, id, from + 1);
    }
}

/// The same contender is found in two lists whose identifiers stand for each other.
proof fn lemma_same_identified(
    a: Seq<ContenderResultModel>,
    x: Seq<char>,
    b: Seq<ContenderResultModel>,
    y: Seq<char>,
    from: int,
)
    requires
        0 <= from,
        a.len() == b.len(),
        forall|k: int| 0 <= k < a.len() ==> ((#[trigger] a[k]).id == x) == (b[k].id == y),
    ensures
        first_identified(a, x, from) == first_identified(b, y, from),
    decreases a.len() - from,
{
    if from < a.len() {
        assert((a[from].id == x) == (b[from].id == y));
        lemma_same_identified(a, x, b, y, from + 1);
    }
}

/// The conflict of one contender of the first run with the other run.
spec fn conflict_at(first: RunReportModel, other: RunReportModel, k: int) -> Option<Seq<char>> {
    let base = first.contenders[k];
    match first_identified(other.contenders, base.id, 0) {
        Some(m) => contender_conflict(other.run_id, base, other.contenders[m]),
        None => None,
    }
}

proof fn lemma_contenders_conflict(first: RunReportModel, other: RunReportModel, upto: int)
    requires
        upto <= first.contenders.len(),
    ensures
        (contenders_conflict(first, other, upto) is None) == (forall|k: int|
            0 <= k < upto ==> #[trigger] conflict_at(first, other, k) is None),
    decreases upto,
{
    if upto > 0 {
        lemma_contenders_conflict(first, other, upto - 1);
        assert(conflict_at(first, other, upto - 1) is None || conflict_at(first, other, upto - 1)
            is Some);
    }
}

/// Runs that go together line their contenders up in the same way.
proof fn lemma_runs_line_up(first: RunReportModel, other: RunReportModel)
    requires
        run_conflict(first, other) is None,
        privacy::fault(first) is None,
        privacy::fault(other) is None,
    ensures
        aliases::lineup(first.contenders) == aliases::lineup(other.contenders),
{
    let (a, b) = (first.contenders, other.contenders);
    lemma_contenders_conflict(first, other, a.len() as int);
    assert forall|k: int| 0 <= k < a.len() implies aliases::identities(b).contains(
        ((#[trigger] a[k]).id, a[k].adapter),
    ) by {
        assert(conflict_at(first, other, k) is None);
        assert(identified(b, a[k].id));
        lemma_first_identified(b, a[k].id, 0);
        let m = first_identified(b, a[k].id, 0).unwrap();
        assert(aliases::identities(b)[m] == (a[k].id, a[k].adapter));
    }
    assert forall|m: int| 0 <= m < b.len() implies exists|k: int|
        0 <= k < a.len() && (#[trigger] a[k]).id == (#[trigger] b[m]).id by {
        assert(identified(a, b[m].id));
    }
    aliases::lemma_lineups_agree(a, b);
}

/// In runs that line up in the same way, the same aliases stand for the same contenders.
proof fn lemma_aliases_tell(a: RunReportModel, k: int, b: RunReportModel, m: int)
    requires
        a.contenders.len() <= usize::MAX,
        privacy::fault(a) is None,
        aliases::lineup(a.contenders) == aliases::lineup(b.contenders),
        0 <= k < a.contenders.len(),
        0 <= m < b.contenders.len(),
    ensures
        (privacy::clean(a).contenders[k].id == privacy::clean(b).contenders[m].id) == (
        a.contenders[k].id == b.contenders[m].id),
{
    aliases::lemma_every_contender_has_an_alias(a.contenders, k);
    aliases::lemma_every_contender_has_an_alias(b.contenders, m);
    if privacy::clean(a).contenders[k].id == privacy::clean(b).contenders[m].id {
        aliases::lemma_alias_tells(a.contenders, a.contenders[k].id, b.contenders[m].id);
    }
}

/// Publishing two runs that go together gives runs that go together.
proof fn lemma_published_runs_agree(first: RunReportModel, other: RunReportModel)
    requires
        run_conflict(first, other) is None,
        first.contenders.len() <= usize::MAX,
        other.contenders.len() <= usize::MAX,
        privacy::fault(first) is None,
        privacy::fault(other) is None,
    ensures
        run_conflict(privacy::clean(first), privacy::clean(other)) is None,
{
    let (a, b) = (first.contenders, other.contenders);
    let (one, two) = (privacy::clean(first), privacy::clean(other));
    lemma_runs_line_up(first, other);
    assert forall|k: int, m: int| 0 <= k < a.len() && 0 <= m < b.len() implies (
    #[trigger] one.contenders[k].id == #[trigger] two.contenders[m].id) == (a[k].id
        == b[m].id) by {
        lemma_aliases_tell(first, k, other, m);
    }
    assert forall|k: int| 0 <= k < one.contenders.len() implies identified(
        two.contenders,
        (#[trigger] one.contenders[k]).id,
    ) by {
        assert(identified(b, a[k].id));
        let m = choose|m: int| 0 <= m < b.len() && (#[trigger] b[m]).id == a[k].id;
        assert(two.contenders[m].id == one.contenders[k].id);
    }
    assert forall|m: int| 0 <= m < two.contenders.len() implies identified(
        one.contenders,
        (#[trigger] two.contenders[m]).id,
    ) by {
        assert(identified(a, b[m].id));
        let k = choose|k: int| 0 <= k < a.len() && (#[trigger] a[k]).id == b[m].id;
        assert(one.contenders[k].id == two.contenders[m].id);
    }
    lemma_contenders_conflict(first, other, a.len() as int);
    lemma_contenders_conflict(one, two, a.len() as int);
    assert forall|k: int| 0 <= k < a.len() implies #[trigger] conflict_at(one, two, k) is None by {
        assert(conflict_at(first, other, k) is None);
        lemma_same_identified(b, a[k].id, two.contenders, one.contenders[k].id, 0);
        lemma_first_identified(b, a[k].id, 0);
    }
}

/// Publishing brings no dispute about a source revision.
proof fn lemma_published_revisions_agree(list: Seq<RunReportModel>, at: int, upto: int)
    requires
        merge_fault(list) is None,
        1 <= at < list.len(),
        forall|i: int|
            0 <= i < list.len() ==> (#[trigger] list[i]).contenders.len() <= usize::MAX
                && privacy::fault(list[i]) is None,
        forall|i: int|
            1 <= i < list.len() ==> run_conflict(list[0], #[trigger] list[i]) is None,
    ensures
        revision_conflict(published(list), at, upto) is None,
    decreases upto,
{
    let kept = published(list);
    if upto > 0 {
        lemma_published_revisions_agree(list, at, upto - 1);
        let id = kept[0].contenders[upto - 1].id;
        if disputed(kept, at, id) {
            let (i, k, m) = choose|i: int, k: int, m: int|
                0 <= i < at && 0 <= k < kept[i].contenders.len() && 0 <= m
                    < kept[at].contenders.len() && kept[at].contenders[m].id == id
                    && #[trigger] rivals(kept[i].contenders[k], kept[at].contenders[m]);
            assert(run_conflict(list[0], list[at]) is None);
            lemma_runs_line_up(list[0], list[at]);
            if i > 0 {
                assert(run_conflict(list[0], list[i]) is None);
                lemma_runs_line_up(list[0], list[i]);
            }
            assert(list[i].contenders.len() <= usize::MAX);
            assert(kept[i] == privacy::clean(list[i]));
            assert(kept[at] == privacy::clean(list[at]));
            lemma_aliases_tell(list[i], k, list[at], m);
            assert(rivals(list[i].contenders[k], list[at].contenders[m]));
            law_known_revisions_have_to_agree(list, i, at, k, m);
        }
    }
}

/// The first `upto` runs, published, go together.
proof fn lemma_published_conflict(list: Seq<RunReportModel>, upto: int)
    requires
        merge_fault(list) is None,
        upto <= list.len(),
        forall|i: int|
            0 <= i < list.len() ==> (#[trigger] list[i]).contenders.len() <= usize::MAX
                && privacy::fault(list[i]) is None,
        forall|i: int|
            1 <= i < list.len() ==> run_conflict(list[0], #[trigger] list[i]) is None,
    ensures
        conflict(published(list), upto) is None,
    decreases upto,
{
    if upto > 1 {
        let kept = published(list);
        lemma_published_conflict(list, upto - 1);
        assert(kept[0] == privacy::clean(list[0]));
        assert(kept[upto - 1] == privacy::clean(list[upto - 1]));
        assert(list[0].contenders.len() <= usize::MAX);
        assert(list[upto - 1].contenders.len() <= usize::MAX);
        lemma_published_runs_agree(list[0], list[upto - 1]);
        lemma_published_revisions_agree(list, upto - 1, kept[0].contenders.len() as int);
    }
}

proof fn lemma_published_settles(list: Seq<RunReportModel>)
    requires
        prepare_fault(list) is None,
        forall|i: int| 0 <= i < list.len() ==> (#[trigger] list[i]).contenders.len() <= usize::MAX,
        forall|i: int|
            0 <= i < list.len() ==> privacy::sanitized(#[trigger] published(list)[i]) == Ok::<
                RunReportModel,
                Seq<char>,
            >(published(list)[i]),
    ensures
        settled(published(list)),
{
    let kept = published(list);
    lemma_publishable(list, list.len() as int);
    assert forall|i: int| 1 <= i < list.len() implies run_conflict(
        list[0],
        #[trigger] list[i],
    ) is None by {
        if run_conflict(list[0], list[i]) is Some {
            law_conflicting_runs_are_refused(list, i);
        }
    }
    lemma_published_conflict(list, list.len() as int);
    assert forall|i: int| 0 <= i < kept.len() implies privacy::fault(#[trigger] kept[i]) is None
        && privacy::clean(kept[i]) == kept[i] by {
        assert(privacy::sanitized(published(list)[i]) == Ok::<RunReportModel, Seq<char>>(kept[i]));
    }
    lemma_nothing_unpublishable(kept, kept.len() as int);
    assert(published(kept) =~= kept);
}

} // verus!
