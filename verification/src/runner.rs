//! A whole run: its trials, its warnings, and the report that is published.

use vstd::prelude::*;
use crate::adapters;
use crate::config;
use crate::config::{Config, ContenderConfig, ContenderModel};
use crate::decimal;
use crate::measure::Real;
use crate::model;
use crate::model::{
    ArtifactInfo, AssuranceFinding, BenchmarkResult, ContenderResult, ContenderResultModel,
    FairnessRecord, FairnessRecordModel, Figures, HostInfo, HostInfoModel, MetricDirection,
    ProfileRecord, ProfileRecordModel, RunReport, RunReportModel, SourceInfo, StaticAnalysis,
    RESULT_SCHEMA_VERSION,
};
use crate::oracle;
use crate::paths;
use crate::plan;
use crate::plan::{Draft, DraftModel, Record, RecordModel};
use crate::privacy;
use crate::text;

verus! {

// ---------------------------------------------------------------------------------------------
// Startup trials
// ---------------------------------------------------------------------------------------------

/// What came of a startup trial.
#[derive(Debug)]
pub enum Trial {
    /// The server did not start.
    Failed { error: String },
    /// It started and stopped, each in so many milliseconds.
    Stopped { startup: Real, shutdown: Real },
    /// It started but could not be stopped.
    Stuck { startup: Real, error: String },
}

/// What a `Trial` says.
pub ghost enum TrialModel {
    Failed { error: Seq<char> },
    Stopped { startup: Real, shutdown: Real },
    Stuck { startup: Real, error: Seq<char> },
}

impl View for Trial {
    type V = TrialModel;

    open spec fn view(&self) -> TrialModel {
        match self {
            Trial::Failed { error } => TrialModel::Failed { error: error@ },
            Trial::Stopped { startup, shutdown } => TrialModel::Stopped {
                startup: *startup,
                shutdown: *shutdown,
            },
            Trial::Stuck { startup, error } => TrialModel::Stuck {
                startup: *startup,
                error: error@,
            },
        }
    }
}

pub open spec fn trial_views(list: Seq<Trial>) -> Seq<TrialModel> {
    list.map_values(|t: Trial| t@)
}

/// The contender of the trial that comes after so many: round by round, every other round in
/// reverse.
pub open spec fn tried(order: Seq<usize>, done: int) -> usize {
    let n = order.len() as int;
    if (done / n) % 2 == 0 {
        order[done % n]
    } else {
        order[n - 1 - done % n]
    }
}

/// A startup trial.
#[derive(Debug, Clone, Copy, PartialEq, Eq, Structural)]
pub struct StartupTrial {
    pub round: usize,
    pub index: usize,
    /// The number that sets its session apart.
    pub sequence: usize,
}

fn contender_at(order: &Vec<usize>, done: usize) -> (r: usize)
    requires
        order@.len() > 0,
    ensures
        r == tried(order@, done as int),
        order@.contains(r),
{
    let n: usize = order.len();
    let round: usize = done / n;
    let place: usize = done % n;
    let at: usize = if round % 2 == 0 {
        place
    } else {
        n - 1 - place
    };
    assert(order@.contains(order@[at as int]));
    order[at]
}

/// The trial after so many, until every round is over.
pub fn startup_next(iterations: usize, order: &Vec<usize>, done: usize) -> (r: Option<StartupTrial>)
    requires
        forall|i: int| 0 <= i < order@.len() ==> #[trigger] order@[i] < order@.len(),
        iterations * 100 + order@.len() <= usize::MAX,
    ensures
        r == (if order@.len() > 0 && (done as int) / (order@.len() as int) < iterations {
            Some(
                StartupTrial {
                    round: (done as int / order@.len() as int) as usize,
                    index: tried(order@, done as int),
                    sequence: ((done as int / order@.len() as int) * 100 + tried(
                        order@,
                        done as int,
                    )) as usize,
                },
            )
        } else {
            None
        }),
{
    let n: usize = order.len();
    if n == 0 {
        return None;
    }
    let round: usize = done / n;
    if round >= iterations {
        return None;
    }
    let index: usize = contender_at(order, done);
    proof {
        let i = order@.index_of(index);
        assert(order@[i] == index);
    }
    assert(round * 100 + index <= usize::MAX);
    Some(StartupTrial { round, index, sequence: round * 100 + index })
}

/// What one contender's trials have left behind.
#[verifier::ext_equal]
pub ghost struct Tries {
    pub startup: Seq<Real>,
    pub shutdown: Seq<Real>,
    pub errors: Seq<Seq<char>>,
}

/// What is left behind with one more trial, in some round.
pub open spec fn with_trial(t: Tries, round: nat, trial: TrialModel) -> Tries {
    match trial {
        TrialModel::Failed { error } => Tries {
            errors: t.errors.push("startup trial "@ + decimal::decimal(round + 1) + ": "@ + error),
            ..t
        },
        TrialModel::Stopped { startup, shutdown } => Tries {
            startup: t.startup.push(startup),
            shutdown: t.shutdown.push(shutdown),
            errors: t.errors,
        },
        TrialModel::Stuck { startup, error } => Tries {
            startup: t.startup.push(startup),
            shutdown: t.shutdown,
            errors: t.errors.push("startup trial teardown: "@ + error),
        },
    }
}

/// What the trials of one contender have left behind.
pub open spec fn tries(order: Seq<usize>, trials: Seq<TrialModel>, index: usize) -> Tries
    decreases trials.len(),
{
    if trials.len() == 0 {
        Tries { startup: Seq::empty(), shutdown: Seq::empty(), errors: Seq::empty() }
    } else {
        let earlier = tries(order, trials.drop_last(), index);
        let last = trials.len() - 1;
        if tried(order, last) == index {
            with_trial(earlier, (last / order.len() as int) as nat, trials.last())
        } else {
            earlier
        }
    }
}

pub const INCOMPLETE: &'static str = "startup trial set is incomplete";

pub const STARTUP_NOTE: &'static str =
    "Product start command through the first successful pane-listing probe over the product socket; PID discovery is outside the timed window. Trial order reverses each round.";

pub const SHUTDOWN_NOTE: &'static str =
    "Graceful product command through observed server exit and persistence flush.";

/// What is written down of a contender's trials: a startup time only where every trial started.
pub open spec fn startup_outcome(iterations: usize, t: Tries) -> RecordModel {
    let started = if t.startup.len() != iterations {
        plan::failed("server_startup_ready"@, INCOMPLETE@)
    } else {
        plan::measured(
            "server_startup_ready"@,
            "ms"@,
            MetricDirection::Lower,
            t.startup,
            STARTUP_NOTE@,
            plan::no_data(),
        )
    };
    let stopped = plan::measured(
        "server_shutdown"@,
        "ms"@,
        MetricDirection::Lower,
        t.shutdown,
        SHUTDOWN_NOTE@,
        plan::no_data(),
    );
    RecordModel {
        errors: t.errors,
        drafts: if t.shutdown.len() > 0 {
            seq![started, stopped]
        } else {
            seq![started]
        },
    }
}

/// What is written down of a contender's startup trials.
pub fn run_startup_trials(
    iterations: usize,
    order: &Vec<usize>,
    trials: &Vec<Trial>,
    index: usize,
) -> (r: Record)
    requires
        order@.len() > 0,
    ensures
        r@ == startup_outcome(iterations, tries(order@, trial_views(trials@), index)),
{
    let ghost view = trial_views(trials@);
    let n: usize = order.len();
    let mut startup: Vec<Real> = Vec::new();
    let mut shutdown: Vec<Real> = Vec::new();
    let mut record: Record = Record::new();
    let mut i: usize = 0;
    let ghost mut so_far = tries(order@, view.take(0), index);
    assert(so_far.startup =~= startup@);
    assert(so_far.shutdown =~= shutdown@);
    while i < trials.len()
        invariant
            i <= trials@.len(),
            0 < n,
            n == order@.len(),
            view == trial_views(trials@),
            so_far == tries(order@, view.take(i as int), index),
            startup@ == so_far.startup,
            shutdown@ == so_far.shutdown,
            record@.errors == so_far.errors,
            record@.drafts == Seq::<DraftModel>::empty(),
        decreases trials@.len() - i,
    {
        proof {
            assert(view.take(i + 1).drop_last() =~= view.take(i as int));
            assert(view.take(i + 1).last() == trials@[i as int]@);
            so_far = tries(order@, view.take(i + 1), index);
        }
        if contender_at(order, i) == index {
            match &trials[i] {
                Trial::Failed { error } => {
                    let round: usize = i / n;
                    let head: String = text::cat(
                        "startup trial ".to_owned(),
                        decimal::decimal_text(round as u64 + 1).as_str(),
                    );
                    record.push_error(text::cat(text::cat(head, ": "), error.as_str()));
                },
                Trial::Stopped { startup: up, shutdown: down } => {
                    startup.push(*up);
                    shutdown.push(*down);
                },
                Trial::Stuck { startup: up, error } => {
                    startup.push(*up);
                    record.push_error(
                        text::cat("startup trial teardown: ".to_owned(), error.as_str()),
                    );
                },
            }
        }
        i = i + 1;
    }
    assert(view.take(i as int) =~= view);
    if startup.len() != iterations {
        record.push_failed("server_startup_ready", INCOMPLETE);
    } else {
        record.push_draft(
            plan::measured_draft(
                "server_startup_ready",
                "ms",
                MetricDirection::Lower,
                startup,
                STARTUP_NOTE,
                plan::no_metadata(),
            ),
        );
    }
    if shutdown.len() > 0 {
        record.push_draft(
            plan::measured_draft(
                "server_shutdown",
                "ms",
                MetricDirection::Lower,
                shutdown,
                SHUTDOWN_NOTE,
                plan::no_metadata(),
            ),
        );
    }
    assert(record@.drafts =~= startup_outcome(iterations, so_far).drafts);
    record
}

/// Each round of trials goes through all contenders, one round in the order that the seed has
/// chosen and the next in reverse, so no contender always follows the same other.
pub proof fn law_rounds_alternate(order: Seq<usize>, round: nat, place: int)
    requires
        0 <= place < order.len(),
    ensures
        tried(order, round * order.len() + place) == (if round % 2 == 0 {
            order[place]
        } else {
            order.reverse()[place]
        }),
{
    let n = order.len() as int;
    let k = round * n + place;
    assert(k / n == round && k % n == place) by {
        vstd::arithmetic::div_mod::lemma_fundamental_div_mod_converse(
            k,
            n,
            round as int,
            place,
        );
    }
    assert(order.reverse()[place] == order[n - 1 - place]);
}

/// A startup time is reported as measured only where every one of the trials has started.
pub proof fn law_incomplete_trials_are_not_measured(iterations: usize, t: Tries)
    requires
        startup_outcome(iterations, t).drafts[0].status == model::BenchmarkStatus::Measured,
    ensures
        startup_outcome(iterations, t).drafts[0].name == "server_startup_ready"@,
        startup_outcome(iterations, t).drafts[0].samples.len() == iterations,
{
}

// ---------------------------------------------------------------------------------------------
// Contenders
// ---------------------------------------------------------------------------------------------

pub const SIZE_NOTE: &'static str =
    "Exact executable file size; symbols and packaging depend on the supplied build.";

/// The metric of the size of a binary.
pub open spec fn size_metric(bytes: Real) -> DraftModel {
    plan::measured(
        "binary_size"@,
        "bytes"@,
        MetricDirection::Lower,
        seq![bytes],
        SIZE_NOTE@,
        plan::no_data(),
    )
}

/// The record of a contender with the size of its binary.
pub fn binary_size(bytes: Real) -> (r: Record)
    ensures
        r@ == RecordModel::empty().draft(size_metric(bytes)),
{
    let mut record: Record = Record::new();
    record.push_draft(
        plan::measured_draft(
            "binary_size",
            "bytes",
            MetricDirection::Lower,
            plan::one_sample(bytes),
            SIZE_NOTE,
            plan::no_metadata(),
        ),
    );
    record
}

/// The number of the session in which a contender's live suite runs.
pub fn live_sequence(index: usize) -> (r: usize)
    requires
        index <= usize::MAX - 10_000,
    ensures
        r == 10_000 + index,
{
    10_000 + index
}

/// The metrics with their figures.
pub open spec fn finished(drafts: Seq<DraftModel>, figures: Seq<Figures>) -> Seq<
    model::BenchmarkResultModel,
> {
    Seq::new(drafts.len(), |i: int| plan::completed(drafts[i], figures[i]))
}

/// Summarizes each metric. `figures` are those of each one's ascending finite samples.
pub fn finish(drafts: &Vec<Draft>, figures: &Vec<Figures>) -> (r: Vec<BenchmarkResult>)
    requires
        drafts@.len() == figures@.len(),
    ensures
        model::benchmark_views(r@) == finished(plan::draft_views(drafts@), figures@),
{
    let ghost all = finished(plan::draft_views(drafts@), figures@);
    let mut out: Vec<BenchmarkResult> = Vec::new();
    let mut i: usize = 0;
    assert(model::benchmark_views(out@) =~= all.take(0));
    while i < drafts.len()
        invariant
            i <= drafts@.len(),
            drafts@.len() == figures@.len(),
            all == finished(plan::draft_views(drafts@), figures@),
            model::benchmark_views(out@) =~= all.take(i as int),
        decreases drafts@.len() - i,
    {
        let ghost before = model::benchmark_views(out@);
        out.push(plan::complete(&drafts[i], figures[i]));
        assert(model::benchmark_views(out@) =~= before.push(all[i as int]));
        i = i + 1;
    }
    assert(all.take(i as int) =~= all);
    out
}

fn findings(config: &ContenderConfig) -> (r: Vec<AssuranceFinding>)
    ensures
        model::finding_views(r@) == config@.assurance,
{
    let ghost all = config@.assurance;
    let mut out: Vec<AssuranceFinding> = Vec::new();
    let mut i: usize = 0;
    assert(model::finding_views(out@) =~= all.take(0));
    while i < config.assurance.len()
        invariant
            i <= config.assurance@.len(),
            all == config@.assurance,
            model::finding_views(out@) =~= all.take(i as int),
        decreases config.assurance@.len() - i,
    {
        let ghost before = model::finding_views(out@);
        assert(all[i as int] == config.assurance@[i as int]@);
        out.push(config.assurance[i].finding());
        assert(model::finding_views(out@) =~= before.push(all[i as int]));
        i = i + 1;
    }
    assert(all.take(i as int) =~= all);
    out
}

/// What is reported of a contender.
pub fn contender_result(
    config: &ContenderConfig,
    binary: ArtifactInfo,
    source: SourceInfo,
    static_analysis: StaticAnalysis,
    record: &Record,
    figures: &Vec<Figures>,
) -> (r: ContenderResult)
    requires
        record.drafts@.len() == figures@.len(),
    ensures
        r@ == (ContenderResultModel {
            id: config@.id,
            display_name: config@.display_name,
            adapter: config@.adapter,
            binary: binary@,
            source: source@,
            static_analysis: static_analysis@,
            assurance: config@.assurance,
            benchmarks: finished(record@.drafts, figures@),
            errors: record@.errors,
        }),
{
    ContenderResult {
        id: config.id.clone(),
        display_name: config.display_name.clone(),
        adapter: config.adapter.clone(),
        binary,
        source,
        static_analysis,
        assurance: findings(config),
        benchmarks: finish(&record.drafts, figures),
        errors: text::clone_texts(&record.errors),
    }
}

/// The warnings on binaries that are not release builds.
pub open spec fn warnings(list: Seq<ContenderModel>) -> Seq<Seq<char>>
    decreases list.len(),
{
    if list.len() == 0 {
        Seq::empty()
    } else {
        let front = warnings(list.drop_last());
        if paths::components(list.last().binary).contains("release"@) {
            front
        } else {
            front.push(
                list.last().id + " binary path does not contain a release component: "@
                    + list.last().binary,
            )
        }
    }
}

/// The warnings on binaries that are not release builds.
pub fn release_warnings(config: &Config) -> (r: Vec<String>)
    ensures
        text::texts(r@) == warnings(config::contender_views(config.contenders@)),
{
    let ghost view = config::contender_views(config.contenders@);
    let mut out: Vec<String> = Vec::new();
    let mut i: usize = 0;
    assert(text::texts(out@) =~= warnings(view.take(0)));
    while i < config.contenders.len()
        invariant
            i <= config.contenders@.len(),
            view == config::contender_views(config.contenders@),
            text::texts(out@) =~= warnings(view.take(i as int)),
        decreases config.contenders@.len() - i,
    {
        proof {
            assert(view.take(i + 1).drop_last() =~= view.take(i as int));
            assert(view.take(i + 1).last() == config.contenders@[i as int]@);
        }
        let c: &ContenderConfig = &config.contenders[i];
        if !adapters::path_is_release_binary(c.binary.as_str()) {
            let head: String = text::cat(
                c.id.clone(),
                " binary path does not contain a release component: ",
            );
            text::push_text(&mut out, text::cat(head, c.binary.as_str()));
        }
        i = i + 1;
    }
    assert(view.take(i as int) =~= view);
    out
}

// ---------------------------------------------------------------------------------------------
// The report
// ---------------------------------------------------------------------------------------------

pub const PTY_NOTE: &'static str =
    "Terminal latency and output completion use a real PTY for all contenders.";

pub const CONTROL_NOTE: &'static str =
    "Control APIs are used only for readiness, status probes, and teardown.";

pub const PRIVATE_NOTE: &'static str =
    "Each app receives a private HOME and XDG tree; Herdr update and manifest checks are disabled during timing.";

pub const READY_NOTE: &'static str =
    "Startup is timed until an identical pane-listing probe succeeds; detached idle is sampled after one attach/detach so all servers hold exactly one pane shell.";

pub const GRID_NOTE: &'static str =
    "Herdr's headless render grid is pinned to the attached geometry.";

pub const TMUX_NOTE: &'static str =
    "When tmux is included, every command uses a private -S socket and explicit -f config; /bin/sh is non-login, TERM matches the workload, and prefix-key splits tile the window. Status, history, and rendering timers retain defaults.";

pub const ORACLE_NOTE: &'static str =
    "Every latency and output trial is verified against a modelled screen; a wrong or incomplete final screen fails the metric instead of scoring as fast.";

pub const CONTEXT_NOTE: &'static str =
    "Resize-storm (over the output-workload scrollback), multi-client (fresh session), pane-scaling/recovery (fresh session), and restart scenarios are reported as context; they are not folded into the balanced index.";

pub const CPU_NOTE: &'static str =
    "CPU percent is one-core percentage from cumulative process CPU time, not percentage of the whole machine.";

pub const COHORT_NOTE: &'static str =
    "Root metrics cover server and attached client roots; cohort metrics also include their descendants.";

pub open spec fn fairness_notes() -> Seq<Seq<char>> {
    seq![
        PTY_NOTE@,
        CONTROL_NOTE@,
        PRIVATE_NOTE@,
        READY_NOTE@,
        GRID_NOTE@,
        TMUX_NOTE@,
        ORACLE_NOTE@,
        CONTEXT_NOTE@,
        CPU_NOTE@,
        COHORT_NOTE@,
    ]
}

/// The workload that every contender receives.
pub open spec fn workload(p: ProfileRecordModel) -> Seq<char> {
    "POSIX /bin/sh, "@ + decimal::decimal(p.terminal_cols as nat) + "x"@ + decimal::decimal(
        p.terminal_rows as nat,
    ) + ", "@ + decimal::decimal(p.output_lines as nat) + " deterministic 72-byte lines"@
}

/// The names of contenders, in some order.
pub open spec fn ids_in(list: Seq<ContenderModel>, order: Seq<usize>) -> Seq<Seq<char>> {
    order.map_values(|i: usize| list[i as int].id)
}

/// The name of a run: when it was started, and its seed.
pub open spec fn run_name(started_unix_ms: u128, seed: u64) -> Seq<char> {
    "utc-"@ + decimal::decimal(started_unix_ms as nat) + "-"@ + text::pad_left(
        decimal::hexadecimal(seed as nat),
        16,
        '0',
    )
}

/// The conditions under which contenders were compared.
pub open spec fn fairness(list: Seq<ContenderModel>, seed: u64, p: ProfileRecordModel) ->
    FairnessRecordModel {
    FairnessRecordModel {
        run_order: ids_in(
            list,
            oracle::rotation(list.len(), oracle::turn_of(list.len() as usize, seed)),
        ),
        release_binaries_required: true,
        network_disabled_during_benchmarks: true,
        isolated_home_and_xdg: true,
        identical_terminal_geometry: true,
        child_workload: workload(p),
        notes: fairness_notes(),
    }
}

/// The report of a run.
pub open spec fn reported(
    tool_version: Seq<char>,
    started_unix_ms: u128,
    host: HostInfoModel,
    profile: ProfileRecordModel,
    seed: u64,
    list: Seq<ContenderModel>,
    contenders: Seq<ContenderResultModel>,
) -> RunReportModel {
    RunReportModel {
        schema_version: RESULT_SCHEMA_VERSION,
        tool_version,
        run_id: run_name(started_unix_ms, seed),
        started_unix_ms,
        host,
        profile,
        fairness: fairness(list, seed, profile),
        contenders,
        warnings: warnings(list),
    }
}

fn workload_of(p: &ProfileRecord) -> (r: String)
    ensures
        r@ == workload(p@),
{
    let cols: String = text::cat(
        "POSIX /bin/sh, ".to_owned(),
        decimal::decimal_text(p.terminal_cols as u64).as_str(),
    );
    let size: String = text::cat(
        text::cat(cols, "x"),
        decimal::decimal_text(p.terminal_rows as u64).as_str(),
    );
    let lines: String = text::cat(
        text::cat(size, ", "),
        decimal::decimal_text(p.output_lines as u64).as_str(),
    );
    text::cat(lines, " deterministic 72-byte lines")
}

fn notes() -> (r: Vec<String>)
    ensures
        text::texts(r@) == fairness_notes(),
{
    let mut out: Vec<String> = Vec::new();
    text::push_str(&mut out, PTY_NOTE);
    text::push_str(&mut out, CONTROL_NOTE);
    text::push_str(&mut out, PRIVATE_NOTE);
    text::push_str(&mut out, READY_NOTE);
    text::push_str(&mut out, GRID_NOTE);
    text::push_str(&mut out, TMUX_NOTE);
    text::push_str(&mut out, ORACLE_NOTE);
    text::push_str(&mut out, CONTEXT_NOTE);
    text::push_str(&mut out, CPU_NOTE);
    text::push_str(&mut out, COHORT_NOTE);
    assert(text::texts(out@) =~= fairness_notes());
    out
}

/// The order in which the contenders of a configuration are run.
pub fn run_order(config: &Config) -> (r: Vec<usize>)
    ensures
        r@ == oracle::rotation(
            config.contenders@.len(),
            oracle::turn_of(config.contenders@.len() as usize, config.comparison.seed),
        ),
        r@.len() == config.contenders@.len(),
        forall|i: int| 0 <= i < r@.len() ==> #[trigger] r@[i] < config.contenders@.len(),
{
    let n: usize = config.contenders.len();
    let r: Vec<usize> = oracle::rotated_order(n, config.comparison.seed);
    proof {
        let turn = oracle::turn_of(n, config.comparison.seed) as int;
        assert forall|i: int| 0 <= i < r@.len() implies #[trigger] r@[i] < n by {
            vstd::arithmetic::div_mod::lemma_mod_bound(i + turn, n as int);
            assert(r@[i] == ((i + turn) % n as int) as usize);
        }
    }
    r
}

/// The report of a run, from what was found out about the host and measured of the contenders.
pub fn assemble(
    config: &Config,
    profile: &ProfileRecord,
    tool_version: &str,
    started_unix_ms: u128,
    host: HostInfo,
    contenders: Vec<ContenderResult>,
) -> (r: RunReport)
    ensures
        r@ == reported(
            tool_version@,
            started_unix_ms,
            host@,
            profile@,
            config.comparison.seed,
            config::contender_views(config.contenders@),
            model::contender_views(contenders@),
        ),
{
    let ghost list = config::contender_views(config.contenders@);
    let order: Vec<usize> = run_order(config);
    let mut ids: Vec<String> = Vec::new();
    let mut i: usize = 0;
    assert(text::texts(ids@) =~= ids_in(list, order@.take(0)));
    while i < order.len()
        invariant
            i <= order@.len(),
            list == config::contender_views(config.contenders@),
            forall|k: int| 0 <= k < order@.len() ==> #[trigger] order@[k] < config.contenders@.len(),
            text::texts(ids@) =~= ids_in(list, order@.take(i as int)),
        decreases order@.len() - i,
    {
        assert(order@[i as int] < config.contenders@.len());
        let c: &ContenderConfig = &config.contenders[order[i]];
        assert(list[order@[i as int] as int] == c@);
        text::push_text(&mut ids, c.id.clone());
        i = i + 1;
    }
    assert(order@.take(i as int) =~= order@);
    let started: String = text::cat(
        text::cat("utc-".to_owned(), decimal::wide_text(started_unix_ms).as_str()),
        "-",
    );
    RunReport {
        schema_version: RESULT_SCHEMA_VERSION,
        tool_version: tool_version.to_owned(),
        run_id: text::cat(started, decimal::hex_padded(config.comparison.seed, 16).as_str()),
        started_unix_ms,
        host,
        profile: profile.clone(),
        fairness: FairnessRecord {
            run_order: ids,
            release_binaries_required: true,
            network_disabled_during_benchmarks: true,
            isolated_home_and_xdg: true,
            identical_terminal_geometry: true,
            child_workload: workload_of(profile),
            notes: notes(),
        },
        contenders,
        warnings: release_warnings(config),
    }
}

/// The views of a result.
pub open spec fn outcome(r: Result<RunReport, String>) -> Result<RunReportModel, Seq<char>> {
    match r {
        Ok(report) => Ok(report@),
        Err(error) => Err(error@),
    }
}

/// What a run publishes: a filtered report, or an error without details.
pub open spec fn published(
    keep_workdirs: bool,
    result: Result<RunReportModel, Seq<char>>,
) -> Result<RunReportModel, Seq<char>> {
    if keep_workdirs {
        Err("raw workdirs cannot be retained"@)
    } else {
        match result {
            Ok(report) => privacy::sanitized(report),
            Err(error) => Err(privacy::error_category(error) + ". "@ + privacy::OMITTED@),
        }
    }
}

/// Publishes what came of a run. Nothing leaves it unfiltered, and to filter it again would change
/// nothing.
pub fn run(config: &Config, result: Result<RunReport, String>) -> (r: Result<RunReport, String>)
    ensures
        outcome(r) == published(config.comparison.keep_workdirs, outcome(result)),
        match r {
            Ok(report) => privacy::sanitized(report@) == Ok::<RunReportModel, Seq<char>>(report@),
            Err(_) => true,
        },
{
    if config.comparison.keep_workdirs {
        return Err("raw workdirs cannot be retained".to_owned());
    }
    match result {
        Ok(report) => privacy::sanitize(&report),
        Err(error) => Err(privacy::public_error(error.as_str())),
    }
}

/// What a run publishes is the filtered form of its report, and nothing else.
pub proof fn law_published_reports_are_filtered(
    keep_workdirs: bool,
    result: Result<RunReportModel, Seq<char>>,
)
    requires
        published(keep_workdirs, result) is Ok,
    ensures
        !keep_workdirs,
        result is Ok,
        published(keep_workdirs, result) == privacy::sanitized(result->Ok_0),
{
}

} // verus!
