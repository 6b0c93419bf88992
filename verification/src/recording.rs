//! What is recorded of a workload that went well: which step is taken when, which observation
//! becomes which sample, and which contender a sample speaks for.

use vstd::prelude::*;
use crate::catalog;
use crate::clients;
use crate::decimal;
use crate::leading;
use crate::measure::Real;
use crate::model::{
    BenchmarkStatus, ContenderResultModel, Figures, MetricDirection, ProfileRecordModel,
};
use crate::oracle;
use crate::panes;
use crate::plan;
use crate::plan::{ActionModel, DraftModel, EventModel, RecordModel, ResourcesModel};
use crate::report;
use crate::runner;
use crate::standings;
use crate::suites;
use crate::workloads;

verus! {

/// No step so far has failed.
pub open spec fn unfailing(events: Seq<EventModel>) -> bool {
    forall|i: int| 0 <= i < events.len() ==> !((#[trigger] events[i]) is Failed)
}

/// The third of the five steps of a trial, in which its marker was observed.
pub open spec fn watched(events: Seq<EventModel>, k: int) -> bool {
    events[5 * k + 2] is Observed
}

/// The markers of the first trials were observed.
pub open spec fn observed(events: Seq<EventModel>, trials: nat) -> bool {
    forall|k: int| 0 <= k < trials ==> #[trigger] watched(events, k)
}

/// The metric of the record at the place was measured, and reads like this.
pub open spec fn recorded(
    r: RecordModel,
    i: int,
    name: Seq<char>,
    unit: Seq<char>,
    direction: MetricDirection,
    samples: Seq<Real>,
) -> bool {
    &&& 0 <= i < r.drafts.len()
    &&& r.drafts[i].name == name
    &&& r.drafts[i].unit == unit
    &&& r.drafts[i].direction == direction
    &&& r.drafts[i].samples == samples
    &&& r.drafts[i].status == BenchmarkStatus::Measured
}

/// The metric has failed, for that reason, and nothing of it is a sample.
pub open spec fn unmeasured(r: RecordModel, i: int, name: Seq<char>, note: Seq<char>) -> bool {
    &&& 0 <= i < r.drafts.len()
    &&& r.drafts[i].name == name
    &&& r.drafts[i].note == note
    &&& r.drafts[i].samples.len() == 0
    &&& r.drafts[i].status == BenchmarkStatus::Failed
}

// ---------------------------------------------------------------------------------------------
// Metrics
// ---------------------------------------------------------------------------------------------

/// A metric is reported as it was recorded: name, unit, direction, samples, status, note and
/// metadata. Its median is known where it was measured and has finite samples.
pub proof fn law_metrics_are_reported_as_recorded(d: DraftModel, figures: Figures)
    ensures
        ({
            let b = plan::completed(d, figures);
            &&& b.name == d.name && b.unit == d.unit && b.direction == d.direction
            &&& b.samples == d.samples && b.status == d.status
            &&& b.note == d.note && b.metadata == d.metadata
            &&& d.status != BenchmarkStatus::Measured ==> b.summary.median is None
                && b.summary.count == 0
        }),
{
}

/// Of two contenders that were both measured on a core metric, the one with the smaller median wins
/// it, whichever workload has recorded the metric and whichever of the two comes first.
pub proof fn law_the_smaller_median_wins_a_core_metric(
    a: ContenderResultModel,
    b: ContenderResultModel,
    name: Seq<char>,
    ra: RecordModel,
    i: int,
    fa: Figures,
    rb: RecordModel,
    j: int,
    fb: Figures,
)
    requires
        report::core_names().contains(name),
        catalog::publishable(ra),
        catalog::publishable(rb),
        0 <= i < ra.drafts.len(),
        0 <= j < rb.drafts.len(),
        ra.drafts[i].name == name,
        rb.drafts[j].name == name,
        report::valid(a, name) == Some(plan::completed(ra.drafts[i], fa)),
        report::valid(b, name) == Some(plan::completed(rb.drafts[j], fb)),
        report::middle(a, name) is Some,
        report::middle(b, name) is Some,
        report::middle(a, name).unwrap().place() < report::middle(b, name).unwrap().place(),
    ensures
        ({
            let (first, second) = (
                standings::row(seq![a, b], name),
                standings::row(seq![b, a], name),
            );
            &&& standings::winner(first.values, first.direction) == Some(0int)
            &&& standings::winner(second.values, second.direction) == Some(1int)
        }),
{
    assert(ra.drafts[i].status == BenchmarkStatus::Measured);
    assert(rb.drafts[j].status == BenchmarkStatus::Measured);
    catalog::law_core_metrics_are_better_lower(ra, i);
    catalog::law_core_metrics_are_better_lower(rb, j);
    let (one, two) = (seq![a, b], seq![b, a]);
    leading::law_rows_hold_the_medians(one, name, 0);
    leading::law_rows_hold_the_medians(one, name, 1);
    leading::law_rows_hold_the_medians(two, name, 0);
    leading::law_rows_hold_the_medians(two, name, 1);
    let (x, y) = (report::middle(a, name).unwrap(), report::middle(b, name).unwrap());
    leading::law_the_better_of_two_wins(x, y);
    assert(standings::row(one, name).values =~= seq![Some(x), Some(y)]);
    assert(standings::row(two, name).values =~= seq![Some(y), Some(x)]);
}

/// The number in an event is the milliseconds that were taken or observed, or the value that was
/// computed.
pub proof fn law_events_give_their_number(millis: Real, other: Real, shown: Seq<char>)
    ensures
        plan::number_in(EventModel::Timed { millis }) == millis,
        plan::number_in(EventModel::Observed { millis, rate: other, bytes: other }) == millis,
        plan::number_in(EventModel::Number { value: millis, shown }) == millis,
        plan::number_in(EventModel::Size { rows: 1, cols: 1, millis, age: 0 }) == millis,
        plan::written_in(EventModel::Number { value: millis, shown }) == shown,
{
}

/// An idle window has four metrics: the processor share of the roots and of the cohort, where it is
/// known, and their resident sizes, each with the samples of its own.
pub proof fn law_windows_have_four_metrics(
    r: RecordModel,
    prefix: Seq<char>,
    s: ResourcesModel,
    note: Seq<char>,
    root: Real,
    cohort: Real,
)
    requires
        s.root_cpu == Some(root),
        s.cohort_cpu == Some(cohort),
    ensures
        ({
            let t = plan::with_resources(r, prefix, s, note);
            let n = r.drafts.len() as int;
            let low = MetricDirection::Lower;
            &&& t.errors == r.errors
            &&& t.drafts.len() == n + 4
            &&& t.drafts.take(n) == r.drafts
            &&& recorded(t, n, prefix + "_root_cpu"@, "% core"@, low, seq![root])
            &&& recorded(t, n + 1, prefix + "_cohort_cpu"@, "% core"@, low, seq![cohort])
            &&& recorded(t, n + 2, prefix + "_root_rss"@, "KiB"@, low, s.root_rss)
            &&& recorded(t, n + 3, prefix + "_cohort_rss"@, "KiB"@, low, s.cohort_rss)
        }),
{
    let t = plan::with_resources(r, prefix, s, note);
    assert(t.drafts.take(r.drafts.len() as int) =~= r.drafts);
}

// ---------------------------------------------------------------------------------------------
// Startup
// ---------------------------------------------------------------------------------------------

/// The startup times are recorded where every trial has started, and else the metric has failed; the
/// times of shutdown are recorded where there is any.
pub proof fn law_startup_times_are_those_of_the_trials(iterations: usize, t: runner::Tries)
    ensures
        ({
            let r = runner::startup_outcome(iterations, t);
            let low = MetricDirection::Lower;
            &&& r.errors == t.errors
            &&& t.startup.len() == iterations ==> recorded(
                r,
                0,
                "server_startup_ready"@,
                "ms"@,
                low,
                t.startup,
            )
            &&& t.startup.len() != iterations ==> unmeasured(
                r,
                0,
                "server_startup_ready"@,
                "startup trial set is incomplete"@,
            )
            &&& t.shutdown.len() > 0 ==> recorded(
                r,
                1,
                "server_shutdown"@,
                "ms"@,
                low,
                t.shutdown,
            )
            &&& r.drafts.len() == (if t.shutdown.len() > 0 { 2int } else { 1int })
        }),
{
}

/// One more trial of a contender adds its times to that contender and to no other; a trial that has
/// failed adds none.
pub proof fn law_trials_count_for_their_contender(
    order: Seq<usize>,
    trials: Seq<runner::TrialModel>,
    trial: runner::TrialModel,
    index: usize,
)
    requires
        order.len() > 0,
    ensures
        ({
            let before = runner::tries(order, trials, index);
            let after = runner::tries(order, trials.push(trial), index);
            let n = order.len() as int;
            let round = trials.len() as int / n;
            let place = trials.len() as int % n;
            let mine = order[if round % 2 == 0 { place } else { n - 1 - place }] == index;
            &&& !mine ==> after == before
            &&& mine ==> match trial {
                runner::TrialModel::Failed { error } => after.startup == before.startup
                    && after.shutdown == before.shutdown && after.errors.len()
                    == before.errors.len() + 1,
                runner::TrialModel::Stopped { startup, shutdown } => after.startup
                    == before.startup.push(startup) && after.shutdown == before.shutdown.push(
                    shutdown,
                ) && after.errors == before.errors,
                runner::TrialModel::Stuck { startup, error } => after.startup
                    == before.startup.push(startup) && after.shutdown == before.shutdown
                    && after.errors.len() == before.errors.len() + 1,
            }
        }),
{
    assert(trials.push(trial).drop_last() =~= trials);
    assert(trials.push(trial).last() == trial);
}

/// The size of the binary is one sample, in bytes.
pub proof fn law_binary_sizes_are_recorded_in_bytes(bytes: Real)
    ensures
        recorded(
            RecordModel::empty().draft(runner::size_metric(bytes)),
            0,
            "binary_size"@,
            "bytes"@,
            MetricDirection::Lower,
            seq![bytes],
        ),
{
}

// ---------------------------------------------------------------------------------------------
// Latency
// ---------------------------------------------------------------------------------------------

/// A latency trial clears what was observed, types the marker of the trial behind a clear of the
/// viewport, observes the marker for three seconds at most, drains for 30 milliseconds, and judges
/// the screen by the marker and by the one of the trial before.
pub proof fn law_latency_trials_take_five_steps(
    iterations: nat,
    events: Seq<EventModel>,
    k: nat,
    phase: int,
)
    requires
        unfailing(events),
        k < iterations,
        0 <= phase < 5,
        events.len() == 5 * k + phase,
    ensures
        ({
            let step = workloads::latency_plan(iterations, events);
            let marker = oracle::marker(k);
            &&& phase == 0 ==> step == Some(ActionModel::Clear)
            &&& phase == 1 ==> step == Some(
                ActionModel::Type {
                    line: "printf '\\033[2J\\033[H"@ + oracle::octal(marker) + "\\n'"@,
                },
            )
            &&& phase == 2 ==> step == Some(
                ActionModel::Observe { marker, seconds: 3, lines: 0 },
            )
            &&& phase == 3 ==> step == Some(ActionModel::Drain { millis: 30 })
            &&& phase == 4 ==> step == Some(
                ActionModel::CheckLatency {
                    marker,
                    previous: if k > 0 { Some(oracle::marker((k - 1) as nat)) } else { None },
                },
            )
        }),
{
    assert((5 * k + phase) / 5 == k as int && (5 * k + phase) % 5 == phase);
}

/// After all trials there is no step left, and the samples are the times at which the markers were
/// observed, one for each trial and in their order. A failure leaves no samples at all.
pub proof fn law_latency_samples_are_the_observations(iterations: nat, events: Seq<EventModel>)
    requires
        events.len() == 5 * iterations,
    ensures
        workloads::latency_plan(iterations, events) is None,
        events.len() > 0 && events.last() is Failed ==> workloads::latency_outcome(
            iterations,
            events,
        ) is Err,
        unfailing(events) && observed(events, iterations) ==> workloads::latency_outcome(
            iterations,
            events,
        ) == Ok::<Seq<Real>, Seq<char>>(
            Seq::new(iterations, |k: int| events[5 * k + 2]->Observed_millis),
        ),
{
    if unfailing(events) && observed(events, iterations) {
        let samples = workloads::latency_outcome(iterations, events)->Ok_0;
        let wanted = Seq::new(iterations, |k: int| events[5 * k + 2]->Observed_millis);
        assert forall|k: int| 0 <= k < iterations implies samples[k] == wanted[k] by {
            assert(watched(events, k));
        }
        assert(samples =~= wanted);
    }
}

/// The marker of a trial is its letter, eight times; the letters follow each other and start again
/// after 26 trials.
pub proof fn law_markers_are_eight_letters(iteration: nat, k: int)
    requires
        0 <= k < 8,
    ensures
        oracle::marker(iteration).len() == 8,
        oracle::marker(iteration)[k] as int == 'A' as int + iteration % 26,
{
}

/// The payload of a burst is the digits, the small letters and the capital letters in their order,
/// from the one that the burst starts with, round to the one before it.
pub proof fn law_payloads_go_round_the_alphabet(iteration: nat, k: int)
    requires
        0 <= k < 62,
    ensures
        ({
            let c = oracle::payload(iteration)[k] as int;
            let i = (iteration + k) % 62;
            &&& oracle::payload(iteration).len() == 62
            &&& i < 10 ==> c == '0' as int + i
            &&& 10 <= i < 36 ==> c == 'a' as int + (i - 10)
            &&& 36 <= i ==> c == 'A' as int + (i - 36)
        }),
{
}

/// What is typed spells each byte of the text as a backslash and three octal digits.
pub proof fn law_octal_spells_every_byte(bytes: Seq<u8>, k: int)
    requires
        0 <= k < bytes.len(),
    ensures
        oracle::octal_bytes(bytes).len() == 4 * bytes.len(),
        ({
            let o = oracle::octal_bytes(bytes);
            &&& o[4 * k] == '\\'
            &&& '0' <= o[4 * k + 1] <= '3'
            &&& '0' <= o[4 * k + 2] <= '7'
            &&& '0' <= o[4 * k + 3] <= '7'
            &&& bytes[k] == 64 * (o[4 * k + 1] as int - 48) + 8 * (o[4 * k + 2] as int - 48) + (
            o[4 * k + 3] as int - 48)
        }),
    decreases bytes.len(),
{
    lemma_octal_length(bytes);
    let front = bytes.drop_last();
    lemma_octal_length(front);
    let o = oracle::octal_bytes(bytes);
    let f = oracle::octal_bytes(front);
    if k < front.len() {
        law_octal_spells_every_byte(front, k);
        assert(o[4 * k] == f[4 * k]);
        assert(o[4 * k + 1] == f[4 * k + 1]);
        assert(o[4 * k + 2] == f[4 * k + 2]);
        assert(o[4 * k + 3] == f[4 * k + 3]);
    } else {
        let e = oracle::octal_escape(bytes.last());
        assert(o == f + e);
        assert(o[4 * k] == e[0]);
        assert(o[4 * k + 1] == e[1]);
        assert(o[4 * k + 2] == e[2]);
        assert(o[4 * k + 3] == e[3]);
    }
}

proof fn lemma_octal_length(bytes: Seq<u8>)
    ensures
        oracle::octal_bytes(bytes).len() == 4 * bytes.len(),
    decreases bytes.len(),
{
    if bytes.len() > 0 {
        lemma_octal_length(bytes.drop_last());
    }
}

// ---------------------------------------------------------------------------------------------
// Output
// ---------------------------------------------------------------------------------------------

/// A burst clears what was observed, types a loop that prints as many numbered lines as the profile
/// says and then the marker, observes the marker, drains for 100 milliseconds, and judges the screen
/// by those lines.
pub proof fn law_bursts_take_five_steps(
    p: ProfileRecordModel,
    events: Seq<EventModel>,
    k: nat,
    phase: int,
)
    requires
        unfailing(events),
        k < p.output_iterations,
        0 <= phase < 5,
        events.len() == 5 * k + phase,
    ensures
        ({
            let step = workloads::output_plan(p, events);
            let marker = workloads::end_marker(k);
            let payload = oracle::payload(k);
            &&& phase == 0 ==> step == Some(ActionModel::Clear)
            &&& phase == 1 ==> step == Some(
                ActionModel::Type {
                    line: "i=0; while [ \"$i\" -lt "@ + decimal::decimal(p.output_lines as nat)
                        + " ]; do printf '%08d "@ + payload
                        + "\\n' \"$i\"; i=$((i+1)); done; printf '"@ + oracle::octal(marker)
                        + "\\n'"@,
                },
            )
            &&& phase == 2 ==> step == Some(
                ActionModel::Observe {
                    marker,
                    seconds: if p.name == "smoke"@ { 10 } else { 120 },
                    lines: p.output_lines,
                },
            )
            &&& phase == 3 ==> step == Some(ActionModel::Drain { millis: 100 })
            &&& phase == 4 ==> step == Some(
                ActionModel::CheckOutput { lines: p.output_lines, payload, marker },
            )
        }),
{
    assert((5 * k + phase) / 5 == k as int && (5 * k + phase) % 5 == phase);
}

/// After all bursts there is no step left. The completion times, the rates and the bytes that the
/// client has written are recorded, one for each burst and in their order: lower is better for the
/// times and the bytes, higher for the rates.
pub proof fn law_burst_samples_are_the_observations(p: ProfileRecordModel, events: Seq<EventModel>)
    requires
        events.len() == 5 * p.output_iterations,
        unfailing(events),
        observed(events, p.output_iterations as nat),
    ensures
        workloads::output_plan(p, events) is None,
        ({
            let r = workloads::output_outcome(p, events);
            let n = p.output_iterations as nat;
            &&& r.errors.len() == 0
            &&& r.drafts.len() == 3
            &&& recorded(
                r,
                0,
                "terminal_output_completion"@,
                "ms"@,
                MetricDirection::Lower,
                Seq::new(n, |k: int| events[5 * k + 2]->Observed_millis),
            )
            &&& recorded(
                r,
                1,
                "terminal_output_ingest_rate"@,
                "MiB/s"@,
                MetricDirection::Higher,
                Seq::new(n, |k: int| events[5 * k + 2]->Observed_rate),
            )
            &&& recorded(
                r,
                2,
                "client_render_output"@,
                "bytes"@,
                MetricDirection::Lower,
                Seq::new(n, |k: int| events[5 * k + 2]->Observed_bytes),
            )
        }),
{
    let r = workloads::output_outcome(p, events);
    let n = p.output_iterations as nat;
    assert forall|k: int| 0 <= k < n implies #[trigger] watched(events, k) by {}
    assert forall|k: int| 0 <= k < n implies r.drafts[0].samples[k]
        == events[5 * k + 2]->Observed_millis && r.drafts[1].samples[k]
        == events[5 * k + 2]->Observed_rate && r.drafts[2].samples[k]
        == events[5 * k + 2]->Observed_bytes by {
        assert(watched(events, k));
    }
    assert(r.drafts[0].samples =~= Seq::new(n, |k: int| events[5 * k + 2]->Observed_millis));
    assert(r.drafts[1].samples =~= Seq::new(n, |k: int| events[5 * k + 2]->Observed_rate));
    assert(r.drafts[2].samples =~= Seq::new(n, |k: int| events[5 * k + 2]->Observed_bytes));
}

/// A burst that is not observed, or whose screen is refused, ends the workload, and no burst is a
/// sample. Only draining may fail without an end.
pub proof fn law_refused_bursts_are_not_measured(p: ProfileRecordModel, events: Seq<EventModel>)
    requires
        events.len() > 0,
        events.last() is Failed,
        (events.len() - 1) % 5 != 3,
    ensures
        workloads::output_plan(p, events) is None,
        forall|i: int|
            0 <= i < workloads::output_outcome(p, events).drafts.len() ==> (
            #[trigger] workloads::output_outcome(p, events).drafts[i]).status
                == BenchmarkStatus::Failed,
        (events.len() - 1) % 5 == 2 ==> unmeasured(
            workloads::output_outcome(p, events),
            0,
            "terminal_output_completion"@,
            events.last()->error,
        ),
        (events.len() - 1) % 5 == 4 ==> workloads::output_outcome(p, events).errors.len() == 1
            && workloads::output_outcome(p, events).drafts.len() == 1
            && workloads::output_outcome(p, events).drafts[0].name == "terminal_output_completion"@,
{
}

// ---------------------------------------------------------------------------------------------
// Resizing
// ---------------------------------------------------------------------------------------------

/// The storm looks at the size and the processor time, resizes again and again with pauses of ten
/// milliseconds, and goes back to the size of the profile.
pub proof fn law_storms_return_to_the_size_of_the_profile(
    p: ProfileRecordModel,
    events: Seq<EventModel>,
)
    requires
        p.resize_iterations > 0,
        unfailing(events),
        events.len() < 3 + 2 * p.resize_iterations,
    ensures
        ({
            let step = workloads::storm_plan(p, events);
            let n = events.len() as int;
            let last = 2 + 2 * p.resize_iterations;
            &&& n == 0 ==> step == Some(ActionModel::ProbeSize { tag: "SZ"@ + decimal::decimal(0) })
            &&& n == 1 ==> step == Some(ActionModel::CpuSeconds)
            &&& 2 <= n < last && n % 2 == 0 ==> step is Some && step.unwrap() is Resize && (
            p.terminal_cols > 40 || p.terminal_rows > 10 ==> !(step.unwrap()->Resize_cols
                == p.terminal_cols && step.unwrap()->Resize_rows == p.terminal_rows))
            &&& 2 <= n < last && n % 2 == 1 ==> step == Some(ActionModel::Pause { millis: 10 })
            &&& n == last ==> step == Some(
                ActionModel::Resize { cols: p.terminal_cols, rows: p.terminal_rows },
            )
        }),
{
}

/// A storm is over where a probe shows the size from before it. Its metrics are the milliseconds of
/// that probe, the processor time since the first one, and the resident size afterwards: lower is
/// better for all three.
pub proof fn law_storm_samples_are_the_observations(p: ProfileRecordModel, events: Seq<EventModel>)
    requires
        p.resize_iterations > 0,
        unfailing(events),
        events.len() == 3 + 2 * p.resize_iterations + 5,
        events[0] is Size,
        events[3 + 2 * p.resize_iterations] is Size,
        events[3 + 2 * p.resize_iterations]->Size_rows == events[0]->Size_rows,
        events[3 + 2 * p.resize_iterations]->Size_cols == events[0]->Size_cols,
    ensures
        ({
            let at = 3 + 2 * p.resize_iterations;
            let r = workloads::storm_outcome(p, events);
            let low = MetricDirection::Lower;
            let number = |i: int| plan::number_in(events[i]);
            &&& workloads::storm_plan(p, events) is None
            &&& r.errors.len() == 0
            &&& r.drafts.len() == 3
            &&& recorded(r, 0, "resize_storm_settle"@, "ms"@, low, seq![number(at)])
            &&& recorded(r, 1, "resize_storm_cpu"@, "ms CPU"@, low, seq![number(at + 1)])
            &&& recorded(r, 2, "resize_storm_rss"@, "KiB"@, low, seq![number(at + 3)])
        }),
{
}

// ---------------------------------------------------------------------------------------------
// Panes
// ---------------------------------------------------------------------------------------------

/// The slope, the recovery and the sizes of the panes are recorded from the steps that give them;
/// a greater recovery is better, and less of everything else.
pub proof fn law_pane_samples_are_the_observations(p: ProfileRecordModel, events: Seq<EventModel>)
    requires
        1 < p.pane_count < usize::MAX,
        unfailing(events),
        events.len() == 6 * p.pane_count + 5,
        events[5 * p.pane_count] is Sampled,
        events[6 * p.pane_count + 3] is Sampled,
        events[5 * p.pane_count]->resources.root_cpu is Some,
        events[5 * p.pane_count]->resources.cohort_cpu is Some,
    ensures
        ({
            let n = p.pane_count as int;
            let s = events[5 * n]->resources;
            let r = panes::multipane_outcome(p, events);
            let low = MetricDirection::Lower;
            let prefix = "multipane_"@ + decimal::decimal(n as nat) + "_idle"@;
            &&& panes::multipane_plan(p, events) is None
            &&& r.errors.len() == 0
            &&& r.drafts.len() == 8
            &&& recorded(r, 0, prefix + "_root_cpu"@, "% core"@, low, seq![s.root_cpu.unwrap()])
            &&& recorded(r, 1, prefix + "_cohort_cpu"@, "% core"@, low, seq![s.cohort_cpu.unwrap()])
            &&& recorded(r, 2, prefix + "_root_rss"@, "KiB"@, low, s.root_rss)
            &&& recorded(r, 3, prefix + "_cohort_rss"@, "KiB"@, low, s.cohort_rss)
            &&& recorded(
                r,
                4,
                "multipane_process_count"@,
                "processes"@,
                MetricDirection::Neutral,
                s.process_counts,
            )
            &&& recorded(
                r,
                5,
                "pane_memory_slope"@,
                "KiB/pane"@,
                low,
                seq![plan::number_in(events[5 * n + 1])],
            )
            &&& recorded(
                r,
                6,
                "pane_close_recovery"@,
                "%"@,
                MetricDirection::Higher,
                seq![plan::number_in(events[6 * n + 4])],
            )
            &&& recorded(
                r,
                7,
                "pane_close_rss"@,
                "KiB"@,
                low,
                events[6 * n + 3]->resources.cohort_rss,
            )
        }),
{
    let n = p.pane_count as int;
    assert(panes::peak_at(p) == 5 * n);
    assert(panes::slope_at(p) == 5 * n + 1);
    assert(panes::closed(p) == 6 * n + 1);
    assert(!panes::broken(p, events));
}

/// Growing splits the pane, drains for 120 milliseconds, waits until the cohort has one process more
/// than panes, pauses for 300 milliseconds, and samples. The slope is fitted to one size for every
/// pane count, and the recovery compares the first of them with the peak and with what is left.
pub proof fn law_panes_grow_one_by_one(p: ProfileRecordModel, events: Seq<EventModel>, k: int)
    requires
        1 < p.pane_count < usize::MAX,
        unfailing(events),
        1 <= k <= p.pane_count,
    ensures
        ({
            let n = events.len() as int;
            let count = p.pane_count as int;
            let step = panes::multipane_plan(p, events);
            &&& k > 1 && n == 5 * k - 7 ==> step == Some(ActionModel::Split)
            &&& k > 1 && n == 5 * k - 6 ==> step == Some(ActionModel::Drain { millis: 120 })
            &&& n == 5 * k - 5 ==> step == Some(
                ActionModel::WaitFor { processes: (k + 1) as usize, seconds: 5 },
            )
            &&& n == 5 * k - 4 ==> step == Some(ActionModel::Pause { millis: 300 })
            &&& n == 5 * k - 3 ==> step == Some(
                ActionModel::QuickRss { window: 250, interval: 100 },
            )
            &&& n == 5 * count - 2 ==> step == Some(ActionModel::Drain { millis: 500 })
            &&& n == 5 * count - 1 ==> step == Some(ActionModel::Settle)
            &&& n == 5 * count ==> step == Some(ActionModel::SampleClients)
            &&& n == 5 * count + 1 ==> step == Some(
                ActionModel::Fit {
                    sizes: Seq::new(count as nat, |i: int| plan::number_in(events[5 * i + 2])),
                },
            )
            &&& 5 * count + 2 <= n < 6 * count + 1 ==> step == Some(
                ActionModel::ClosePane { processes: (count - (n - 5 * count - 2)) as usize },
            )
            &&& n == 6 * count + 1 ==> step == Some(ActionModel::Drain { millis: 300 })
            &&& n == 6 * count + 2 ==> step == Some(ActionModel::Settle)
            &&& n == 6 * count + 3 ==> step == Some(ActionModel::SampleRecovery { seconds: 10 })
            &&& n == 6 * count + 4 ==> step == Some(
                ActionModel::Recovery {
                    base: plan::number_in(events[2]),
                    peak: panes::resources_in(events[5 * count]).median,
                    after: panes::resources_in(events[6 * count + 3]).median,
                },
            )
        }),
{
    let n = events.len() as int;
    let count = p.pane_count as int;
    assert(!panes::broken(p, events));
    if n == 5 * count + 1 {
        assert(panes::sizes(events, count as nat) =~= Seq::new(
            count as nat,
            |i: int| plan::number_in(events[5 * i + 2]),
        ));
    }
}

// ---------------------------------------------------------------------------------------------
// Clients
// ---------------------------------------------------------------------------------------------

/// With several clients the latency is recorded under their number, from the trials on the first
/// one, and the idle window under the same number.
pub proof fn law_client_samples_are_the_observations(p: ProfileRecordModel, events: Seq<EventModel>)
    requires
        p.extra_clients > 0,
        unfailing(events),
        events.len() == 2 * p.extra_clients + 7,
        events[2 * p.extra_clients + 1] is Series,
        events[2 * p.extra_clients + 4] is Sampled,
        events[2 * p.extra_clients + 4]->resources.root_cpu is Some,
        events[2 * p.extra_clients + 4]->resources.cohort_cpu is Some,
    ensures
        ({
            let at = 2 * p.extra_clients + 1;
            let s = events[at + 3]->resources;
            let r = clients::multiclient_outcome(p, events);
            let low = MetricDirection::Lower;
            let prefix = "multiclient_"@ + decimal::decimal((p.extra_clients + 1) as nat);
            &&& clients::multiclient_plan(p, events) is None
            &&& r.errors.len() == 0
            &&& r.drafts.len() == 5
            &&& recorded(r, 0, prefix + "_input_to_visible"@, "ms"@, low, events[at]->values)
            &&& recorded(
                r,
                1,
                prefix + "_idle"@ + "_root_cpu"@,
                "% core"@,
                low,
                seq![s.root_cpu.unwrap()],
            )
            &&& recorded(
                r,
                2,
                prefix + "_idle"@ + "_cohort_cpu"@,
                "% core"@,
                low,
                seq![s.cohort_cpu.unwrap()],
            )
            &&& recorded(r, 3, prefix + "_idle"@ + "_root_rss"@, "KiB"@, low, s.root_rss)
            &&& recorded(r, 4, prefix + "_idle"@ + "_cohort_rss"@, "KiB"@, low, s.cohort_rss)
        }),
{
    lemma_all_attached(p, events, 0);
    assert(clients::attach_failure(p, events) is None);
    assert(clients::judged(p, events) == 2 * p.extra_clients + 3);
}

proof fn lemma_all_attached(p: ProfileRecordModel, events: Seq<EventModel>, from: int)
    requires
        unfailing(events),
        0 <= from,
    ensures
        clients::attach_failure(p, events) is None || from > 0,
        !plan::fails(events, clients::attached(p, events, from)),
    decreases p.extra_clients - from,
{
    if !(from >= p.extra_clients || from >= events.len() || plan::fails(events, from)) {
        lemma_all_attached(p, events, from + 1);
    }
}

// ---------------------------------------------------------------------------------------------
// The live suite
// ---------------------------------------------------------------------------------------------

/// The restart is timed, and without a direction: what the products bring back differs.
pub proof fn law_restarts_are_timed(adapter: Seq<char>, events: Seq<EventModel>)
    requires
        unfailing(events),
        events.len() == 9,
    ensures
        suites::restart_outcome(adapter, events).errors.len() == 0,
        suites::restart_outcome(adapter, events).drafts.len() == 1,
        recorded(
            suites::restart_outcome(adapter, events),
            0,
            "restart_ready"@,
            "ms"@,
            MetricDirection::Neutral,
            seq![plan::number_in(events[0])],
        ),
{
}

/// The steps of the live suite, in their order.
pub proof fn law_live_suites_follow_their_order(
    p: ProfileRecordModel,
    sequence: usize,
    events: Seq<EventModel>,
)
    requires
        unfailing(events),
        sequence + 2 <= usize::MAX,
    ensures
        ({
            let n = events.len();
            let step = suites::live_plan(p, sequence, events);
            &&& n == 0 ==> step == Some(ActionModel::Start { sequence })
            &&& n == 1 ==> step == Some(ActionModel::Prime)
            &&& n == 2 ==> step == Some(ActionModel::Settle)
            &&& n == 3 ==> step == Some(ActionModel::SampleServer)
            &&& n == 4 ==> step == Some(ActionModel::Commands { count: p.command_iterations })
            &&& n == 5 ==> step == Some(ActionModel::Attach)
            &&& n == 6 ==> step == Some(ActionModel::Drain { millis: 500 })
            &&& n == 7 ==> step == Some(ActionModel::Latency)
            &&& n == 8 ==> step == Some(ActionModel::Settle)
            &&& n == 9 ==> step == Some(ActionModel::SampleClients)
            &&& n == 10 ==> step == Some(ActionModel::RunOutput)
            &&& n == 11 ==> step == Some(ActionModel::RunStorm)
            &&& n == 12 ==> step == Some(ActionModel::StateBytes)
            &&& n == 13 ==> step == Some(ActionModel::Detach)
            &&& n == 14 ==> step == Some(ActionModel::Terminate)
            &&& n == 15 ==> step == Some(ActionModel::Stop)
            &&& n == 16 ==> step is Some && step.unwrap() is RunRestart
            &&& n == 17 ==> step == Some(
                ActionModel::RunMultipaneSuite { sequence: (sequence + 1) as usize },
            )
            &&& n == 18 ==> step == Some(
                ActionModel::RunMulticlientSuite { sequence: (sequence + 2) as usize },
            )
            &&& n >= 19 ==> step is None
        }),
{
}

/// Each step of the live suite leaves its own metrics: the detached window, the commands, the
/// latency, the attached window, the size of the state, the shutdown, and what the workloads have
/// recorded.
pub proof fn law_live_steps_leave_their_metrics(e: EventModel)
    requires
        !(e is Failed),
    ensures
        ({
            let low = MetricDirection::Lower;
            &&& e is Series ==> recorded(
                suites::live_piece(4, e),
                0,
                "control_command_latency"@,
                "ms"@,
                low,
                e->values,
            )
            &&& e is Series ==> recorded(
                suites::live_piece(7, e),
                0,
                "terminal_input_to_visible"@,
                "ms"@,
                low,
                e->values,
            )
            &&& recorded(
                suites::live_piece(12, e),
                0,
                "isolated_state_size"@,
                "bytes"@,
                MetricDirection::Neutral,
                seq![plan::number_in(e)],
            )
            &&& recorded(
                suites::live_piece(15, e),
                0,
                "live_suite_shutdown"@,
                "ms"@,
                low,
                seq![plan::number_in(e)],
            )
            &&& e is Sampled && e->resources.root_cpu is Some && e->resources.cohort_cpu is Some ==> {
                let s = e->resources;
                let (d, f) = (suites::live_piece(3, e), suites::live_piece(9, e));
                &&& d.drafts.len() == 4 && f.drafts.len() == 4
                &&& recorded(
                    d,
                    1,
                    "daemon_idle"@ + "_cohort_cpu"@,
                    "% core"@,
                    low,
                    seq![s.cohort_cpu.unwrap()],
                )
                &&& recorded(d, 3, "daemon_idle"@ + "_cohort_rss"@, "KiB"@, low, s.cohort_rss)
                &&& recorded(
                    f,
                    1,
                    "foreground_idle"@ + "_cohort_cpu"@,
                    "% core"@,
                    low,
                    seq![s.cohort_cpu.unwrap()],
                )
                &&& recorded(f, 3, "foreground_idle"@ + "_cohort_rss"@, "KiB"@, low, s.cohort_rss)
            }
            &&& forall|n: int|
                n == 10 || n == 11 || n == 16 || n == 17 || n == 18 ==> e is Recorded
                    ==> #[trigger] suites::live_piece(n, e) == e->record
        }),
{
}

/// What is written down of a suite is what its steps leave, one behind the other.
pub proof fn law_live_records_are_put_together(events: Seq<EventModel>, n: int)
    requires
        0 <= n < events.len(),
    ensures
        suites::live_record(events, n + 1).drafts == suites::live_record(events, n).drafts
            + suites::live_piece(n, events[n]).drafts,
        suites::live_record(events, n + 1).errors == suites::live_record(events, n).errors
            + suites::live_piece(n, events[n]).errors,
        unfailing(events) ==> suites::live_outcome(events) == suites::live_record(events, 19),
{
}

} // verus!
