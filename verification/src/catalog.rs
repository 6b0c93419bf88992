//! Every metric that a run can record is one that the privacy filter knows.

use vstd::prelude::*;
use crate::clients;
use crate::decimal;
use crate::measure::Real;
use crate::model::{BenchmarkStatus, MetricDirection, ProfileRecordModel};
use crate::panes;
use crate::plan;
use crate::plan::{DraftModel, EventModel, RecordModel, ResourcesModel};
use crate::privacy;
use crate::report;
use crate::runner;
use crate::suites;
use crate::text;
use crate::workloads;

verus! {

/// The metric has this name and this unit, and this direction is better.
pub open spec fn reads(
    d: DraftModel,
    name: Seq<char>,
    unit: Seq<char>,
    direction: MetricDirection,
) -> bool {
    d.name == name && d.unit == unit && d.direction == direction
}

/// The name of an idle window: detached, attached, with several panes or with several clients.
pub open spec fn idle(prefix: Seq<char>) -> bool {
    ||| prefix == "daemon_idle"@
    ||| prefix == "foreground_idle"@
    ||| exists|n: nat|
        prefix == "multipane_"@ + (#[trigger] decimal::decimal(n)) + "_idle"@ || prefix
            == "multiclient_"@ + decimal::decimal(n) + "_idle"@
}

/// One of the four resource metrics of the window.
pub open spec fn of_window(d: DraftModel, prefix: Seq<char>) -> bool {
    ||| reads(d, prefix + "_root_cpu"@, "% core"@, MetricDirection::Lower)
    ||| reads(d, prefix + "_cohort_cpu"@, "% core"@, MetricDirection::Lower)
    ||| reads(d, prefix + "_root_rss"@, "KiB"@, MetricDirection::Lower)
    ||| reads(d, prefix + "_cohort_rss"@, "KiB"@, MetricDirection::Lower)
}

/// The metrics that have a name of their own, each with its unit and its direction.
pub open spec fn named(d: DraftModel) -> bool {
    ||| reads(d, "binary_size"@, "bytes"@, MetricDirection::Lower)
    ||| reads(d, "server_startup_ready"@, "ms"@, MetricDirection::Lower)
    ||| reads(d, "server_shutdown"@, "ms"@, MetricDirection::Lower)
    ||| reads(d, "control_command_latency"@, "ms"@, MetricDirection::Lower)
    ||| reads(d, "terminal_input_to_visible"@, "ms"@, MetricDirection::Lower)
    ||| reads(d, "terminal_output_completion"@, "ms"@, MetricDirection::Lower)
    ||| reads(d, "terminal_output_ingest_rate"@, "MiB/s"@, MetricDirection::Higher)
    ||| reads(d, "client_render_output"@, "bytes"@, MetricDirection::Lower)
    ||| reads(d, "multipane_process_count"@, "processes"@, MetricDirection::Neutral)
    ||| reads(d, "isolated_state_size"@, "bytes"@, MetricDirection::Neutral)
    ||| reads(d, "live_suite_shutdown"@, "ms"@, MetricDirection::Lower)
    ||| reads(d, "multipane_suite_shutdown"@, "ms"@, MetricDirection::Lower)
    ||| reads(d, "pane_memory_slope"@, "KiB/pane"@, MetricDirection::Lower)
    ||| reads(d, "pane_close_recovery"@, "%"@, MetricDirection::Higher)
    ||| reads(d, "pane_close_rss"@, "KiB"@, MetricDirection::Lower)
    ||| reads(d, "resize_storm_settle"@, "ms"@, MetricDirection::Lower)
    ||| reads(d, "resize_storm_cpu"@, "ms CPU"@, MetricDirection::Lower)
    ||| reads(d, "resize_storm_rss"@, "KiB"@, MetricDirection::Lower)
    ||| reads(d, "restart_ready"@, "ms"@, MetricDirection::Neutral)
}

/// What is measured, in what unit, and whether less or more of it is better.
pub open spec fn listed(d: DraftModel) -> bool {
    ||| named(d)
    ||| exists|prefix: Seq<char>| #[trigger] idle(prefix) && of_window(d, prefix)
    ||| exists|n: nat|
        reads(
            d,
            "multiclient_"@ + (#[trigger] decimal::decimal(n)) + "_input_to_visible"@,
            "ms"@,
            MetricDirection::Lower,
        )
}

/// A metric whose name and unit can be published. One that was measured is in the list; any other
/// has failed, and has no samples.
pub open spec fn known(d: DraftModel) -> bool {
    &&& privacy::metric(d.name)
    &&& privacy::unit(d.unit)
    &&& d.status == BenchmarkStatus::Measured ==> listed(d)
    &&& d.status != BenchmarkStatus::Measured ==> d.status == BenchmarkStatus::Failed
        && d.samples.len() == 0 && d.direction == MetricDirection::Neutral
}

/// Every core metric is better the lower it is, whichever workload has recorded it.
pub proof fn law_core_metrics_are_better_lower(r: RecordModel, i: int)
    requires
        publishable(r),
        0 <= i < r.drafts.len(),
        r.drafts[i].status == BenchmarkStatus::Measured,
        report::core_names().contains(r.drafts[i].name),
    ensures
        r.drafts[i].direction == MetricDirection::Lower,
        r.drafts[i].unit == "ms"@ || r.drafts[i].unit == "% core"@ || r.drafts[i].unit == "KiB"@,
{
    let d = r.drafts[i];
    assert(known(d));
    lemma_core_lower(d);
}

proof fn lemma_core_lower(d: DraftModel)
    requires
        listed(d),
        report::core_names().contains(d.name),
    ensures
        d.direction == MetricDirection::Lower,
        d.unit == "ms"@ || d.unit == "% core"@ || d.unit == "KiB"@,
{
    let core = report::core_names();
    let k = choose|k: int| 0 <= k < core.len() && core[k] == d.name;
    let name = d.name;
    reveal_strlit("server_startup_ready");
    reveal_strlit("control_command_latency");
    reveal_strlit("daemon_idle_cohort_cpu");
    reveal_strlit("daemon_idle_cohort_rss");
    reveal_strlit("foreground_idle_cohort_cpu");
    reveal_strlit("foreground_idle_cohort_rss");
    reveal_strlit("terminal_input_to_visible");
    reveal_strlit("terminal_output_completion");
    assert(name[0] == 's' || name[0] == 'c' || name[0] == 'd' || name[0] == 'f' || name[0] == 't');
    if named(d) {
        reveal_strlit("binary_size");
        reveal_strlit("client_render_output");
        reveal_strlit("multipane_process_count");
        reveal_strlit("isolated_state_size");
        reveal_strlit("pane_memory_slope");
        reveal_strlit("pane_close_recovery");
        reveal_strlit("restart_ready");
        reveal_strlit("terminal_output_ingest_rate");
        assert(name != "client_render_output"@) by {
            assert(name[0] == 'c' ==> name.len() == 23);
        }
        assert(name != "terminal_output_ingest_rate"@) by {
            assert(name[0] == 't' ==> name.len() != 27);
        }
        reveal_strlit("resize_storm_cpu");
        assert(name[0] != 'b' && name[0] != 'm' && name[0] != 'i' && name[0] != 'p' && name[0]
            != 'r');
    }
}

/// A record all of whose metrics can be published.
pub open spec fn publishable(r: RecordModel) -> bool {
    forall|i: int| 0 <= i < r.drafts.len() ==> known(#[trigger] r.drafts[i])
}

proof fn lemma_draft(r: RecordModel, d: DraftModel)
    requires
        publishable(r),
        known(d),
    ensures
        publishable(r.draft(d)),
{
}

proof fn lemma_failed(r: RecordModel, name: Seq<char>, note: Seq<char>)
    requires
        publishable(r),
        privacy::metric(name),
    ensures
        publishable(r.failed(name, note)),
{
    reveal_strlit("");
    assert(Seq::<char>::empty() =~= ""@);
    lemma_draft(r, plan::failed(name, note));
}

proof fn lemma_then(a: RecordModel, b: RecordModel)
    requires
        publishable(a),
        publishable(b),
    ensures
        publishable(a.then_record(b)),
{
    let all = a.then_record(b).drafts;
    assert forall|i: int| 0 <= i < all.len() implies known(#[trigger] all[i]) by {
        if i < a.drafts.len() {
            assert(all[i] == a.drafts[i]);
        } else {
            assert(all[i] == b.drafts[i - a.drafts.len()]);
        }
    }
}

/// A prefix under which the four resource metrics of a window can be published.
spec fn window(prefix: Seq<char>) -> bool {
    forall|suffix: Seq<char>|
        privacy::resource(suffix) ==> #[trigger] privacy::metric(prefix + suffix)
}

proof fn lemma_resources(r: RecordModel, prefix: Seq<char>, s: ResourcesModel, note: Seq<char>)
    requires
        publishable(r),
        window(prefix),
        idle(prefix),
    ensures
        publishable(plan::with_resources(r, prefix, s, note)),
{
    let one = plan::cpu_draft(r, s.root_cpu, prefix + "_root_cpu"@, note);
    let two = plan::cpu_draft(one, s.cohort_cpu, prefix + "_cohort_cpu"@, note);
    assert(publishable(one)) by {
        assert(privacy::metric(prefix + "_root_cpu"@));
        if let Some(v) = s.root_cpu {
            assert(of_window(one.drafts.last(), prefix));
        }
    }
    assert(publishable(two)) by {
        assert(privacy::metric(prefix + "_cohort_cpu"@));
        if let Some(v) = s.cohort_cpu {
            assert(of_window(two.drafts.last(), prefix));
        }
    }
    assert(of_window(plan::rss_draft(s.root_rss, prefix + "_root_rss"@, note), prefix));
    assert(of_window(plan::rss_draft(s.cohort_rss, prefix + "_cohort_rss"@, note), prefix));
    assert(privacy::metric(prefix + "_root_cpu"@));
    assert(privacy::metric(prefix + "_cohort_cpu"@));
    assert(privacy::metric(prefix + "_root_rss"@));
    assert(privacy::metric(prefix + "_cohort_rss"@));
}

proof fn lemma_after_prefix(prefix: Seq<char>, rest: Seq<char>)
    ensures
        text::after_prefix(prefix + rest, prefix) == Some(rest),
{
    assert((prefix + rest).take(prefix.len() as int) =~= prefix);
    assert((prefix + rest).skip(prefix.len() as int) =~= rest);
}

proof fn lemma_plain_window(prefix: Seq<char>)
    requires
        prefix == "daemon_idle"@ || prefix == "foreground_idle"@,
    ensures
        window(prefix),
{
    assert forall|suffix: Seq<char>| privacy::resource(suffix) implies #[trigger] privacy::metric(
        prefix + suffix,
    ) by {
        lemma_after_prefix(prefix, suffix);
    }
}

proof fn lemma_digits(n: nat)
    requires
        n <= 9999,
    ensures
        0 < decimal::decimal(n).len() <= 4,
        text::all_digits(decimal::decimal(n)),
{
    decimal::lemma_decimal(n);
    reveal_with_fuel(decimal::decimal, 5);
}

proof fn lemma_counted(prefix: Seq<char>, n: nat, suffix: Seq<char>)
    requires
        n <= 9999,
        suffix == "input_to_visible"@ || suffix == "idle"@ || privacy::resource_of(
            suffix,
            "idle"@,
        ),
    ensures
        privacy::counted_metric(prefix + decimal::decimal(n) + "_"@ + suffix, prefix),
{
    let count = decimal::decimal(n);
    let rest = count + "_"@ + suffix;
    lemma_digits(n);
    reveal_strlit("_");
    assert(prefix + decimal::decimal(n) + "_"@ + suffix =~= prefix + rest);
    lemma_after_prefix(prefix, rest);
    let p = text::other_than('_');
    assert forall|i: int| 0 <= i < count.len() implies p(#[trigger] rest[i]) by {
        assert(rest[i] == count[i]);
        assert(text::digit(count[i]));
    }
    assert(rest[count.len() as int] == '_');
    text::lemma_run_len_is(rest, p, count.len());
    assert(rest.take(count.len() as int) =~= count);
    assert(rest.skip(count.len() as int + 1) =~= suffix);
}

proof fn lemma_counted_window(kind: Seq<char>, n: nat)
    requires
        n <= 9999,
        kind == "multipane_"@ || kind == "multiclient_"@,
    ensures
        window(kind + decimal::decimal(n) + "_idle"@),
        idle(kind + decimal::decimal(n) + "_idle"@),
        privacy::metric(kind + decimal::decimal(n) + "_idle"@),
        privacy::metric(kind + decimal::decimal(n) + "_input_to_visible"@),
{
    let prefix = kind + decimal::decimal(n) + "_idle"@;
    reveal_strlit("_");
    reveal_strlit("idle");
    reveal_strlit("_idle");
    reveal_strlit("input_to_visible");
    reveal_strlit("_input_to_visible");
    let head = kind + decimal::decimal(n);
    assert("_idle"@ =~= "_"@ + "idle"@);
    assert("_input_to_visible"@ =~= "_"@ + "input_to_visible"@);
    assert(prefix =~= head + "_"@ + "idle"@);
    assert(head + "_input_to_visible"@ =~= head + "_"@ + "input_to_visible"@);
    lemma_counted(kind, n, "idle"@);
    lemma_counted(kind, n, "input_to_visible"@);
    assert forall|suffix: Seq<char>| privacy::resource(suffix) implies #[trigger] privacy::metric(
        prefix + suffix,
    ) by {
        lemma_after_prefix("idle"@, suffix);
        lemma_counted(kind, n, "idle"@ + suffix);
        assert(prefix + suffix =~= head + "_"@ + ("idle"@ + suffix));
    }
}

/// The startup trials and the size of the binary record only metrics that can be published.
pub proof fn law_startup_metrics_can_be_published(
    iterations: usize,
    t: runner::Tries,
    bytes: Real,
)
    ensures
        publishable(runner::startup_outcome(iterations, t)),
        publishable(RecordModel::empty().draft(runner::size_metric(bytes))),
{
    reveal_strlit("");
    assert(Seq::<char>::empty() =~= ""@);
}

/// The output workload and the resize storm record only metrics that can be published.
pub proof fn law_workload_metrics_can_be_published(p: ProfileRecordModel, events: Seq<EventModel>)
    ensures
        publishable(workloads::output_outcome(p, events)),
        publishable(workloads::storm_outcome(p, events)),
{
    reveal_strlit("");
    assert(Seq::<char>::empty() =~= ""@);
}

proof fn lemma_peak(p: ProfileRecordModel, events: Seq<EventModel>)
    requires
        p.pane_count <= 9999,
    ensures
        publishable(panes::peak_record(p, events)),
{
    let s = panes::resources_in(events[panes::peak_at(p)]);
    let prefix = "multipane_"@ + decimal::decimal(p.pane_count as nat) + "_idle"@;
    lemma_counted_window("multipane_"@, p.pane_count as nat);
    lemma_resources(RecordModel::empty(), prefix, s, panes::PANE_IDLE_NOTE@);
}

/// Pane scaling records only metrics that can be published, with up to four digits of panes.
pub proof fn law_pane_metrics_can_be_published(p: ProfileRecordModel, events: Seq<EventModel>)
    requires
        p.pane_count <= 9999,
    ensures
        publishable(panes::multipane_outcome(p, events)),
{
    reveal_strlit("");
    assert(Seq::<char>::empty() =~= ""@);
    lemma_peak(p, events);
}

/// Several clients record only metrics that can be published, with up to four digits of clients.
pub proof fn law_client_metrics_can_be_published(p: ProfileRecordModel, events: Seq<EventModel>)
    requires
        p.extra_clients < 9999,
    ensures
        publishable(clients::multiclient_outcome(p, events)),
{
    let none = RecordModel::empty();
    let n = (p.extra_clients + 1) as nat;
    lemma_counted_window("multiclient_"@, n);
    reveal_strlit("");
    assert(Seq::<char>::empty() =~= ""@);
    let seen = clients::visible_record(p, events);
    assert(clients::visible_name(p) == "multiclient_"@ + decimal::decimal(n)
        + "_input_to_visible"@);
    assert(publishable(seen));
    let at = clients::judged(p, events) + 1;
    lemma_failed(seen, clients::clients_idle_name(p), plan::error_of(events, at));
    lemma_resources(
        seen,
        clients::clients_idle_name(p),
        panes::resources_in(events[at]),
        clients::CLIENTS_IDLE_NOTE@,
    );
}

/// The restart records only metrics that can be published.
pub proof fn law_restart_metrics_can_be_published(adapter: Seq<char>, events: Seq<EventModel>)
    ensures
        publishable(suites::restart_outcome(adapter, events)),
{
    reveal_strlit("");
    assert(Seq::<char>::empty() =~= ""@);
}

/// Whether every record among the events can be published.
pub open spec fn records_publishable(events: Seq<EventModel>) -> bool {
    forall|i: int|
        0 <= i < events.len() ==> publishable(suites::record_in(#[trigger] events[i]))
}

/// A whole suite that has run to its end records only metrics that can be published, where its
/// parts do.
pub proof fn law_suite_metrics_can_be_published(
    p: ProfileRecordModel,
    sequence: usize,
    events: Seq<EventModel>,
)
    requires
        records_publishable(events),
    ensures
        suites::multipane_suite_plan(sequence, events) is None ==> publishable(
            suites::multipane_suite_outcome(events),
        ),
        suites::multiclient_suite_plan(p, sequence, events) is None ==> publishable(
            suites::multiclient_suite_outcome(p, events),
        ),
        suites::live_plan(p, sequence, events) is None ==> publishable(
            suites::live_outcome(events),
        ),
{
    if suites::live_plan(p, sequence, events) is None {
        lemma_live(events, suites::live_upto(events));
    }
}

proof fn lemma_live(events: Seq<EventModel>, upto: int)
    requires
        records_publishable(events),
        upto <= events.len(),
    ensures
        publishable(suites::live_record(events, upto)),
    decreases upto,
{
    if upto > 0 {
        lemma_live(events, upto - 1);
        let e = events[upto - 1];
        assert(publishable(suites::record_in(e)));
        lemma_piece(upto - 1, e);
        lemma_then(suites::live_record(events, upto - 1), suites::live_piece(upto - 1, e));
    }
}

proof fn lemma_piece(n: int, e: EventModel)
    requires
        publishable(suites::record_in(e)),
    ensures
        publishable(suites::live_piece(n, e)),
{
    reveal_strlit("");
    assert(Seq::<char>::empty() =~= ""@);
    let none = RecordModel::empty();
    lemma_plain_window("daemon_idle"@);
    lemma_plain_window("foreground_idle"@);
    lemma_resources(none, "daemon_idle"@, panes::resources_in(e), suites::DAEMON_NOTE@);
    lemma_resources(none, "foreground_idle"@, panes::resources_in(e), suites::FOREGROUND_NOTE@);
}

} // verus!
