//! Pane scaling: growing one pane at a time, sampling, and closing the added panes again.

use vstd::prelude::*;
use crate::decimal;
use crate::measure::Real;
use crate::textmap::TextMap;
use crate::model;
use crate::model::{MetricDirection, ProfileRecord, ProfileRecordModel};
use crate::plan;
use crate::plan::{
    Action, ActionModel, Event, EventModel, Record, RecordModel, Resources, ResourcesModel,
};
use crate::text;

verus! {

// ---------------------------------------------------------------------------------------------
// Closing one pane
// ---------------------------------------------------------------------------------------------

/// The steps of one attempt: drain any pending redraw so that the shell gets the keys on an idle
/// input line, type `exit`, and wait for the shell to disappear.
pub open spec fn close_action(processes: usize, phase: int) -> ActionModel {
    if phase == 0 {
        ActionModel::Drain { millis: 150 }
    } else if phase == 1 {
        ActionModel::Type { line: "exit"@ }
    } else {
        ActionModel::WaitAtMost { processes, seconds: 5 }
    }
}

/// Two attempts at most. What was closed gets a moment to settle.
pub open spec fn close_plan(processes: usize, events: Seq<EventModel>) -> Option<ActionModel> {
    let n = events.len() as int;
    if n < 3 {
        if n == 2 && plan::fails(events, 1) {
            None
        } else {
            Some(close_action(processes, n))
        }
    } else if !plan::fails(events, 2) {
        if n == 3 {
            Some(ActionModel::Pause { millis: 200 })
        } else {
            None
        }
    } else if n < 6 {
        if n == 5 && plan::fails(events, 4) {
            None
        } else {
            Some(close_action(processes, n - 3))
        }
    } else if !plan::fails(events, 5) && n == 6 {
        Some(ActionModel::Pause { millis: 200 })
    } else {
        None
    }
}

pub open spec fn stuck(processes: usize) -> Seq<char> {
    "process cohort did not shrink to "@ + decimal::decimal(processes as nat)
        + " members after typing exit twice; the pane shell did not close"@
}

/// Whether it took a second attempt, or why the pane did not close.
pub open spec fn close_outcome(processes: usize, events: Seq<EventModel>) -> Result<
    bool,
    Seq<char>,
> {
    if plan::fails(events, 1) {
        Err(plan::error_of(events, 1))
    } else if !plan::fails(events, 2) {
        Ok(false)
    } else if plan::fails(events, 4) {
        Err(plan::error_of(events, 4))
    } else if !plan::fails(events, 5) {
        Ok(true)
    } else {
        Err(stuck(processes))
    }
}

fn close_step(processes: usize, phase: usize) -> (r: Action)
    ensures
        r@ == close_action(processes, phase as int),
{
    if phase == 0 {
        Action::Drain { millis: 150 }
    } else if phase == 1 {
        Action::Type { line: "exit".to_owned() }
    } else {
        Action::WaitAtMost { processes, seconds: 5 }
    }
}

/// The next step of closing a pane. A second attempt is made only if the first did not take
/// effect.
pub fn close_next(processes: usize, events: &Vec<Event>) -> (r: Option<Action>)
    ensures
        plan::opt_action(r) == close_plan(processes, plan::events_of(events@)),
{
    let n: usize = events.len();
    assert(plan::events_of(events@).len() == n);
    if n < 3 {
        if n == 2 && plan::failure_at(events, 1).is_some() {
            None
        } else {
            Some(close_step(processes, n))
        }
    } else if plan::failure_at(events, 2).is_none() {
        if n == 3 {
            Some(Action::Pause { millis: 200 })
        } else {
            None
        }
    } else if n < 6 {
        if n == 5 && plan::failure_at(events, 4).is_some() {
            None
        } else {
            Some(close_step(processes, n - 3))
        }
    } else if plan::failure_at(events, 5).is_none() && n == 6 {
        Some(Action::Pause { millis: 200 })
    } else {
        None
    }
}

/// What came of closing a pane, once no step is left.
pub fn close_one_pane(processes: usize, events: &Vec<Event>) -> (r: Result<bool, String>)
    requires
        close_plan(processes, plan::events_of(events@)) is None,
    ensures
        match r {
            Ok(retried) => close_outcome(processes, plan::events_of(events@)) == Ok::<
                bool,
                Seq<char>,
            >(retried),
            Err(e) => close_outcome(processes, plan::events_of(events@)) == Err::<bool, Seq<char>>(
                e@,
            ),
        },
{
    match plan::failure_at(events, 1) {
        Some(e) => {
            return Err(e);
        },
        None => {},
    }
    if plan::failure_at(events, 2).is_none() {
        return Ok(false);
    }
    match plan::failure_at(events, 4) {
        Some(e) => {
            return Err(e);
        },
        None => {},
    }
    if plan::failure_at(events, 5).is_none() {
        return Ok(true);
    }
    let number: String = decimal::decimal_text(processes as u64);
    Err(
        text::cat(
            text::cat("process cohort did not shrink to ".to_owned(), number.as_str()),
            " members after typing exit twice; the pane shell did not close",
        ),
    )
}

/// A pane counts as closed only where waiting for its shell to disappear succeeded.
pub proof fn law_closed_panes_have_lost_their_shell(processes: usize, events: Seq<EventModel>)
    requires
        close_plan(processes, events) is None,
        close_outcome(processes, events) is Ok,
    ensures
        ({
            let at = if close_outcome(processes, events)->Ok_0 {
                5int
            } else {
                2int
            };
            &&& at < events.len()
            &&& !plan::fails(events, at)
            &&& close_outcome(processes, events)->Ok_0 ==> plan::fails(events, 2)
        }),
{
}

// ---------------------------------------------------------------------------------------------
// Growing, sampling, closing
// ---------------------------------------------------------------------------------------------

pub const PANE_IDLE: &'static str = "multipane_idle";

/// Recovery is sampled for so many seconds at most.
pub const RECOVERY_SECONDS: u64 = 10;

pub const PANE_RECOVERY: &'static str = "pane_close_recovery";

pub const PANE_IDLE_NOTE: &'static str =
    "Attached multi-pane session after identical prefix-key split actions.";

pub const PROCESS_NOTE: &'static str =
    "Observed server/client process roots and descendants; used as a workload validity signal, not a ranking metric.";

pub const SLOPE_NOTE: &'static str =
    "Least-squares slope of cohort RSS against pane count from one pane up to the profile pane count; each step is sampled after the new pane shell exists.";

pub const RECOVERY_NOTE: &'static str =
    "Share of the memory added by the extra panes that is returned after their shells exit; 100 means the cohort is back at its one-pane footprint.";

pub const CLOSED_NOTE: &'static str =
    "Cohort RSS after closing the extra panes; compare with the one-pane and peak values in the metadata.";

/// One step of growing to `panes` panes: split, drain the redraw, wait for the shell, let it
/// settle, sample. The first pane is there already.
pub open spec fn grow_action(panes: int, phase: int) -> ActionModel {
    if phase == 0 {
        ActionModel::Split
    } else if phase == 1 {
        ActionModel::Drain { millis: 120 }
    } else if phase == 2 {
        ActionModel::WaitFor { processes: (panes + 1) as usize, seconds: 5 }
    } else if phase == 3 {
        ActionModel::Pause { millis: 300 }
    } else {
        ActionModel::QuickRss { window: plan::QUICK_WINDOW, interval: plan::QUICK_INTERVAL }
    }
}

/// The index of the size sample at that many panes.
pub open spec fn sampled_at(panes: int) -> int {
    5 * panes - 3
}

/// The index of the first event behind the growth.
pub open spec fn grown(p: ProfileRecordModel) -> int {
    sampled_at(p.pane_count as int) + 1
}

/// The index of the samples at the full pane count.
pub open spec fn peak_at(p: ProfileRecordModel) -> int {
    grown(p) + 2
}

/// The index of the slope.
pub open spec fn slope_at(p: ProfileRecordModel) -> int {
    grown(p) + 3
}

/// The index of the first closing.
pub open spec fn closing_from(p: ProfileRecordModel) -> int {
    grown(p) + 4
}

/// The index of the first event behind the closings.
pub open spec fn closed(p: ProfileRecordModel) -> int {
    closing_from(p) + p.pane_count - 1
}

pub open spec fn resources_in(e: EventModel) -> ResourcesModel {
    match e {
        EventModel::Sampled { resources } => resources,
        _ => ResourcesModel {
            root_cpu: None,
            cohort_cpu: None,
            root_rss: Seq::empty(),
            cohort_rss: Seq::empty(),
            process_counts: Seq::empty(),
            median: Real { bits: 0 },
            median_text: Seq::empty(),
        },
    }
}

/// The size samples of the first `upto` pane counts.
pub open spec fn sizes(events: Seq<EventModel>, upto: nat) -> Seq<Real> {
    Seq::new(upto, |k: int| plan::number_in(events[sampled_at(k + 1)]))
}

/// Whether a failure at the index ends the workload.
pub open spec fn fatal(p: ProfileRecordModel, i: int) -> bool {
    if i < grown(p) {
        (i + 2) % 5 != 1
    } else {
        i == peak_at(p) || closing_from(p) <= i < closed(p) || i == closed(p) + 2
    }
}

pub open spec fn broken(p: ProfileRecordModel, events: Seq<EventModel>) -> bool {
    plan::fails(events, events.len() - 1) && fatal(p, events.len() - 1)
}

/// The steps: grow one pane at a time, sample the idle session, fit the slope, close the added
/// panes one at a time, sample again, and compute what was given back.
pub open spec fn multipane_plan(p: ProfileRecordModel, events: Seq<EventModel>) -> Option<
    ActionModel,
> {
    let n = events.len() as int;
    if p.pane_count <= 1 || broken(p, events) {
        None
    } else if n < grown(p) {
        Some(grow_action((n + 2) / 5 + 1, (n + 2) % 5))
    } else if n == grown(p) {
        Some(ActionModel::Drain { millis: 500 })
    } else if n == grown(p) + 1 {
        Some(ActionModel::Settle)
    } else if n == peak_at(p) {
        Some(ActionModel::SampleClients)
    } else if n == slope_at(p) {
        Some(ActionModel::Fit { sizes: sizes(events, p.pane_count as nat) })
    } else if n < closed(p) {
        Some(
            ActionModel::ClosePane {
                processes: (p.pane_count - (n - closing_from(p))) as usize,
            },
        )
    } else if n == closed(p) {
        Some(ActionModel::Drain { millis: 300 })
    } else if n == closed(p) + 1 {
        Some(ActionModel::Settle)
    } else if n == closed(p) + 2 {
        Some(ActionModel::SampleRecovery { seconds: RECOVERY_SECONDS })
    } else if n == closed(p) + 3 {
        Some(
            ActionModel::Recovery {
                base: plan::number_in(events[sampled_at(1)]),
                peak: resources_in(events[peak_at(p)]).median,
                after: resources_in(events[closed(p) + 2]).median,
            },
        )
    } else {
        None
    }
}

/// The points of the growth: pane count and size.
pub open spec fn curve(events: Seq<EventModel>, upto: nat) -> Seq<Seq<char>> {
    Seq::new(
        upto,
        |k: int|
            decimal::decimal((k + 1) as nat) + ":"@ + plan::written_in(
                events[sampled_at(k + 1)],
            ),
    )
}

pub open spec fn slope_metadata(p: ProfileRecordModel, events: Seq<EventModel>) -> Seq<
    (Seq<char>, Seq<char>),
> {
    seq![
        (
            "cohort_rss_kib_by_pane_count"@,
            text::join(curve(events, p.pane_count as nat), ","@),
        ),
    ]
}

/// How many of the events `from..upto` took a second attempt.
pub open spec fn retries(events: Seq<EventModel>, from: int, upto: int) -> nat
    decreases upto - from,
{
    if upto <= from {
        0
    } else {
        retries(events, from, upto - 1) + match events[upto - 1] {
            EventModel::Closed { retried } => if retried {
                1nat
            } else {
                0nat
            },
            _ => 0nat,
        }
    }
}

pub open spec fn close_metadata(p: ProfileRecordModel, events: Seq<EventModel>) -> Seq<
    (Seq<char>, Seq<char>),
> {
    seq![
        ("after_close_rss_kib"@, resources_in(events[closed(p) + 2]).median_text),
        ("exit_retries"@, decimal::decimal(retries(events, closing_from(p), closed(p)))),
        ("one_pane_rss_kib"@, plan::written_in(events[sampled_at(1)])),
        ("peak_rss_kib"@, resources_in(events[peak_at(p)]).median_text),
    ]
}

/// What is written down once the session was sampled at the full pane count.
pub open spec fn peak_record(p: ProfileRecordModel, events: Seq<EventModel>) -> RecordModel {
    let s = resources_in(events[peak_at(p)]);
    plan::with_resources(
        RecordModel::empty(),
        "multipane_"@ + decimal::decimal(p.pane_count as nat) + "_idle"@,
        s,
        PANE_IDLE_NOTE@,
    ).draft(
        plan::measured(
            "multipane_process_count"@,
            "processes"@,
            MetricDirection::Neutral,
            s.process_counts,
            PROCESS_NOTE@,
            plan::no_data(),
        ),
    ).draft(
        plan::measured(
            "pane_memory_slope"@,
            "KiB/pane"@,
            MetricDirection::Lower,
            seq![plan::number_in(events[slope_at(p)])],
            SLOPE_NOTE@,
            slope_metadata(p, events),
        ),
    )
}

/// What is written down of the workload.
pub open spec fn multipane_outcome(p: ProfileRecordModel, events: Seq<EventModel>) -> RecordModel {
    let none = RecordModel::empty();
    let last = events.len() - 1;
    let error = plan::error_of(events, last);
    if p.pane_count <= 1 {
        none
    } else if broken(p, events) {
        if last < grown(p) {
            let panes = decimal::decimal(((last + 2) / 5 + 1) as nat);
            if (last + 2) % 5 == 0 {
                none.error("pane split: "@ + error)
            } else if (last + 2) % 5 == 2 {
                none.failed(
                    PANE_IDLE@,
                    "split "@ + panes + ": "@ + error + " (server plus "@ + panes
                        + " pane shells expected)"@,
                )
            } else {
                none.error("pane scaling sample: "@ + error)
            }
        } else if last == peak_at(p) {
            none.failed(PANE_IDLE@, error)
        } else if last < closed(p) {
            peak_record(p, events).error("pane close: "@ + error).failed(PANE_RECOVERY@, error)
        } else {
            peak_record(p, events).failed(PANE_RECOVERY@, error)
        }
    } else {
        let data = close_metadata(p, events);
        peak_record(p, events).draft(
            plan::measured(
                PANE_RECOVERY@,
                "%"@,
                MetricDirection::Higher,
                seq![plan::number_in(events[closed(p) + 3])],
                RECOVERY_NOTE@,
                data,
            ),
        ).draft(
            plan::measured(
                "pane_close_rss"@,
                "KiB"@,
                MetricDirection::Lower,
                resources_in(events[closed(p) + 2]).cohort_rss,
                CLOSED_NOTE@,
                data,
            ),
        )
    }
}

// ---------------------------------------------------------------------------------------------
// Deciding
// ---------------------------------------------------------------------------------------------

/// The stages of the workload.
#[derive(Debug, Clone, Copy, PartialEq, Eq, Structural)]
enum Stage {
    /// Growing to that many panes, at that phase.
    Grow { panes: usize, phase: usize },
    /// The `n`th step between the growth and the closings.
    Peak { n: usize },
    /// The closing after that many others.
    Close { n: usize },
    /// The `n`th step behind the closings.
    After { n: usize },
}

spec fn stage_of(p: ProfileRecordModel, i: int, s: Stage) -> bool {
    match s {
        Stage::Grow { panes, phase } => i < grown(p) && panes == (i + 2) / 5 + 1 && phase == (i + 2)
            % 5,
        Stage::Peak { n } => grown(p) <= i < closing_from(p) && n == i - grown(p),
        Stage::Close { n } => closing_from(p) <= i < closed(p) && n == i - closing_from(p),
        Stage::After { n } => closed(p) <= i && n == i - closed(p),
    }
}

fn stage(p: &ProfileRecord, i: usize) -> (r: Stage)
    requires
        p.pane_count > 1,
        i < usize::MAX - 2,
    ensures
        stage_of(p@, i as int, r),
{
    let panes: usize = (i + 2) / 5 + 1;
    if panes <= p.pane_count {
        return Stage::Grow { panes, phase: (i + 2) % 5 };
    }
    let full: usize = 5 * p.pane_count - 2;
    assert(full == grown(p@));
    let n: usize = i - full;
    if n < 4 {
        Stage::Peak { n }
    } else if n - 4 < p.pane_count - 1 {
        Stage::Close { n: n - 4 }
    } else {
        Stage::After { n: n - 4 - (p.pane_count - 1) }
    }
}

pub fn resources_of(e: &Event) -> (r: Resources)
    ensures
        r@ == resources_in(e@),
{
    match e {
        Event::Sampled { resources } => resources.clone(),
        _ => {
            let r: Resources = Resources {
                root_cpu: None,
                cohort_cpu: None,
                root_rss: Vec::new(),
                cohort_rss: Vec::new(),
                process_counts: Vec::new(),
                median: Real { bits: 0 },
                median_text: String::new(),
            };
            assert(r@.root_rss =~= Seq::empty());
            assert(r@.cohort_rss =~= Seq::empty());
            assert(r@.process_counts =~= Seq::empty());
            assert(r@.median_text =~= Seq::empty());
            r
        },
    }
}

fn failure(p: &ProfileRecord, events: &Vec<Event>) -> (r: Option<String>)
    requires
        p.pane_count > 1,
        events@.len() < usize::MAX - 2,
    ensures
        match r {
            Some(e) => broken(p@, plan::events_of(events@)) && e@ == plan::error_of(
                plan::events_of(events@),
                events@.len() - 1,
            ),
            None => !broken(p@, plan::events_of(events@)),
        },
{
    assert(plan::events_of(events@).len() == events@.len());
    match plan::last_failure(events) {
        Some(e) => {
            let counts: bool = match stage(p, events.len() - 1) {
                Stage::Grow { phase, .. } => phase != 1,
                Stage::Peak { n } => n == 2,
                Stage::Close { .. } => true,
                Stage::After { n } => n == 2,
            };
            if counts {
                Some(e)
            } else {
                None
            }
        },
        None => None,
    }
}

fn sizes_of(events: &Vec<Event>, upto: usize) -> (r: Vec<Real>)
    requires
        upto == 0 || sampled_at(upto as int) < events@.len(),
    ensures
        r@ == sizes(plan::events_of(events@), upto as nat),
{
    let ghost view = plan::events_of(events@);
    let total: usize = events.len();
    let mut out: Vec<Real> = Vec::new();
    let mut k: usize = 0;
    while k < upto
        invariant
            k <= upto,
            total == events@.len(),
            upto > 0 ==> sampled_at(upto as int) < total,
            view == plan::events_of(events@),
            out@ =~= sizes(view, upto as nat).take(k as int),
        decreases upto - k,
    {
        assert(view[5 * (k + 1) - 3] == events@[5 * (k + 1) - 3]@);
        out.push(plan::number(&events[5 * (k + 1) - 3]));
        k = k + 1;
    }
    assert(out@ =~= sizes(view, upto as nat));
    out
}

/// The next step of the pane scaling workload.
pub fn multipane_next(p: &ProfileRecord, events: &Vec<Event>) -> (r: Option<Action>)
    requires
        p.pane_count < usize::MAX,
        events@.len() < usize::MAX - 2,
    ensures
        plan::opt_action(r) == multipane_plan(p@, plan::events_of(events@)),
{
    let ghost view = plan::events_of(events@);
    let n: usize = events.len();
    assert(view.len() == n);
    if p.pane_count <= 1 || failure(p, events).is_some() {
        return None;
    }
    match stage(p, n) {
        Stage::Grow { panes, phase } => Some(
            if phase == 0 {
                Action::Split
            } else if phase == 1 {
                Action::Drain { millis: 120 }
            } else if phase == 2 {
                Action::WaitFor { processes: panes + 1, seconds: 5 }
            } else if phase == 3 {
                Action::Pause { millis: 300 }
            } else {
                Action::QuickRss { window: plan::QUICK_WINDOW, interval: plan::QUICK_INTERVAL }
            },
        ),
        Stage::Peak { n: k } => Some(
            if k == 0 {
                Action::Drain { millis: 500 }
            } else if k == 1 {
                Action::Settle
            } else if k == 2 {
                Action::SampleClients
            } else {
                Action::Fit { sizes: sizes_of(events, p.pane_count) }
            },
        ),
        Stage::Close { n: k } => Some(Action::ClosePane { processes: p.pane_count - k }),
        Stage::After { n: k } => if k == 0 {
            Some(Action::Drain { millis: 300 })
        } else if k == 1 {
            Some(Action::Settle)
        } else if k == 2 {
            Some(Action::SampleRecovery { seconds: RECOVERY_SECONDS })
        } else if k == 3 {
            let peak_index: usize = 5 * p.pane_count;
            assert(peak_index == peak_at(p@));
            assert(view[2] == events@[2]@);
            assert(view[peak_index as int] == events@[peak_index as int]@);
            assert(view[n - 1] == events@[n - 1]@);
            Some(
                Action::Recovery {
                    base: plan::number(&events[2]),
                    peak: resources_of(&events[peak_index]).median,
                    after: resources_of(&events[n - 1]).median,
                },
            )
        } else {
            None
        },
    }
}

fn curve_of(events: &Vec<Event>, upto: usize) -> (r: Vec<String>)
    requires
        upto == 0 || sampled_at(upto as int) < events@.len(),
    ensures
        text::texts(r@) == curve(plan::events_of(events@), upto as nat),
{
    let ghost view = plan::events_of(events@);
    let total: usize = events.len();
    let ghost wanted = curve(view, upto as nat);
    let mut out: Vec<String> = Vec::new();
    let mut k: usize = 0;
    while k < upto
        invariant
            k <= upto,
            total == events@.len(),
            upto > 0 ==> sampled_at(upto as int) < total,
            view == plan::events_of(events@),
            wanted == curve(view, upto as nat),
            text::texts(out@) =~= wanted.take(k as int),
        decreases upto - k,
    {
        assert(view[5 * (k + 1) - 3] == events@[5 * (k + 1) - 3]@);
        let panes: String = decimal::decimal_text((k + 1) as u64);
        let shown: String = plan::written(&events[5 * (k + 1) - 3]);
        text::push_text(&mut out, text::cat(text::cat(panes, ":"), shown.as_str()));
        k = k + 1;
    }
    assert(wanted.take(k as int) =~= wanted);
    out
}

fn count_retries(events: &Vec<Event>, from: usize, upto: usize) -> (r: usize)
    requires
        from <= upto <= events@.len(),
    ensures
        r == retries(plan::events_of(events@), from as int, upto as int),
{
    let ghost view = plan::events_of(events@);
    let mut count: usize = 0;
    let mut i: usize = from;
    while i < upto
        invariant
            from <= i <= upto <= events@.len(),
            view == plan::events_of(events@),
            count == retries(view, from as int, i as int),
            count <= i - from,
        decreases upto - i,
    {
        assert(view[i as int] == events@[i as int]@);
        match &events[i] {
            Event::Closed { retried } => {
                if *retried {
                    count = count + 1;
                }
            },
            _ => {},
        }
        i = i + 1;
    }
    count
}

fn peak_record_of(p: &ProfileRecord, events: &Vec<Event>) -> (r: Record)
    requires
        p.pane_count > 1,
        slope_at(p@) < events@.len(),
    ensures
        r@ == peak_record(p@, plan::events_of(events@)),
{
    let ghost view = plan::events_of(events@);
    let total: usize = events.len();
    let peak_index: usize = 5 * p.pane_count;
    assert(peak_index == peak_at(p@));
    assert(view[peak_index as int] == events@[peak_index as int]@);
    assert(view[peak_index + 1] == events@[peak_index + 1]@);
    let s: Resources = resources_of(&events[peak_index]);
    let number: String = decimal::decimal_text(p.pane_count as u64);
    let prefix: String = text::cat(
        text::cat("multipane_".to_owned(), number.as_str()),
        "_idle",
    );
    let mut record: Record = Record::new();
    plan::add_resource_metrics(&mut record, prefix.as_str(), &s, PANE_IDLE_NOTE);
    record.push_draft(
        plan::measured_draft(
            "multipane_process_count",
            "processes",
            MetricDirection::Neutral,
            model::clone_samples(&s.process_counts),
            PROCESS_NOTE,
            plan::no_metadata(),
        ),
    );
    let points: Vec<String> = curve_of(events, p.pane_count);
    let mut data: TextMap = TextMap::new();
    data.append("cohort_rss_kib_by_pane_count", text::joined(&points, ",").as_str());
    assert(data@ =~= slope_metadata(p@, view));
    record.push_draft(
        plan::measured_draft(
            "pane_memory_slope",
            "KiB/pane",
            MetricDirection::Lower,
            plan::one_sample(plan::number(&events[peak_index + 1])),
            SLOPE_NOTE,
            data,
        ),
    );
    record
}

fn close_metadata_of(p: &ProfileRecord, events: &Vec<Event>) -> (r: TextMap)
    requires
        p.pane_count > 1,
        closed(p@) + 2 < events@.len(),
    ensures
        r@ == close_metadata(p@, plan::events_of(events@)),
{
    let ghost view = plan::events_of(events@);
    let total: usize = events.len();
    let peak_index: usize = 5 * p.pane_count;
    let from: usize = peak_index + 2;
    let end: usize = from + (p.pane_count - 1);
    assert(from == closing_from(p@));
    assert(end == closed(p@));
    assert(view[2] == events@[2]@);
    assert(view[peak_index as int] == events@[peak_index as int]@);
    assert(view[end + 2] == events@[end + 2]@);
    let mut data: TextMap = TextMap::new();
    proof {
        reveal_strlit("after_close_rss_kib");
        reveal_strlit("exit_retries");
        reveal_strlit("one_pane_rss_kib");
        reveal_strlit("peak_rss_kib");
        text::lemma_before_at("after_close_rss_kib"@, "exit_retries"@, 0);
        text::lemma_before_at("exit_retries"@, "one_pane_rss_kib"@, 0);
        text::lemma_before_at("one_pane_rss_kib"@, "peak_rss_kib"@, 0);
    }
    let again: usize = count_retries(events, from, end);
    data.append("after_close_rss_kib", resources_of(&events[end + 2]).median_text.as_str());
    data.append("exit_retries", decimal::decimal_text(again as u64).as_str());
    data.append("one_pane_rss_kib", plan::written(&events[2]).as_str());
    data.append("peak_rss_kib", resources_of(&events[peak_index]).median_text.as_str());
    assert(data@ =~= close_metadata(p@, view));
    data
}

fn growth_failure(last: usize, error: &str) -> (r: Record)
    requires
        last < usize::MAX - 2,
        (last + 2) % 5 != 1,
    ensures
        ({
            let none = RecordModel::empty();
            let panes = decimal::decimal(((last + 2) / 5 + 1) as nat);
            r@ == if (last + 2) % 5 == 0 {
                none.error("pane split: "@ + error@)
            } else if (last + 2) % 5 == 2 {
                none.failed(
                    PANE_IDLE@,
                    "split "@ + panes + ": "@ + error@ + " (server plus "@ + panes
                        + " pane shells expected)"@,
                )
            } else {
                none.error("pane scaling sample: "@ + error@)
            }
        }),
{
    let mut record: Record = Record::new();
    let phase: usize = (last + 2) % 5;
    if phase == 0 {
        record.push_error(text::cat("pane split: ".to_owned(), error));
    } else if phase == 2 {
        let panes: String = decimal::decimal_text(((last + 2) / 5 + 1) as u64);
        let head: String = text::cat(
            text::cat(text::cat("split ".to_owned(), panes.as_str()), ": "),
            error,
        );
        let note: String = text::cat(
            text::cat(text::cat(head, " (server plus "), panes.as_str()),
            " pane shells expected)",
        );
        record.push_failed(PANE_IDLE, note.as_str());
    } else {
        record.push_error(text::cat("pane scaling sample: ".to_owned(), error));
    }
    record
}

/// What is written down of the pane scaling workload, once no step is left.
pub fn run_multipane(p: &ProfileRecord, events: &Vec<Event>) -> (r: Record)
    requires
        p.pane_count < usize::MAX,
        events@.len() < usize::MAX - 2,
        multipane_plan(p@, plan::events_of(events@)) is None,
    ensures
        r@ == multipane_outcome(p@, plan::events_of(events@)),
{
    let ghost view = plan::events_of(events@);
    let n: usize = events.len();
    assert(view.len() == n);
    if p.pane_count <= 1 {
        return Record::new();
    }
    match failure(p, events) {
        Some(error) => {
            match stage(p, n - 1) {
                Stage::Grow { .. } => {
                    return growth_failure(n - 1, error.as_str());
                },
                Stage::Peak { .. } => {
                    let mut record: Record = Record::new();
                    record.push_failed(PANE_IDLE, error.as_str());
                    return record;
                },
                Stage::Close { .. } => {
                    let mut record: Record = peak_record_of(p, events);
                    record.push_error(text::cat("pane close: ".to_owned(), error.as_str()));
                    record.push_failed(PANE_RECOVERY, error.as_str());
                    return record;
                },
                Stage::After { .. } => {
                    let mut record: Record = peak_record_of(p, events);
                    record.push_failed(PANE_RECOVERY, error.as_str());
                    return record;
                },
            }
        },
        None => {},
    }
    let end: usize = 5 * p.pane_count + 2 + (p.pane_count - 1);
    assert(end == closed(p@));
    assert(view[end + 2] == events@[end + 2]@);
    assert(view[end + 3] == events@[end + 3]@);
    let mut record: Record = peak_record_of(p, events);
    record.push_draft(
        plan::measured_draft(
            PANE_RECOVERY,
            "%",
            MetricDirection::Higher,
            plan::one_sample(plan::number(&events[end + 3])),
            RECOVERY_NOTE,
            close_metadata_of(p, events),
        ),
    );
    record.push_draft(
        plan::measured_draft(
            "pane_close_rss",
            "KiB",
            MetricDirection::Lower,
            resources_of(&events[end + 2]).cohort_rss,
            CLOSED_NOTE,
            close_metadata_of(p, events),
        ),
    );
    record
}

/// Every size of the growth is sampled after the shell of the new pane is there: the wait for it
/// comes first and has succeeded, in every workload that runs to its end.
pub proof fn law_sampled_panes_have_their_shell(
    p: ProfileRecordModel,
    events: Seq<EventModel>,
    panes: int,
)
    requires
        1 <= panes <= p.pane_count < usize::MAX,
        p.pane_count > 1,
        multipane_plan(p, events) is None,
        !broken(p, events),
        forall|n: int|
            0 <= n < events.len() ==> #[trigger] multipane_plan(p, events.take(n)) is Some,
    ensures
        multipane_plan(p, events.take(sampled_at(panes) - 2)) == Some(
            ActionModel::WaitFor { processes: (panes + 1) as usize, seconds: 5 },
        ),
        !plan::fails(events, sampled_at(panes) - 2),
        multipane_plan(p, events.take(sampled_at(panes))) == Some(
            ActionModel::QuickRss { window: plan::QUICK_WINDOW, interval: plan::QUICK_INTERVAL },
        ),
        !plan::fails(events, sampled_at(panes)),
{
    let wait = sampled_at(panes) - 2;
    let sample = sampled_at(panes);
    assert(sample < grown(p) < events.len());
    lemma_no_fatal_failure(p, events, wait);
    lemma_no_fatal_failure(p, events, sample);
    assert(multipane_plan(p, events.take(wait)) is Some);
    assert(multipane_plan(p, events.take(sample)) is Some);
}

proof fn lemma_no_fatal_failure(p: ProfileRecordModel, events: Seq<EventModel>, i: int)
    requires
        0 <= i < events.len() - 1,
        fatal(p, i),
        forall|n: int|
            0 <= n < events.len() ==> #[trigger] multipane_plan(p, events.take(n)) is Some,
    ensures
        !plan::fails(events, i),
{
    let longer = events.take(i + 1);
    assert(multipane_plan(p, longer) is Some);
    assert(longer[i] == events[i]);
}

} // verus!
