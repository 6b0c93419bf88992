//! The suites of a contender: priming, restarting, and the order of its workloads.

use vstd::prelude::*;
use crate::config;
use crate::decimal;
use crate::textmap::TextMap;
use crate::model::{MetricDirection, ProfileRecord, ProfileRecordModel};
use crate::panes;
use crate::plan;
use crate::plan::{Action, ActionModel, Event, EventModel, Record, RecordModel};
use crate::text;
use crate::workloads;

verus! {

pub open spec fn record_in(e: EventModel) -> RecordModel {
    match e {
        EventModel::Recorded { record } => record,
        _ => RecordModel::empty(),
    }
}

fn record_of(e: &Event) -> (r: Record)
    ensures
        r@ == record_in(e@),
{
    match e {
        Event::Recorded { record } => record.clone(),
        _ => Record::new(),
    }
}

// ---------------------------------------------------------------------------------------------
// Priming
// ---------------------------------------------------------------------------------------------

/// One attach, one pane shell running, then detach, so that every product is sampled in the same
/// detached state.
pub open spec fn prime_plan(events: Seq<EventModel>) -> Option<ActionModel> {
    let n = events.len() as int;
    if plan::fails(events, n - 1) {
        None
    } else if n == 0 {
        Some(ActionModel::Attach)
    } else if n == 1 {
        Some(ActionModel::Drain { millis: 500 })
    } else if n == 2 {
        Some(ActionModel::WaitFor { processes: 2, seconds: 5 })
    } else if n == 3 {
        Some(ActionModel::Detach)
    } else if n == 4 {
        Some(ActionModel::Drain { millis: 300 })
    } else if n == 5 {
        Some(ActionModel::Terminate)
    } else {
        None
    }
}

/// Why the session could not be primed.
pub open spec fn prime_outcome(events: Seq<EventModel>) -> Option<Seq<char>> {
    let last = events.len() - 1;
    let error = plan::error_of(events, last);
    if !plan::fails(events, last) {
        None
    } else if last == 0 {
        Some("attach: "@ + error)
    } else if last == 2 {
        Some(error + " (server plus one pane shell)"@)
    } else {
        Some(error)
    }
}

/// The next step of priming.
pub fn prime_next(events: &Vec<Event>) -> (r: Option<Action>)
    ensures
        plan::opt_action(r) == prime_plan(plan::events_of(events@)),
{
    let n: usize = events.len();
    assert(plan::events_of(events@).len() == n);
    if plan::last_failure(events).is_some() {
        return None;
    }
    if n == 0 {
        Some(Action::Attach)
    } else if n == 1 {
        Some(Action::Drain { millis: 500 })
    } else if n == 2 {
        Some(Action::WaitFor { processes: 2, seconds: 5 })
    } else if n == 3 {
        Some(Action::Detach)
    } else if n == 4 {
        Some(Action::Drain { millis: 300 })
    } else if n == 5 {
        Some(Action::Terminate)
    } else {
        None
    }
}

/// What came of priming.
pub fn prime_detached_session(events: &Vec<Event>) -> (r: Option<String>)
    ensures
        text::opt_text(r) == prime_outcome(plan::events_of(events@)),
{
    assert(plan::events_of(events@).len() == events@.len());
    match plan::last_failure(events) {
        Some(error) => {
            let last: usize = events.len() - 1;
            if last == 0 {
                Some(text::cat("attach: ".to_owned(), error.as_str()))
            } else if last == 2 {
                Some(text::cat(error, " (server plus one pane shell)"))
            } else {
                Some(error)
            }
        },
        None => None,
    }
}

// ---------------------------------------------------------------------------------------------
// Restarting
// ---------------------------------------------------------------------------------------------

pub const RESTART: &'static str = "restart_ready";

pub const RESTART_NOTE: &'static str =
    "Restarting the stopped session with the product's own start command until the pane-listing probe succeeds. Context only: the products restore different state, so see the metadata for whether the previous burst output was visible again.";

pub const RESTORATION_NOTE: &'static str =
    "Stock tmux has no native disk restoration; restarting creates a fresh session. Plugins are outside this baseline.";

/// The steps: restart, attach, see whether the earlier output is back, count the pane shells,
/// detach, and stop.
pub open spec fn restart_plan(expected: Seq<char>, events: Seq<EventModel>) -> Option<ActionModel> {
    let n = events.len() as int;
    if plan::fails(events, 0) {
        None
    } else if n == 0 {
        Some(ActionModel::Restart)
    } else if n == 1 {
        Some(ActionModel::Attach)
    } else if plan::fails(events, 1) {
        if n == 2 {
            Some(ActionModel::Stop)
        } else {
            None
        }
    } else if n == 2 {
        Some(ActionModel::Drain { millis: 1500 })
    } else if n == 3 {
        Some(ActionModel::Look { wanted: expected })
    } else if n == 4 {
        Some(ActionModel::CountShells)
    } else if n == 5 {
        Some(ActionModel::Detach)
    } else if n == 6 {
        Some(ActionModel::Drain { millis: 200 })
    } else if n == 7 {
        Some(ActionModel::Terminate)
    } else if n == 8 {
        Some(ActionModel::Stop)
    } else {
        None
    }
}

pub open spec fn count_in(e: EventModel) -> nat {
    match e {
        EventModel::Count { count } => count as nat,
        _ => 0,
    }
}

pub open spec fn seen_in(e: EventModel) -> bool {
    match e {
        EventModel::Seen { yes } => yes,
        _ => false,
    }
}

/// What the restart brought back, in the order of the names.
pub open spec fn restart_metadata(adapter: Seq<char>, events: Seq<EventModel>) -> Seq<
    (Seq<char>, Seq<char>),
> {
    let native = if adapter == "tmux"@ {
        seq![("native_disk_restoration"@, "not_applicable"@)]
    } else {
        Seq::empty()
    };
    let note = if adapter == "tmux"@ {
        seq![("restoration_note"@, RESTORATION_NOTE@)]
    } else {
        Seq::empty()
    };
    if plan::fails(events, 1) {
        native + seq![("prior_output_visible_after_restart"@, "unknown"@)] + note
    } else {
        native + seq![
            ("pane_shells_after_restart"@, decimal::decimal(count_in(events[4]))),
            (
                "prior_output_visible_after_restart"@,
                if seen_in(events[3]) {
                    "yes"@
                } else {
                    "no"@
                },
            ),
        ] + note
    }
}

/// The index of the last stop.
pub open spec fn restart_stop_at(events: Seq<EventModel>) -> int {
    if plan::fails(events, 1) {
        2
    } else {
        8
    }
}

/// What is written down of the restart.
pub open spec fn restart_outcome(adapter: Seq<char>, events: Seq<EventModel>) -> RecordModel {
    let none = RecordModel::empty();
    if plan::fails(events, 0) {
        let error = plan::error_of(events, 0);
        none.error("restart: "@ + error).failed(RESTART@, error)
    } else {
        let attach = if plan::fails(events, 1) {
            none.error("restart attach: "@ + plan::error_of(events, 1))
        } else {
            none
        };
        let kept = attach.draft(
            plan::measured(
                RESTART@,
                "ms"@,
                MetricDirection::Neutral,
                seq![plan::number_in(events[0])],
                RESTART_NOTE@,
                restart_metadata(adapter, events),
            ),
        );
        let stop = restart_stop_at(events);
        if plan::fails(events, stop) {
            kept.error("restart teardown: "@ + plan::error_of(events, stop))
        } else {
            kept
        }
    }
}

/// The next step of the restart.
pub fn restart_next(expected: &str, events: &Vec<Event>) -> (r: Option<Action>)
    ensures
        plan::opt_action(r) == restart_plan(expected@, plan::events_of(events@)),
{
    let n: usize = events.len();
    assert(plan::events_of(events@).len() == n);
    if plan::failure_at(events, 0).is_some() {
        return None;
    }
    if n == 0 {
        return Some(Action::Restart);
    }
    if n == 1 {
        return Some(Action::Attach);
    }
    if plan::failure_at(events, 1).is_some() {
        if n == 2 {
            return Some(Action::Stop);
        }
        return None;
    }
    if n == 2 {
        Some(Action::Drain { millis: 1500 })
    } else if n == 3 {
        Some(Action::Look { wanted: expected.to_owned() })
    } else if n == 4 {
        Some(Action::CountShells)
    } else if n == 5 {
        Some(Action::Detach)
    } else if n == 6 {
        Some(Action::Drain { millis: 200 })
    } else if n == 7 {
        Some(Action::Terminate)
    } else if n == 8 {
        Some(Action::Stop)
    } else {
        None
    }
}

fn restart_metadata_of(adapter: &str, events: &Vec<Event>) -> (r: TextMap)
    requires
        !plan::fails(plan::events_of(events@), 1) ==> events@.len() > 4,
    ensures
        r@ == restart_metadata(adapter@, plan::events_of(events@)),
{
    let ghost view = plan::events_of(events@);
    let mut data: TextMap = TextMap::new();
    let tmux: bool = text::same(adapter, "tmux");
    proof {
        reveal_strlit("native_disk_restoration");
        reveal_strlit("pane_shells_after_restart");
        reveal_strlit("prior_output_visible_after_restart");
        reveal_strlit("restoration_note");
        text::lemma_before_at("native_disk_restoration"@, "pane_shells_after_restart"@, 0);
        text::lemma_before_at("native_disk_restoration"@, "prior_output_visible_after_restart"@, 0);
        text::lemma_before_at(
            "pane_shells_after_restart"@,
            "prior_output_visible_after_restart"@,
            1,
        );
        text::lemma_before_at("prior_output_visible_after_restart"@, "restoration_note"@, 0);
    }
    if tmux {
        data.append("native_disk_restoration", "not_applicable");
    }
    if plan::failure_at(events, 1).is_some() {
        data.append("prior_output_visible_after_restart", "unknown");
    } else {
        assert(view[3] == events@[3]@);
        assert(view[4] == events@[4]@);
        let shells: usize = match &events[4] {
            Event::Count { count } => *count,
            _ => 0,
        };
        let back: bool = match &events[3] {
            Event::Seen { yes } => *yes,
            _ => false,
        };
        data.append("pane_shells_after_restart", decimal::decimal_text(shells as u64).as_str());
        data.append(
            "prior_output_visible_after_restart",
            if back {
                "yes"
            } else {
                "no"
            },
        );
    }
    if tmux {
        data.append("restoration_note", RESTORATION_NOTE);
    }
    assert(data@ =~= restart_metadata(adapter@, view));
    data
}

/// What is written down of the restart, once no step is left.
pub fn run_restart(adapter: &str, expected: &str, events: &Vec<Event>) -> (r: Record)
    requires
        restart_plan(expected@, plan::events_of(events@)) is None,
    ensures
        r@ == restart_outcome(adapter@, plan::events_of(events@)),
{
    let ghost view = plan::events_of(events@);
    assert(view.len() == events@.len());
    let mut record: Record = Record::new();
    match plan::failure_at(events, 0) {
        Some(error) => {
            record.push_error(text::cat("restart: ".to_owned(), error.as_str()));
            record.push_failed(RESTART, error.as_str());
            return record;
        },
        None => {},
    }
    assert(view[0] == events@[0]@);
    let mut stop: usize = 8;
    match plan::failure_at(events, 1) {
        Some(error) => {
            record.push_error(text::cat("restart attach: ".to_owned(), error.as_str()));
            stop = 2;
        },
        None => {},
    }
    record.push_draft(
        plan::measured_draft(
            RESTART,
            "ms",
            MetricDirection::Neutral,
            plan::one_sample(plan::number(&events[0])),
            RESTART_NOTE,
            restart_metadata_of(adapter, events),
        ),
    );
    match plan::failure_at(events, stop) {
        Some(error) => {
            record.push_error(text::cat("restart teardown: ".to_owned(), error.as_str()));
        },
        None => {},
    }
    record
}

// ---------------------------------------------------------------------------------------------
// Suites in a fresh session
// ---------------------------------------------------------------------------------------------

pub const PANES_SHUTDOWN_NOTE: &'static str =
    "Shutdown of the fresh multi-pane session after scaling, resource sampling, and pane closing.";

/// The shutdown metric, or the error.
pub open spec fn with_shutdown(
    r: RecordModel,
    e: EventModel,
    name: Seq<char>,
    note: Seq<char>,
    prefix: Seq<char>,
) -> RecordModel {
    match e {
        EventModel::Failed { error } => r.error(prefix + error),
        _ => r.draft(
            plan::measured(
                name,
                "ms"@,
                MetricDirection::Lower,
                seq![plan::number_in(e)],
                note,
                plan::no_data(),
            ),
        ),
    }
}

fn add_shutdown(record: &mut Record, e: &Event, name: &str, note: &str, prefix: &str)
    ensures
        final(record)@ == with_shutdown(old(record)@, e@, name@, note@, prefix@),
{
    match e {
        Event::Failed { error } => {
            record.push_error(text::cat(prefix.to_owned(), error.as_str()));
        },
        _ => {
            record.push_draft(
                plan::measured_draft(
                    name,
                    "ms",
                    MetricDirection::Lower,
                    plan::one_sample(plan::number(e)),
                    note,
                    plan::no_metadata(),
                ),
            );
        },
    }
}

/// Start, attach, draw, scale the panes, detach, stop.
pub open spec fn multipane_suite_plan(sequence: usize, events: Seq<EventModel>) -> Option<
    ActionModel,
> {
    let n = events.len() as int;
    if plan::fails(events, 0) {
        None
    } else if n == 0 {
        Some(ActionModel::Start { sequence })
    } else if n == 1 {
        Some(ActionModel::Attach)
    } else if plan::fails(events, 1) {
        if n == 2 {
            Some(ActionModel::Stop)
        } else {
            None
        }
    } else if n == 2 {
        Some(ActionModel::Drain { millis: 500 })
    } else if n == 3 {
        Some(ActionModel::RunMultipane)
    } else if n == 4 {
        Some(ActionModel::Detach)
    } else if n == 5 {
        Some(ActionModel::Terminate)
    } else if n == 6 {
        Some(ActionModel::Stop)
    } else {
        None
    }
}

pub open spec fn multipane_suite_outcome(events: Seq<EventModel>) -> RecordModel {
    let none = RecordModel::empty();
    if plan::fails(events, 0) {
        none.error("multi-pane suite startup: "@ + plan::error_of(events, 0))
    } else if plan::fails(events, 1) {
        none.error("multi-pane suite attach: "@ + plan::error_of(events, 1))
    } else {
        with_shutdown(
            record_in(events[3]),
            events[6],
            "multipane_suite_shutdown"@,
            PANES_SHUTDOWN_NOTE@,
            "multi-pane suite teardown: "@,
        )
    }
}

/// The next step of the pane scaling suite.
pub fn multipane_suite_next(sequence: usize, events: &Vec<Event>) -> (r: Option<Action>)
    ensures
        plan::opt_action(r) == multipane_suite_plan(sequence, plan::events_of(events@)),
{
    let n: usize = events.len();
    assert(plan::events_of(events@).len() == n);
    if plan::failure_at(events, 0).is_some() {
        return None;
    }
    if n == 0 {
        return Some(Action::Start { sequence });
    }
    if n == 1 {
        return Some(Action::Attach);
    }
    if plan::failure_at(events, 1).is_some() {
        if n == 2 {
            return Some(Action::Stop);
        }
        return None;
    }
    if n == 2 {
        Some(Action::Drain { millis: 500 })
    } else if n == 3 {
        Some(Action::RunMultipane)
    } else if n == 4 {
        Some(Action::Detach)
    } else if n == 5 {
        Some(Action::Terminate)
    } else if n == 6 {
        Some(Action::Stop)
    } else {
        None
    }
}

/// What is written down of the pane scaling suite, once no step is left.
pub fn run_fresh_multipane_suite(sequence: usize, events: &Vec<Event>) -> (r: Record)
    requires
        multipane_suite_plan(sequence, plan::events_of(events@)) is None,
    ensures
        r@ == multipane_suite_outcome(plan::events_of(events@)),
{
    let ghost view = plan::events_of(events@);
    assert(view.len() == events@.len());
    let mut record: Record = Record::new();
    match plan::failure_at(events, 0) {
        Some(error) => {
            record.push_error(text::cat("multi-pane suite startup: ".to_owned(), error.as_str()));
            return record;
        },
        None => {},
    }
    match plan::failure_at(events, 1) {
        Some(error) => {
            record.push_error(text::cat("multi-pane suite attach: ".to_owned(), error.as_str()));
            return record;
        },
        None => {},
    }
    assert(view[3] == events@[3]@);
    assert(view[6] == events@[6]@);
    let mut record: Record = record_of(&events[3]);
    add_shutdown(
        &mut record,
        &events[6],
        "multipane_suite_shutdown",
        PANES_SHUTDOWN_NOTE,
        "multi-pane suite teardown: ",
    );
    record
}

/// Start, attach, draw, wait for the first pane, run the workload with several clients, detach,
/// stop. Nothing where the profile has no extra clients.
pub open spec fn multiclient_suite_plan(
    p: ProfileRecordModel,
    sequence: usize,
    events: Seq<EventModel>,
) -> Option<ActionModel> {
    let n = events.len() as int;
    if p.extra_clients == 0 || plan::fails(events, 0) {
        None
    } else if n == 0 {
        Some(ActionModel::Start { sequence })
    } else if n == 1 {
        Some(ActionModel::Attach)
    } else if plan::fails(events, 1) {
        if n == 2 {
            Some(ActionModel::Stop)
        } else {
            None
        }
    } else if n == 2 {
        Some(ActionModel::Drain { millis: 500 })
    } else if n == 3 {
        Some(ActionModel::WaitFor { processes: 2, seconds: 5 })
    } else if plan::fails(events, 3) {
        if n == 4 {
            Some(ActionModel::Stop)
        } else {
            None
        }
    } else if n == 4 {
        Some(ActionModel::RunMulticlient)
    } else if n == 5 {
        Some(ActionModel::Detach)
    } else if n == 6 {
        Some(ActionModel::Terminate)
    } else if n == 7 {
        Some(ActionModel::Stop)
    } else {
        None
    }
}

pub open spec fn multiclient_suite_outcome(p: ProfileRecordModel, events: Seq<EventModel>) -> RecordModel {
    let none = RecordModel::empty();
    if p.extra_clients == 0 {
        none
    } else if plan::fails(events, 0) {
        none.error("multi-client suite startup: "@ + plan::error_of(events, 0))
    } else if plan::fails(events, 1) {
        none.error("multi-client suite attach: "@ + plan::error_of(events, 1))
    } else if plan::fails(events, 3) {
        none.error("multi-client suite first pane: "@ + plan::error_of(events, 3))
    } else if plan::fails(events, 7) {
        record_in(events[4]).error("multi-client suite teardown: "@ + plan::error_of(events, 7))
    } else {
        record_in(events[4])
    }
}

/// The next step of the suite with several clients.
pub fn multiclient_suite_next(p: &ProfileRecord, sequence: usize, events: &Vec<Event>) -> (r:
    Option<Action>)
    ensures
        plan::opt_action(r) == multiclient_suite_plan(p@, sequence, plan::events_of(events@)),
{
    let n: usize = events.len();
    assert(plan::events_of(events@).len() == n);
    if p.extra_clients == 0 || plan::failure_at(events, 0).is_some() {
        return None;
    }
    if n == 0 {
        return Some(Action::Start { sequence });
    }
    if n == 1 {
        return Some(Action::Attach);
    }
    if plan::failure_at(events, 1).is_some() {
        if n == 2 {
            return Some(Action::Stop);
        }
        return None;
    }
    if n == 2 {
        return Some(Action::Drain { millis: 500 });
    }
    if n == 3 {
        return Some(Action::WaitFor { processes: 2, seconds: 5 });
    }
    if plan::failure_at(events, 3).is_some() {
        if n == 4 {
            return Some(Action::Stop);
        }
        return None;
    }
    if n == 4 {
        Some(Action::RunMulticlient)
    } else if n == 5 {
        Some(Action::Detach)
    } else if n == 6 {
        Some(Action::Terminate)
    } else if n == 7 {
        Some(Action::Stop)
    } else {
        None
    }
}

/// What is written down of the suite with several clients, once no step is left.
pub fn run_fresh_multiclient_suite(p: &ProfileRecord, sequence: usize, events: &Vec<Event>) -> (r:
    Record)
    requires
        multiclient_suite_plan(p@, sequence, plan::events_of(events@)) is None,
    ensures
        r@ == multiclient_suite_outcome(p@, plan::events_of(events@)),
{
    let ghost view = plan::events_of(events@);
    assert(view.len() == events@.len());
    let mut record: Record = Record::new();
    if p.extra_clients == 0 {
        return record;
    }
    match plan::failure_at(events, 0) {
        Some(error) => {
            record.push_error(
                text::cat("multi-client suite startup: ".to_owned(), error.as_str()),
            );
            return record;
        },
        None => {},
    }
    match plan::failure_at(events, 1) {
        Some(error) => {
            record.push_error(
                text::cat("multi-client suite attach: ".to_owned(), error.as_str()),
            );
            return record;
        },
        None => {},
    }
    match plan::failure_at(events, 3) {
        Some(error) => {
            record.push_error(
                text::cat("multi-client suite first pane: ".to_owned(), error.as_str()),
            );
            return record;
        },
        None => {},
    }
    assert(view[4] == events@[4]@);
    let mut record: Record = record_of(&events[4]);
    match plan::failure_at(events, 7) {
        Some(error) => {
            record.push_error(
                text::cat("multi-client suite teardown: ".to_owned(), error.as_str()),
            );
        },
        None => {},
    }
    record
}

// ---------------------------------------------------------------------------------------------
// The live suite
// ---------------------------------------------------------------------------------------------

pub const DAEMON_NOTE: &'static str =
    "Detached server plus its one pane shell after a single attach/detach; no app client is attached.";

pub const FOREGROUND_NOTE: &'static str =
    "Server, attached client, pane shells, and their descendants at a stable foreground screen.";

pub const COMMAND_NOTE: &'static str =
    "Fresh CLI process listing the session's panes through the product socket.";

pub const VISIBLE_NOTE: &'static str =
    "PTY input write through an identical shell printf (including viewport clear/home), server parse/render, client render, and visible marker bytes. Every trial is oracle-checked: the new marker must be on the modelled screen and the previous marker must be gone.";

pub const STATE_NOTE: &'static str =
    "All files in the isolated HOME/XDG benchmark tree after workloads; a context metric because products persist different semantics.";

pub const SHUTDOWN_NOTE: &'static str =
    "Shutdown after the one-pane latency, output, and resize workloads.";

/// The text that ends the last burst.
pub open spec fn last_burst(p: ProfileRecordModel) -> Seq<char> {
    workloads::end_marker(
        if p.output_iterations > 0 {
            (p.output_iterations - 1) as nat
        } else {
            0
        },
    )
}

/// The steps of the suite, where none of those that end it fails.
pub open spec fn live_action(p: ProfileRecordModel, sequence: usize, n: int) -> Option<ActionModel> {
    if n == 0 {
        Some(ActionModel::Start { sequence })
    } else if n == 1 {
        Some(ActionModel::Prime)
    } else if n == 2 || n == 8 {
        Some(ActionModel::Settle)
    } else if n == 3 {
        Some(ActionModel::SampleServer)
    } else if n == 4 {
        Some(ActionModel::Commands { count: p.command_iterations })
    } else if n == 5 {
        Some(ActionModel::Attach)
    } else if n == 6 {
        Some(ActionModel::Drain { millis: 500 })
    } else if n == 7 {
        Some(ActionModel::Latency)
    } else if n == 9 {
        Some(ActionModel::SampleClients)
    } else if n == 10 {
        Some(ActionModel::RunOutput)
    } else if n == 11 {
        Some(ActionModel::RunStorm)
    } else if n == 12 {
        Some(ActionModel::StateBytes)
    } else if n == 13 {
        Some(ActionModel::Detach)
    } else if n == 14 {
        Some(ActionModel::Terminate)
    } else if n == 15 {
        Some(ActionModel::Stop)
    } else if n == 16 {
        Some(ActionModel::RunRestart { expected: last_burst(p) })
    } else if n == 17 {
        Some(ActionModel::RunMultipaneSuite { sequence: (sequence + 1) as usize })
    } else if n == 18 {
        Some(ActionModel::RunMulticlientSuite { sequence: (sequence + 2) as usize })
    } else {
        None
    }
}

/// A session that does not start ends the suite; one that cannot be primed or attached to is
/// stopped first.
pub open spec fn live_plan(p: ProfileRecordModel, sequence: usize, events: Seq<EventModel>) -> Option<
    ActionModel,
> {
    let n = events.len() as int;
    if plan::fails(events, 0) {
        None
    } else if plan::fails(events, 1) {
        if n == 2 {
            Some(ActionModel::Stop)
        } else {
            None
        }
    } else if plan::fails(events, 5) {
        if n == 6 {
            Some(ActionModel::Stop)
        } else {
            None
        }
    } else {
        live_action(p, sequence, n)
    }
}

/// The number of events that something is written down of.
pub open spec fn live_upto(events: Seq<EventModel>) -> int {
    if plan::fails(events, 0) {
        1
    } else if plan::fails(events, 1) {
        2
    } else if plan::fails(events, 5) {
        6
    } else {
        19
    }
}

/// The resource metrics of a window, or that they failed.
pub open spec fn window_piece(e: EventModel, name: Seq<char>, note: Seq<char>) -> RecordModel {
    let none = RecordModel::empty();
    match e {
        EventModel::Failed { error } => none.failed(name, error),
        _ => plan::with_resources(none, name, panes::resources_in(e), note),
    }
}

/// What is written down of one step.
pub open spec fn live_piece(n: int, e: EventModel) -> RecordModel {
    let none = RecordModel::empty();
    let error = match e {
        EventModel::Failed { error } => error,
        _ => ""@,
    };
    let failed = e is Failed;
    if n == 0 && failed {
        none.error("live suite startup: "@ + error)
    } else if n == 1 && failed {
        none.error("daemon idle priming: "@ + error)
    } else if n == 3 {
        window_piece(e, "daemon_idle"@, DAEMON_NOTE@)
    } else if n == 4 {
        if failed {
            none.failed("control_command_latency"@, error)
        } else {
            none.draft(
                plan::measured(
                    "control_command_latency"@,
                    "ms"@,
                    MetricDirection::Lower,
                    plan::series_in(e),
                    COMMAND_NOTE@,
                    plan::no_data(),
                ),
            )
        }
    } else if n == 5 && failed {
        none.error("attach: "@ + error)
    } else if n == 6 && failed {
        none.error("initial client drain: "@ + error)
    } else if n == 7 {
        if failed {
            none.error("terminal latency: "@ + error).failed("terminal_input_to_visible"@, error)
        } else {
            none.draft(
                plan::measured(
                    "terminal_input_to_visible"@,
                    "ms"@,
                    MetricDirection::Lower,
                    plan::series_in(e),
                    VISIBLE_NOTE@,
                    plan::no_data(),
                ),
            )
        }
    } else if n == 9 {
        window_piece(e, "foreground_idle"@, FOREGROUND_NOTE@)
    } else if n == 12 {
        none.draft(
            plan::measured(
                "isolated_state_size"@,
                "bytes"@,
                MetricDirection::Neutral,
                seq![plan::number_in(e)],
                STATE_NOTE@,
                plan::no_data(),
            ),
        )
    } else if n == 15 {
        with_shutdown(
            none,
            e,
            "live_suite_shutdown"@,
            SHUTDOWN_NOTE@,
            "live suite teardown: "@,
        )
    } else if n == 10 || n == 11 || n >= 16 {
        record_in(e)
    } else {
        none
    }
}

/// What is written down of the first `upto` steps, in their order.
pub open spec fn live_record(events: Seq<EventModel>, upto: int) -> RecordModel
    decreases upto,
{
    if upto <= 0 {
        RecordModel::empty()
    } else {
        live_record(events, upto - 1).then_record(live_piece(upto - 1, events[upto - 1]))
    }
}

/// What is written down of the suite.
pub open spec fn live_outcome(events: Seq<EventModel>) -> RecordModel {
    live_record(events, live_upto(events))
}

fn last_burst_marker(p: &ProfileRecord) -> (r: String)
    ensures
        r@ == last_burst(p@),
{
    let last: usize = if p.output_iterations > 0 {
        p.output_iterations - 1
    } else {
        0
    };
    workloads::output_marker(last)
}

fn live_step(p: &ProfileRecord, sequence: usize, n: usize) -> (r: Option<Action>)
    requires
        sequence + 2 <= usize::MAX,
    ensures
        plan::opt_action(r) == live_action(p@, sequence, n as int),
{
    if n == 0 {
        Some(Action::Start { sequence })
    } else if n == 1 {
        Some(Action::Prime)
    } else if n == 2 || n == 8 {
        Some(Action::Settle)
    } else if n == 3 {
        Some(Action::SampleServer)
    } else if n == 4 {
        Some(Action::Commands { count: p.command_iterations })
    } else if n == 5 {
        Some(Action::Attach)
    } else if n == 6 {
        Some(Action::Drain { millis: 500 })
    } else if n == 7 {
        Some(Action::Latency)
    } else if n == 9 {
        Some(Action::SampleClients)
    } else if n == 10 {
        Some(Action::RunOutput)
    } else if n == 11 {
        Some(Action::RunStorm)
    } else if n == 12 {
        Some(Action::StateBytes)
    } else if n == 13 {
        Some(Action::Detach)
    } else if n == 14 {
        Some(Action::Terminate)
    } else if n == 15 {
        Some(Action::Stop)
    } else if n == 16 {
        Some(Action::RunRestart { expected: last_burst_marker(p) })
    } else if n == 17 {
        Some(Action::RunMultipaneSuite { sequence: sequence + 1 })
    } else if n == 18 {
        Some(Action::RunMulticlientSuite { sequence: sequence + 2 })
    } else {
        None
    }
}

/// The next step of the live suite.
pub fn live_next(p: &ProfileRecord, sequence: usize, events: &Vec<Event>) -> (r: Option<Action>)
    requires
        sequence + 2 <= usize::MAX,
    ensures
        plan::opt_action(r) == live_plan(p@, sequence, plan::events_of(events@)),
{
    let n: usize = events.len();
    assert(plan::events_of(events@).len() == n);
    if plan::failure_at(events, 0).is_some() {
        return None;
    }
    if plan::failure_at(events, 1).is_some() {
        if n == 2 {
            return Some(Action::Stop);
        }
        return None;
    }
    if plan::failure_at(events, 5).is_some() {
        if n == 6 {
            return Some(Action::Stop);
        }
        return None;
    }
    live_step(p, sequence, n)
}

fn add_window(e: &Event, name: &str, note: &str) -> (r: Record)
    ensures
        r@ == window_piece(e@, name@, note@),
{
    let mut record: Record = Record::new();
    match e {
        Event::Failed { error } => {
            record.push_failed(name, error.as_str());
        },
        _ => {
            let s: plan::Resources = panes::resources_of(e);
            plan::add_resource_metrics(&mut record, name, &s, note);
        },
    }
    record
}

fn error_piece(prefix: &str, e: &Event) -> (r: Record)
    ensures
        r@ == match e@ {
            EventModel::Failed { error } => RecordModel::empty().error(prefix@ + error),
            _ => RecordModel::empty(),
        },
{
    let mut record: Record = Record::new();
    match e {
        Event::Failed { error } => {
            record.push_error(text::cat(prefix.to_owned(), error.as_str()));
        },
        _ => {},
    }
    record
}

fn series_piece(name: &str, e: &Event, note: &str) -> (r: Record)
    ensures
        r@ == match e@ {
            EventModel::Failed { error } => RecordModel::empty().failed(name@, error),
            _ => RecordModel::empty().draft(
                plan::measured(
                    name@,
                    "ms"@,
                    MetricDirection::Lower,
                    plan::series_in(e@),
                    note@,
                    plan::no_data(),
                ),
            ),
        },
{
    let mut record: Record = Record::new();
    match e {
        Event::Failed { error } => {
            record.push_failed(name, error.as_str());
        },
        _ => {
            record.push_draft(
                plan::measured_draft(
                    name,
                    "ms",
                    MetricDirection::Lower,
                    plan::series(e),
                    note,
                    plan::no_metadata(),
                ),
            );
        },
    }
    record
}

fn live_piece_of(n: usize, e: &Event) -> (r: Record)
    ensures
        r@ == live_piece(n as int, e@),
{
    if n == 0 {
        error_piece("live suite startup: ", e)
    } else if n == 1 {
        error_piece("daemon idle priming: ", e)
    } else if n == 3 {
        add_window(e, "daemon_idle", DAEMON_NOTE)
    } else if n == 4 {
        series_piece("control_command_latency", e, COMMAND_NOTE)
    } else if n == 5 {
        error_piece("attach: ", e)
    } else if n == 6 {
        error_piece("initial client drain: ", e)
    } else if n == 7 {
        match e {
            Event::Failed { error } => {
                let mut record: Record = Record::new();
                record.push_error(text::cat("terminal latency: ".to_owned(), error.as_str()));
                record.push_failed("terminal_input_to_visible", error.as_str());
                record
            },
            _ => series_piece("terminal_input_to_visible", e, VISIBLE_NOTE),
        }
    } else if n == 9 {
        add_window(e, "foreground_idle", FOREGROUND_NOTE)
    } else if n == 12 {
        let mut record: Record = Record::new();
        record.push_draft(
            plan::measured_draft(
                "isolated_state_size",
                "bytes",
                MetricDirection::Neutral,
                plan::one_sample(plan::number(e)),
                STATE_NOTE,
                plan::no_metadata(),
            ),
        );
        record
    } else if n == 15 {
        let mut record: Record = Record::new();
        add_shutdown(
            &mut record,
            e,
            "live_suite_shutdown",
            SHUTDOWN_NOTE,
            "live suite teardown: ",
        );
        record
    } else if n == 10 || n == 11 || n >= 16 {
        record_of(e)
    } else {
        Record::new()
    }
}

/// What is written down of the live suite, once no step is left.
pub fn run_live_suite(p: &ProfileRecord, sequence: usize, events: &Vec<Event>) -> (r: Record)
    requires
        sequence + 2 <= usize::MAX,
        live_plan(p@, sequence, plan::events_of(events@)) is None,
    ensures
        r@ == live_outcome(plan::events_of(events@)),
{
    let ghost view = plan::events_of(events@);
    assert(view.len() == events@.len());
    let upto: usize = if plan::failure_at(events, 0).is_some() {
        1
    } else if plan::failure_at(events, 1).is_some() {
        2
    } else if plan::failure_at(events, 5).is_some() {
        6
    } else {
        19
    };
    let mut record: Record = Record::new();
    let mut i: usize = 0;
    while i < upto
        invariant
            i <= upto <= events@.len(),
            view == plan::events_of(events@),
            record@ == live_record(view, i as int),
        decreases upto - i,
    {
        assert(view[i as int] == events@[i as int]@);
        record.append(live_piece_of(i, &events[i]));
        i = i + 1;
    }
    record
}

/// A session that was started is stopped, whatever fails after that: the suite never ends on a
/// running server.
pub proof fn law_started_sessions_are_stopped(
    p: ProfileRecordModel,
    sequence: usize,
    events: Seq<EventModel>,
)
    requires
        events.len() > 0,
        !plan::fails(events, 0),
        live_plan(p, sequence, events) is None,
        forall|n: int|
            0 <= n < events.len() ==> #[trigger] live_plan(p, sequence, events.take(n)) is Some,
    ensures
        exists|n: int|
            0 < n < events.len() && #[trigger] live_plan(p, sequence, events.take(n)) == Some(
                ActionModel::Stop,
            ),
{
    let n: int = if plan::fails(events, 1) {
        2
    } else if plan::fails(events, 5) {
        6
    } else {
        15
    };
    let sofar = events.take(n);
    assert(n < events.len());
    assert(sofar[0] == events[0]);
    assert(sofar[1] == events[1]);
    if n > 5 {
        assert(sofar[5] == events[5]);
    }
    assert(live_plan(p, sequence, sofar) == Some(ActionModel::Stop));
}

/// A fresh session that was started for the panes is stopped, whatever fails after that.
pub proof fn law_pane_sessions_are_stopped(sequence: usize, events: Seq<EventModel>)
    requires
        events.len() > 0,
        !plan::fails(events, 0),
        multipane_suite_plan(sequence, events) is None,
        forall|n: int|
            0 <= n < events.len() ==> #[trigger] multipane_suite_plan(
                sequence,
                events.take(n),
            ) is Some,
    ensures
        exists|n: int|
            0 < n < events.len() && #[trigger] multipane_suite_plan(sequence, events.take(n))
                == Some(ActionModel::Stop),
{
    let n: int = if plan::fails(events, 1) {
        2
    } else {
        6
    };
    let sofar = events.take(n);
    assert(n < events.len());
    assert(sofar[0] == events[0]);
    assert(sofar[1] == events[1]);
    assert(multipane_suite_plan(sequence, sofar) == Some(ActionModel::Stop));
}

/// A fresh session that was started for several clients is stopped, whatever fails after that.
pub proof fn law_client_sessions_are_stopped(
    p: ProfileRecordModel,
    sequence: usize,
    events: Seq<EventModel>,
)
    requires
        events.len() > 0,
        !plan::fails(events, 0),
        multiclient_suite_plan(p, sequence, events) is None,
        forall|n: int|
            0 <= n < events.len() ==> #[trigger] multiclient_suite_plan(
                p,
                sequence,
                events.take(n),
            ) is Some,
    ensures
        exists|n: int|
            0 < n < events.len() && #[trigger] multiclient_suite_plan(p, sequence, events.take(n))
                == Some(ActionModel::Stop),
{
    assert(multiclient_suite_plan(p, sequence, events.take(0)) is Some);
    let n: int = if plan::fails(events, 1) {
        2
    } else if plan::fails(events, 3) {
        4
    } else {
        7
    };
    let sofar = events.take(n);
    assert(n < events.len());
    assert(sofar[0] == events[0]);
    assert(sofar[1] == events[1]);
    if n > 3 {
        assert(sofar[3] == events[3]);
    }
    assert(multiclient_suite_plan(p, sequence, sofar) == Some(ActionModel::Stop));
}

/// Every profile can be run on every machine: its workloads are within the limits of their steps,
/// and the sizes of its resize storm are distinct and none of them is the final one.
pub proof fn law_profiles_can_be_run(name: Seq<char>, i: nat, j: nat)
    requires
        config::profiled(name) is Some,
        i < j < config::profiled(name).unwrap().resize_iterations,
    ensures
        ({
            let p = config::profiled(name).unwrap();
            &&& p.output_lines * workloads::LINE_BYTES <= u32::MAX
            &&& p.output_lines * p.output_iterations <= u32::MAX
            &&& 20 * p.extra_clients <= u16::MAX
            &&& p.pane_count < u16::MAX
            &&& p.startup_iterations < u16::MAX
            &&& workloads::storm_size(p, i) != workloads::storm_size(p, j)
            &&& workloads::storm_size(p, i) != (p.terminal_cols, p.terminal_rows)
        }),
{
    let p = config::profiled(name).unwrap();
    workloads::law_storm_sizes_are_distinct(p, i, j);
    workloads::law_storms_leave_the_final_size(p, i);
}

} // verus!
