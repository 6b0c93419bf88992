//! Several clients on one session: attaching them, timing the first, and checking the others.

use vstd::prelude::*;
use crate::decimal;
use crate::measure::Real;
use crate::model::{MetricDirection, ProfileRecord, ProfileRecordModel};
use crate::oracle;
use crate::panes;
use crate::plan;
use crate::plan::{Action, ActionModel, Event, EventModel, Record, RecordModel};
use crate::text;
use crate::workloads;

verus! {

// ---------------------------------------------------------------------------------------------
// Checking and detaching the extra clients
// ---------------------------------------------------------------------------------------------

/// Each extra client is drained and held against the marker, up to the first that fails.
pub open spec fn check_plan(count: usize, marker: Seq<char>, events: Seq<EventModel>) -> Option<
    ActionModel,
> {
    let n = events.len() as int;
    if n % 2 == 0 && plan::fails(events, n - 1) || n >= 2 * count {
        None
    } else if n % 2 == 0 {
        Some(ActionModel::DrainExtra { index: (n / 2) as usize, millis: 200 })
    } else {
        Some(ActionModel::CheckExtra { index: (n / 2) as usize, marker })
    }
}

/// Why a client does not show the marker.
pub open spec fn check_outcome(events: Seq<EventModel>) -> Option<Seq<char>> {
    let last = events.len() - 1;
    if events.len() as int % 2 == 0 && plan::fails(events, last) {
        Some(plan::error_of(events, last))
    } else {
        None
    }
}

/// The next step of checking the extra clients.
pub fn check_next(count: usize, marker: &str, events: &Vec<Event>) -> (r: Option<Action>)
    ensures
        plan::opt_action(r) == check_plan(count, marker@, plan::events_of(events@)),
{
    let n: usize = events.len();
    assert(plan::events_of(events@).len() == n);
    if n % 2 == 0 && plan::last_failure(events).is_some() {
        return None;
    }
    if n / 2 >= count {
        return None;
    }
    if n % 2 == 0 {
        Some(Action::DrainExtra { index: n / 2, millis: 200 })
    } else {
        Some(Action::CheckExtra { index: n / 2, marker: marker.to_owned() })
    }
}

/// What came of checking the extra clients.
pub fn check_extras(events: &Vec<Event>) -> (r: Option<String>)
    ensures
        text::opt_text(r) == check_outcome(plan::events_of(events@)),
{
    assert(plan::events_of(events@).len() == events@.len());
    if events.len() % 2 == 0 {
        plan::last_failure(events)
    } else {
        None
    }
}

/// Each extra client is detached, drained and ended.
pub open spec fn detach_plan(count: usize, events: Seq<EventModel>) -> Option<ActionModel> {
    let n = events.len() as int;
    let index = (n / 3) as usize;
    if n >= 3 * count {
        None
    } else if n % 3 == 0 {
        Some(ActionModel::DetachExtra { index })
    } else if n % 3 == 1 {
        Some(ActionModel::DrainExtra { index, millis: 200 })
    } else {
        Some(ActionModel::TerminateExtra { index })
    }
}

/// The next step of detaching the extra clients.
pub fn detach_all(count: usize, events: &Vec<Event>) -> (r: Option<Action>)
    ensures
        plan::opt_action(r) == detach_plan(count, plan::events_of(events@)),
{
    let n: usize = events.len();
    assert(plan::events_of(events@).len() == n);
    let index: usize = n / 3;
    if index >= count {
        None
    } else if n % 3 == 0 {
        Some(Action::DetachExtra { index })
    } else if n % 3 == 1 {
        Some(Action::DrainExtra { index, millis: 200 })
    } else {
        Some(Action::TerminateExtra { index })
    }
}

// ---------------------------------------------------------------------------------------------
// The workload
// ---------------------------------------------------------------------------------------------

pub const CLIENTS_IDLE_NOTE: &'static str =
    "Server, every attached client, pane shells, and descendants while several clients stay attached to one session.";

/// The window of an extra client: each is smaller than the one before, down to a floor.
pub open spec fn extra_size(p: ProfileRecordModel, index: int) -> (u16, u16) {
    (
        workloads::shrunk(p.terminal_cols, 20 * (index + 1), 60),
        workloads::shrunk(p.terminal_rows, 6 * (index + 1), 16),
    )
}

/// The window of an extra client.
pub fn extra_geometry(p: &ProfileRecord, index: usize) -> (r: (u16, u16))
    requires
        20 * (index + 1) <= u16::MAX,
    ensures
        r == extra_size(p@, index as int),
{
    let step: u16 = (index + 1) as u16;
    (
        workloads::shrink(p.terminal_cols, 20 * step, 60),
        workloads::shrink(p.terminal_rows, 6 * step, 16),
    )
}

/// Whether an extra client did not attach.
pub open spec fn unattached(p: ProfileRecordModel, events: Seq<EventModel>, k: int) -> bool {
    0 <= k < p.extra_clients && plan::fails(events, k)
}

/// The number of attach steps that were taken: all of them, or up to the first failure.
pub open spec fn attached(p: ProfileRecordModel, events: Seq<EventModel>, from: int) -> int
    decreases p.extra_clients - from,
{
    if from >= p.extra_clients || from >= events.len() || plan::fails(events, from) {
        from
    } else {
        attached(p, events, from + 1)
    }
}

/// The extra client that did not attach.
pub open spec fn attach_failure(p: ProfileRecordModel, events: Seq<EventModel>) -> Option<int> {
    let k = attached(p, events, 0);
    if unattached(p, events, k) {
        Some(k)
    } else {
        None
    }
}

/// The index of the latency trials.
pub open spec fn latency_at(p: ProfileRecordModel) -> int {
    2 * p.extra_clients + 1
}

/// The index of the first step behind trials and checks. Clients are checked only where the
/// trials succeeded.
pub open spec fn judged(p: ProfileRecordModel, events: Seq<EventModel>) -> int {
    latency_at(p) + if plan::fails(events, latency_at(p)) {
        1int
    } else {
        2int
    }
}

/// The marker of the last latency trial.
pub open spec fn final_marker(p: ProfileRecordModel) -> Seq<char> {
    oracle::marker(
        if p.latency_iterations > 0 {
            (p.latency_iterations - 1) as nat
        } else {
            0
        },
    )
}

/// The steps: attach the extra clients, let every client draw, run the trials on the first, check
/// the others, sample the idle session, and detach the extra clients.
pub open spec fn multiclient_plan(p: ProfileRecordModel, events: Seq<EventModel>) -> Option<
    ActionModel,
> {
    let n = events.len() as int;
    let k = p.extra_clients as int;
    if k == 0 {
        None
    } else if let Some(i) = attach_failure(p, events) {
        if n == i + 1 {
            Some(ActionModel::DetachExtras { count: i as usize })
        } else {
            None
        }
    } else if n < k {
        let (cols, rows) = extra_size(p, n);
        Some(ActionModel::AttachExtra { cols, rows })
    } else if n < 2 * k {
        Some(ActionModel::DrainExtra { index: (n - k) as usize, millis: 500 })
    } else if n == 2 * k {
        Some(ActionModel::Drain { millis: 500 })
    } else if n == latency_at(p) {
        Some(ActionModel::Latency)
    } else if n < judged(p, events) {
        Some(
            ActionModel::CheckExtras { count: p.extra_clients, marker: final_marker(p) },
        )
    } else if n == judged(p, events) {
        Some(ActionModel::Settle)
    } else if n == judged(p, events) + 1 {
        Some(ActionModel::SampleClients)
    } else if n == judged(p, events) + 2 {
        Some(ActionModel::DetachExtras { count: p.extra_clients })
    } else if n == judged(p, events) + 3 {
        Some(ActionModel::Drain { millis: 300 })
    } else {
        None
    }
}

pub open spec fn clients_prefix(p: ProfileRecordModel) -> Seq<char> {
    "multiclient_"@ + decimal::decimal((p.extra_clients + 1) as nat)
}

pub open spec fn visible_name(p: ProfileRecordModel) -> Seq<char> {
    clients_prefix(p) + "_input_to_visible"@
}

pub open spec fn clients_idle_name(p: ProfileRecordModel) -> Seq<char> {
    clients_prefix(p) + "_idle"@
}

pub open spec fn visible_note(p: ProfileRecordModel) -> Seq<char> {
    "Input-to-visible latency on the primary client while "@ + decimal::decimal(
        p.extra_clients as nat,
    )
        + " additional clients of smaller geometry are attached; the final marker must be visible on every client."@
}

/// What is written down of the trials: measured only where every client showed the marker.
pub open spec fn visible_record(p: ProfileRecordModel, events: Seq<EventModel>) -> RecordModel {
    let none = RecordModel::empty();
    let at = latency_at(p);
    if plan::fails(events, at) {
        let error = plan::error_of(events, at);
        none.error("multi-client latency: "@ + error).failed(visible_name(p), error)
    } else if plan::fails(events, at + 1) {
        let error = plan::error_of(events, at + 1);
        none.error("multi-client: "@ + error).failed(visible_name(p), error)
    } else {
        none.draft(
            plan::measured(
                visible_name(p),
                "ms"@,
                MetricDirection::Lower,
                plan::series_in(events[at]),
                visible_note(p),
                plan::no_data(),
            ),
        )
    }
}

/// What is written down of the workload.
pub open spec fn multiclient_outcome(p: ProfileRecordModel, events: Seq<EventModel>) -> RecordModel {
    let none = RecordModel::empty();
    if p.extra_clients == 0 {
        none
    } else if let Some(i) = attach_failure(p, events) {
        let number = decimal::decimal((i + 1) as nat);
        let error = plan::error_of(events, i);
        none.error("multi-client attach "@ + number + ": "@ + error).failed(
            visible_name(p),
            "extra client "@ + number + " did not attach: "@ + error,
        )
    } else {
        let at = judged(p, events) + 1;
        let seen = visible_record(p, events);
        if plan::fails(events, at) {
            seen.failed(clients_idle_name(p), plan::error_of(events, at))
        } else {
            plan::with_resources(
                seen,
                clients_idle_name(p),
                panes::resources_in(events[at]),
                CLIENTS_IDLE_NOTE@,
            )
        }
    }
}

fn count_attached(p: &ProfileRecord, events: &Vec<Event>) -> (r: usize)
    ensures
        r == attached(p@, plan::events_of(events@), 0),
        r <= p.extra_clients,
{
    let ghost view = plan::events_of(events@);
    assert(view.len() == events@.len());
    let mut k: usize = 0;
    while k < p.extra_clients && k < events.len() && plan::failure_at(events, k).is_none()
        invariant
            k <= p.extra_clients,
            view == plan::events_of(events@),
            view.len() == events@.len(),
            attached(p@, view, 0) == attached(p@, view, k as int),
        decreases p.extra_clients - k,
    {
        k = k + 1;
    }
    k
}

fn find_attach_failure(p: &ProfileRecord, events: &Vec<Event>) -> (r: Option<(usize, String)>)
    ensures
        ({
            let view = plan::events_of(events@);
            match r {
                Some((i, e)) => attach_failure(p@, view) == Some(i as int) && i < p.extra_clients
                    && i < events@.len() && e@ == plan::error_of(view, i as int),
                None => attach_failure(p@, view) is None,
            }
        }),
{
    let k: usize = count_attached(p, events);
    assert(plan::events_of(events@).len() == events@.len());
    if k >= p.extra_clients {
        return None;
    }
    match plan::failure_at(events, k) {
        Some(e) => Some((k, e)),
        None => None,
    }
}

fn last_marker(p: &ProfileRecord) -> (r: String)
    ensures
        r@ == final_marker(p@),
{
    let last: usize = if p.latency_iterations > 0 {
        p.latency_iterations - 1
    } else {
        0
    };
    oracle::latency_marker(last)
}

/// The index of the first step behind trials and checks.
fn judged_index(p: &ProfileRecord, events: &Vec<Event>) -> (r: usize)
    requires
        20 * p.extra_clients <= u16::MAX,
    ensures
        r == judged(p@, plan::events_of(events@)),
{
    let at: usize = 2 * p.extra_clients + 1;
    if plan::failure_at(events, at).is_some() {
        at + 1
    } else {
        at + 2
    }
}

/// The next step of the workload with several clients.
pub fn multiclient_next(p: &ProfileRecord, events: &Vec<Event>) -> (r: Option<Action>)
    requires
        20 * p.extra_clients <= u16::MAX,
    ensures
        plan::opt_action(r) == multiclient_plan(p@, plan::events_of(events@)),
{
    let ghost view = plan::events_of(events@);
    let n: usize = events.len();
    assert(view.len() == n);
    let k: usize = p.extra_clients;
    if k == 0 {
        return None;
    }
    match find_attach_failure(p, events) {
        Some((i, _)) => {
            if n == i + 1 {
                return Some(Action::DetachExtras { count: i });
            }
            return None;
        },
        None => {},
    }
    let end: usize = judged_index(p, events);
    if n < k {
        let (cols, rows): (u16, u16) = extra_geometry(p, n);
        Some(Action::AttachExtra { cols, rows })
    } else if n < 2 * k {
        Some(Action::DrainExtra { index: n - k, millis: 500 })
    } else if n == 2 * k {
        Some(Action::Drain { millis: 500 })
    } else if n == 2 * k + 1 {
        Some(Action::Latency)
    } else if n < end {
        Some(Action::CheckExtras { count: k, marker: last_marker(p) })
    } else if n == end {
        Some(Action::Settle)
    } else if n == end + 1 {
        Some(Action::SampleClients)
    } else if n == end + 2 {
        Some(Action::DetachExtras { count: k })
    } else if n == end + 3 {
        Some(Action::Drain { millis: 300 })
    } else {
        None
    }
}

fn prefix_of(p: &ProfileRecord) -> (r: String)
    requires
        20 * p.extra_clients <= u16::MAX,
    ensures
        r@ == clients_prefix(p@),
{
    text::cat(
        "multiclient_".to_owned(),
        decimal::decimal_text((p.extra_clients + 1) as u64).as_str(),
    )
}

fn visible_record_of(p: &ProfileRecord, events: &Vec<Event>) -> (r: Record)
    requires
        20 * p.extra_clients <= u16::MAX,
        latency_at(p@) < events@.len(),
    ensures
        r@ == visible_record(p@, plan::events_of(events@)),
{
    let ghost view = plan::events_of(events@);
    let at: usize = 2 * p.extra_clients + 1;
    assert(view[at as int] == events@[at as int]@);
    let name: String = text::cat(prefix_of(p), "_input_to_visible");
    let mut record: Record = Record::new();
    match plan::failure_at(events, at) {
        Some(error) => {
            record.push_error(text::cat("multi-client latency: ".to_owned(), error.as_str()));
            record.push_failed(name.as_str(), error.as_str());
            return record;
        },
        None => {},
    }
    match plan::failure_at(events, at + 1) {
        Some(error) => {
            record.push_error(text::cat("multi-client: ".to_owned(), error.as_str()));
            record.push_failed(name.as_str(), error.as_str());
            return record;
        },
        None => {},
    }
    let number: String = decimal::decimal_text(p.extra_clients as u64);
    let note: String = text::cat(
        text::cat(
            "Input-to-visible latency on the primary client while ".to_owned(),
            number.as_str(),
        ),
        " additional clients of smaller geometry are attached; the final marker must be visible on every client.",
    );
    record.push_draft(
        plan::measured_draft(
            name.as_str(),
            "ms",
            MetricDirection::Lower,
            plan::series(&events[at]),
            note.as_str(),
            plan::no_metadata(),
        ),
    );
    record
}

/// What is written down of the workload with several clients, once no step is left.
pub fn run_multiclient(p: &ProfileRecord, events: &Vec<Event>) -> (r: Record)
    requires
        20 * p.extra_clients <= u16::MAX,
        multiclient_plan(p@, plan::events_of(events@)) is None,
    ensures
        r@ == multiclient_outcome(p@, plan::events_of(events@)),
{
    let ghost view = plan::events_of(events@);
    let n: usize = events.len();
    assert(view.len() == n);
    let mut record: Record = Record::new();
    if p.extra_clients == 0 {
        return record;
    }
    match find_attach_failure(p, events) {
        Some((i, error)) => {
            let number: String = decimal::decimal_text((i + 1) as u64);
            let head: String = text::cat(
                text::cat("multi-client attach ".to_owned(), number.as_str()),
                ": ",
            );
            record.push_error(text::cat(head, error.as_str()));
            let name: String = text::cat(prefix_of(p), "_input_to_visible");
            let note: String = text::cat(
                text::cat(
                    text::cat("extra client ".to_owned(), number.as_str()),
                    " did not attach: ",
                ),
                error.as_str(),
            );
            record.push_failed(name.as_str(), note.as_str());
            return record;
        },
        None => {},
    }
    let at: usize = judged_index(p, events) + 1;
    assert(view[at as int] == events@[at as int]@);
    let mut record: Record = visible_record_of(p, events);
    let idle: String = text::cat(prefix_of(p), "_idle");
    match plan::failure_at(events, at) {
        Some(error) => {
            record.push_failed(idle.as_str(), error.as_str());
        },
        None => {
            let s: plan::Resources = panes::resources_of(&events[at]);
            plan::add_resource_metrics(&mut record, idle.as_str(), &s, CLIENTS_IDLE_NOTE);
        },
    }
    record
}

/// The latency of a shared session is measured only where the trials succeeded and every extra
/// client was checked without a failure.
pub proof fn law_shared_sessions_update_every_client(p: ProfileRecordModel, events: Seq<EventModel>)
    requires
        p.extra_clients > 0,
        multiclient_plan(p, events) is None,
        multiclient_outcome(p, events).errors.len() == 0,
    ensures
        attach_failure(p, events) is None,
        !plan::fails(events, latency_at(p)),
        !plan::fails(events, latency_at(p) + 1),
        latency_at(p) + 1 < events.len(),
{
}

/// Where nothing came of checking the extra clients, each of them was held against the marker and
/// showed it.
pub proof fn law_every_extra_client_is_checked(
    count: usize,
    marker: Seq<char>,
    events: Seq<EventModel>,
    k: usize,
)
    requires
        k < count,
        check_plan(count, marker, events) is None,
        check_outcome(events) is None,
        forall|n: int|
            0 <= n < events.len() ==> #[trigger] check_plan(count, marker, events.take(n)) is Some,
    ensures
        check_plan(count, marker, events.take(2 * k + 1)) == Some(
            ActionModel::CheckExtra { index: k, marker },
        ),
        !plan::fails(events, 2 * k + 1),
{
    let n = 2 * k + 1;
    assert(n < events.len());
    assert(check_plan(count, marker, events.take(n)) is Some);
    if n + 1 < events.len() {
        let longer = events.take(n + 1);
        assert(check_plan(count, marker, longer) is Some);
        assert(longer[n] == events[n]);
    }
}

} // verus!
