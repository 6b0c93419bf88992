//! The workloads on one attached client: input latency, output bursts and the resize storm. Each
//! is a pair of functions of what has happened so far: what to do next, and what is written down
//! when nothing is left to do.

use vstd::prelude::*;
use crate::decimal;
use crate::measure::Real;
use crate::textmap::TextMap;
use crate::model::{MetricDirection, ProfileRecord, ProfileRecordModel};
use crate::oracle;
use crate::plan;
use crate::plan::{Action, ActionModel, Event, EventModel, Record, RecordModel};
use crate::text;

verus! {

// ---------------------------------------------------------------------------------------------
// Latency
// ---------------------------------------------------------------------------------------------

/// What is typed in a latency trial. The viewport is reset for every trial; otherwise later
/// samples exercise scrolling while early samples do not. Marker and reset are octal-encoded so
/// that the input echo cannot satisfy marker detection before rendered output arrives.
pub open spec fn latency_line(iteration: nat) -> Seq<char> {
    "printf '\\033[2J\\033[H"@ + oracle::octal(oracle::marker(iteration)) + "\\n'"@
}

/// One step of a latency trial: clear, type, observe, let the frame finish, judge the screen.
pub open spec fn latency_action(iteration: nat, phase: int) -> ActionModel {
    let marker = oracle::marker(iteration);
    if phase == 0 {
        ActionModel::Clear
    } else if phase == 1 {
        ActionModel::Type { line: latency_line(iteration) }
    } else if phase == 2 {
        ActionModel::Observe { marker, seconds: 3, lines: 0 }
    } else if phase == 3 {
        ActionModel::Drain { millis: 30 }
    } else {
        ActionModel::CheckLatency {
            marker,
            previous: if iteration > 0 {
                Some(oracle::marker((iteration - 1) as nat))
            } else {
                None
            },
        }
    }
}

/// The next step, up to the first failure.
pub open spec fn latency_plan(iterations: nat, events: Seq<EventModel>) -> Option<ActionModel> {
    if plan::fails(events, events.len() - 1) || events.len() >= 5 * iterations {
        None
    } else {
        Some(latency_action(events.len() / 5, events.len() as int % 5))
    }
}

/// What a failure in a trial is reported as.
pub open spec fn latency_error(iteration: nat, phase: int, error: Seq<char>) -> Seq<char> {
    if phase == 0 {
        "latency clear: "@ + error
    } else if phase == 1 {
        "latency input: "@ + error
    } else if phase == 2 {
        "latency observation: "@ + error
    } else if phase == 3 {
        error
    } else {
        "trial "@ + decimal::decimal(iteration + 1) + ": "@ + error
    }
}

/// The samples of a complete run; any failure aborts the metric and is never a slow sample.
pub open spec fn latency_outcome(iterations: nat, events: Seq<EventModel>) -> Result<
    Seq<Real>,
    Seq<char>,
> {
    let last = events.len() - 1;
    if plan::fails(events, last) {
        Err(latency_error((last / 5) as nat, last % 5, plan::error_of(events, last)))
    } else {
        Ok(Seq::new(iterations, |k: int| plan::number_in(events[5 * k + 2])))
    }
}

fn latency_step(iteration: usize, phase: usize) -> (r: Action)
    requires
        phase < 5,
    ensures
        r@ == latency_action(iteration as nat, phase as int),
{
    let marker: String = oracle::latency_marker(iteration);
    if phase == 0 {
        Action::Clear
    } else if phase == 1 {
        let octal: String = oracle::shell_octal(marker.as_str());
        Action::Type {
            line: text::cat(
                text::cat("printf '\\033[2J\\033[H".to_owned(), octal.as_str()),
                "\\n'",
            ),
        }
    } else if phase == 2 {
        Action::Observe { marker, seconds: 3, lines: 0 }
    } else if phase == 3 {
        Action::Drain { millis: 30 }
    } else {
        let previous: Option<String> = if iteration > 0 {
            Some(oracle::latency_marker(iteration - 1))
        } else {
            None
        };
        Action::CheckLatency { marker, previous }
    }
}

/// The next step of the latency trials.
pub fn latency_next(iterations: usize, events: &Vec<Event>) -> (r: Option<Action>)
    ensures
        plan::opt_action(r) == latency_plan(iterations as nat, plan::events_of(events@)),
{
    let done: usize = events.len();
    assert(plan::events_of(events@).len() == done);
    if plan::last_failure(events).is_some() || done / 5 >= iterations {
        return None;
    }
    Some(latency_step(done / 5, done % 5))
}

fn latency_message(iteration: usize, phase: usize, error: String) -> (r: String)
    requires
        iteration < usize::MAX,
    ensures
        r@ == latency_error(iteration as nat, phase as int, error@),
{
    if phase == 0 {
        text::cat("latency clear: ".to_owned(), error.as_str())
    } else if phase == 1 {
        text::cat("latency input: ".to_owned(), error.as_str())
    } else if phase == 2 {
        text::cat("latency observation: ".to_owned(), error.as_str())
    } else if phase == 3 {
        error
    } else {
        let number: String = decimal::decimal_text((iteration + 1) as u64);
        text::cat(
            text::cat(text::cat("trial ".to_owned(), number.as_str()), ": "),
            error.as_str(),
        )
    }
}

/// The samples of the latency trials, once no step is left.
pub fn latency_samples(iterations: usize, events: &Vec<Event>) -> (r: Result<Vec<Real>, String>)
    requires
        latency_plan(iterations as nat, plan::events_of(events@)) is None,
    ensures
        match r {
            Ok(samples) => latency_outcome(iterations as nat, plan::events_of(events@)) == Ok::<
                Seq<Real>,
                Seq<char>,
            >(samples@),
            Err(e) => latency_outcome(iterations as nat, plan::events_of(events@)) == Err::<
                Seq<Real>,
                Seq<char>,
            >(e@),
        },
{
    let ghost view = plan::events_of(events@);
    let done: usize = events.len();
    assert(view.len() == done);
    match plan::last_failure(events) {
        Some(error) => {
            return Err(latency_message((done - 1) / 5, (done - 1) % 5, error));
        },
        None => {},
    }
    let mut samples: Vec<Real> = Vec::new();
    let mut k: usize = 0;
    let ghost wanted = Seq::new(iterations as nat, |k: int| plan::number_in(view[5 * k + 2]));
    while k < iterations
        invariant
            k <= iterations,
            view == plan::events_of(events@),
            view.len() == done == events@.len(),
            5 * iterations <= done,
            wanted.len() == iterations,
            forall|j: int|
                0 <= j < wanted.len() ==> #[trigger] wanted[j] == plan::number_in(
                    view[5 * j + 2],
                ),
            samples@ =~= wanted.take(k as int),
        decreases iterations - k,
    {
        assert(view[5 * k + 2] == events@[5 * k + 2]@);
        samples.push(plan::number(&events[5 * k + 2]));
        assert(wanted[k as int] == plan::number_in(view[5 * k + 2]));
        k = k + 1;
    }
    assert(samples@ =~= wanted);
    Ok(samples)
}

/// A latency metric holds one sample for every trial, and each trial was judged: the screen
/// showed the new marker and the previous one was gone.
pub proof fn law_every_latency_sample_was_judged(
    iterations: nat,
    events: Seq<EventModel>,
    k: nat,
)
    requires
        latency_plan(iterations, events) is None,
        latency_outcome(iterations, events) is Ok,
        forall|n: int|
            0 <= n < events.len() ==> #[trigger] latency_plan(iterations, events.take(n)) is Some,
        k < iterations,
    ensures
        latency_outcome(iterations, events)->Ok_0.len() == iterations,
        latency_plan(iterations, events.take(5 * k as int + 4)) == Some(
            latency_action(k, 4),
        ),
        !plan::fails(events, 5 * k as int + 4),
{
    let n = 5 * k as int + 4;
    assert(events.len() >= 5 * iterations);
    assert(n < events.len());
    assert(events.take(n).len() == n);
    assert(latency_plan(iterations, events.take(n)) is Some);
    assert(n / 5 == k && n % 5 == 4);
    if n + 1 < events.len() {
        let longer = events.take(n + 1);
        assert(latency_plan(iterations, longer) is Some);
        assert(!plan::fails(longer, n));
        assert(longer[n] == events[n]);
    }
}

// ---------------------------------------------------------------------------------------------
// Output
// ---------------------------------------------------------------------------------------------

/// The length of an output line, with its number and its line feed.
pub const LINE_BYTES: usize = 72;

pub const COMPLETION: &'static str = "terminal_output_completion";

pub const COMPLETION_NOTE: &'static str =
    "Time until the final marker from repeated deterministic shell output bursts becomes visible through the attached client. Every burst is oracle-checked: the ten lines above the marker must be the last ten payload lines, intact and in order.";

pub const INGEST_NOTE: &'static str =
    "Known 72-byte input lines divided by visible-completion time; coalescing is allowed because final visibility is required.";

pub const RENDER_NOTE: &'static str =
    "Raw bytes emitted by the app client to the outer PTY during each output workload; lower can indicate effective damage coalescing.";

/// The text that ends a burst.
pub open spec fn end_marker(iteration: nat) -> Seq<char> {
    "UTC_OUTPUT_WORKLOAD_END_"@ + text::pad_left(decimal::decimal(iteration), 2, '0')
}

pub fn output_marker(iteration: usize) -> (r: String)
    ensures
        r@ == end_marker(iteration as nat),
{
    let number: String = decimal::decimal_padded(iteration as u64, 2, '0');
    text::cat("UTC_OUTPUT_WORKLOAD_END_".to_owned(), number.as_str())
}

/// What is typed for a burst: numbered payload lines, then the marker.
pub open spec fn output_line(lines: nat, iteration: nat) -> Seq<char> {
    "i=0; while [ \"$i\" -lt "@ + decimal::decimal(lines) + " ]; do printf '%08d "@
        + oracle::payload(iteration) + "\\n' \"$i\"; i=$((i+1)); done; printf '"@ + oracle::octal(
        end_marker(iteration),
    ) + "\\n'"@
}

/// How long a burst may take.
pub open spec fn output_timeout(p: ProfileRecordModel) -> u64 {
    if p.name == "smoke"@ {
        10
    } else {
        120
    }
}

/// One step of a burst: clear, type, observe, let the frame finish, judge the screen.
pub open spec fn output_action(p: ProfileRecordModel, iteration: nat, phase: int) -> ActionModel {
    if phase == 0 {
        ActionModel::Clear
    } else if phase == 1 {
        ActionModel::Type { line: output_line(p.output_lines as nat, iteration) }
    } else if phase == 2 {
        ActionModel::Observe {
            marker: end_marker(iteration),
            seconds: output_timeout(p),
            lines: p.output_lines,
        }
    } else if phase == 3 {
        ActionModel::Drain { millis: 100 }
    } else {
        ActionModel::CheckOutput {
            lines: p.output_lines,
            payload: oracle::payload(iteration),
            marker: end_marker(iteration),
        }
    }
}

/// Whether the last step ended the workload. Letting the frame finish may fail.
pub open spec fn output_broken(events: Seq<EventModel>) -> bool {
    let last = events.len() - 1;
    plan::fails(events, last) && last % 5 != 3
}

/// The next step, up to the first failure that counts.
pub open spec fn output_plan(p: ProfileRecordModel, events: Seq<EventModel>) -> Option<ActionModel> {
    if output_broken(events) || events.len() >= 5 * p.output_iterations {
        None
    } else {
        Some(output_action(p, events.len() / 5, events.len() as int % 5))
    }
}

pub open spec fn rate_in(e: EventModel) -> Real {
    match e {
        EventModel::Observed { rate, .. } => rate,
        _ => Real { bits: 0 },
    }
}

pub open spec fn bytes_in(e: EventModel) -> Real {
    match e {
        EventModel::Observed { bytes, .. } => bytes,
        _ => Real { bits: 0 },
    }
}

pub open spec fn output_metadata(p: ProfileRecordModel) -> Seq<(Seq<char>, Seq<char>)> {
    seq![
        ("input_bytes_per_iteration"@, decimal::decimal((p.output_lines * LINE_BYTES) as nat)),
        ("input_lines_per_iteration"@, decimal::decimal(p.output_lines as nat)),
        ("output_iterations"@, decimal::decimal(p.output_iterations as nat)),
    ]
}

/// What is written down of the bursts.
pub open spec fn output_outcome(p: ProfileRecordModel, events: Seq<EventModel>) -> RecordModel {
    let last = events.len() - 1;
    let error = plan::error_of(events, last);
    let none = RecordModel::empty();
    if output_broken(events) {
        let trial = "iteration "@ + decimal::decimal((last / 5 + 1) as nat) + ": "@ + error;
        if last % 5 == 0 {
            none.error("output clear: "@ + error)
        } else if last % 5 == 1 {
            none.error("output input: "@ + error)
        } else if last % 5 == 2 {
            none.failed(COMPLETION@, error)
        } else {
            none.error("output workload: "@ + trial).failed(COMPLETION@, trial)
        }
    } else {
        let n = p.output_iterations as nat;
        none.draft(
            plan::measured(
                COMPLETION@,
                "ms"@,
                MetricDirection::Lower,
                Seq::new(n, |k: int| plan::number_in(events[5 * k + 2])),
                COMPLETION_NOTE@,
                plan::no_data(),
            ),
        ).draft(
            plan::measured(
                "terminal_output_ingest_rate"@,
                "MiB/s"@,
                MetricDirection::Higher,
                Seq::new(n, |k: int| rate_in(events[5 * k + 2])),
                INGEST_NOTE@,
                plan::no_data(),
            ),
        ).draft(
            plan::measured(
                "client_render_output"@,
                "bytes"@,
                MetricDirection::Lower,
                Seq::new(n, |k: int| bytes_in(events[5 * k + 2])),
                RENDER_NOTE@,
                output_metadata(p),
            ),
        )
    }
}

fn output_step(p: &ProfileRecord, iteration: usize, phase: usize) -> (r: Action)
    requires
        phase < 5,
    ensures
        r@ == output_action(p@, iteration as nat, phase as int),
{
    if phase == 0 {
        return Action::Clear;
    }
    if phase == 3 {
        return Action::Drain { millis: 100 };
    }
    let marker: String = output_marker(iteration);
    let payload: String = oracle::output_payload(iteration);
    if phase == 1 {
        let octal: String = oracle::shell_octal(marker.as_str());
        let head: String = text::cat(
            text::cat(
                "i=0; while [ \"$i\" -lt ".to_owned(),
                decimal::decimal_text(p.output_lines as u64).as_str(),
            ),
            " ]; do printf '%08d ",
        );
        let looped: String = text::cat(
            text::cat(head, payload.as_str()),
            "\\n' \"$i\"; i=$((i+1)); done; printf '",
        );
        Action::Type { line: text::cat(text::cat(looped, octal.as_str()), "\\n'") }
    } else if phase == 2 {
        let seconds: u64 = if text::same(p.name.as_str(), "smoke") {
            10
        } else {
            120
        };
        Action::Observe { marker, seconds, lines: p.output_lines }
    } else {
        Action::CheckOutput { lines: p.output_lines, payload, marker }
    }
}

fn is_output_broken(events: &Vec<Event>) -> (r: Option<String>)
    ensures
        match r {
            Some(e) => output_broken(plan::events_of(events@)) && e@ == plan::error_of(
                plan::events_of(events@),
                events@.len() - 1,
            ),
            None => !output_broken(plan::events_of(events@)),
        },
{
    assert(plan::events_of(events@).len() == events@.len());
    match plan::last_failure(events) {
        Some(e) => if (events.len() - 1) % 5 != 3 {
            Some(e)
        } else {
            None
        },
        None => None,
    }
}

/// The next step of the output workload.
pub fn output_next(p: &ProfileRecord, events: &Vec<Event>) -> (r: Option<Action>)
    ensures
        plan::opt_action(r) == output_plan(p@, plan::events_of(events@)),
{
    let done: usize = events.len();
    assert(plan::events_of(events@).len() == done);
    if is_output_broken(events).is_some() || done / 5 >= p.output_iterations {
        return None;
    }
    Some(output_step(p, done / 5, done % 5))
}

fn rate(e: &Event) -> (r: Real)
    ensures
        r == rate_in(e@),
{
    match e {
        Event::Observed { rate, .. } => *rate,
        _ => Real { bits: 0 },
    }
}

fn bytes(e: &Event) -> (r: Real)
    ensures
        r == bytes_in(e@),
{
    match e {
        Event::Observed { bytes, .. } => *bytes,
        _ => Real { bits: 0 },
    }
}

fn output_metadata_of(p: &ProfileRecord) -> (r: TextMap)
    requires
        p.output_lines * LINE_BYTES <= usize::MAX,
    ensures
        r@ == output_metadata(p@),
{
    let mut data: TextMap = TextMap::new();
    proof {
        reveal_strlit("input_bytes_per_iteration");
        reveal_strlit("input_lines_per_iteration");
        reveal_strlit("output_iterations");
        text::lemma_before_at("input_bytes_per_iteration"@, "input_lines_per_iteration"@, 6);
        text::lemma_before_at("input_lines_per_iteration"@, "output_iterations"@, 0);
    }
    data.append(
        "input_bytes_per_iteration",
        decimal::decimal_text((p.output_lines * LINE_BYTES) as u64).as_str(),
    );
    data.append(
        "input_lines_per_iteration",
        decimal::decimal_text(p.output_lines as u64).as_str(),
    );
    data.append(
        "output_iterations",
        decimal::decimal_text(p.output_iterations as u64).as_str(),
    );
    assert(data@ =~= output_metadata(p@));
    data
}

fn output_failure(events: &Vec<Event>, error: String) -> (r: Record)
    requires
        output_broken(plan::events_of(events@)),
        error@ == plan::error_of(plan::events_of(events@), events@.len() - 1),
    ensures
        forall|p: ProfileRecordModel| r@ == #[trigger] output_outcome(p, plan::events_of(events@)),
{
    assert(plan::events_of(events@).len() == events@.len());
    let last: usize = events.len() - 1;
    let phase: usize = last % 5;
    let mut record: Record = Record::new();
    if phase == 0 {
        record.push_error(text::cat("output clear: ".to_owned(), error.as_str()));
    } else if phase == 1 {
        record.push_error(text::cat("output input: ".to_owned(), error.as_str()));
    } else if phase == 2 {
        record.push_failed(COMPLETION, error.as_str());
    } else {
        let number: String = decimal::decimal_text((last / 5 + 1) as u64);
        let trial: String = text::cat(
            text::cat(text::cat("iteration ".to_owned(), number.as_str()), ": "),
            error.as_str(),
        );
        record.push_error(text::cat("output workload: ".to_owned(), trial.as_str()));
        record.push_failed(COMPLETION, trial.as_str());
    }
    record
}

/// What is written down of the output workload, once no step is left.
pub fn run_output_workload(p: &ProfileRecord, events: &Vec<Event>) -> (r: Record)
    requires
        p.output_lines * LINE_BYTES <= usize::MAX,
        output_plan(p@, plan::events_of(events@)) is None,
    ensures
        r@ == output_outcome(p@, plan::events_of(events@)),
{
    let ghost view = plan::events_of(events@);
    let done: usize = events.len();
    assert(view.len() == done);
    match is_output_broken(events) {
        Some(error) => {
            return output_failure(events, error);
        },
        None => {},
    }
    let n: usize = p.output_iterations;
    let mut completion: Vec<Real> = Vec::new();
    let mut ingest: Vec<Real> = Vec::new();
    let mut rendered: Vec<Real> = Vec::new();
    let ghost times = Seq::new(n as nat, |k: int| plan::number_in(view[5 * k + 2]));
    let ghost rates = Seq::new(n as nat, |k: int| rate_in(view[5 * k + 2]));
    let ghost sizes = Seq::new(n as nat, |k: int| bytes_in(view[5 * k + 2]));
    let mut k: usize = 0;
    while k < n
        invariant
            k <= n,
            view == plan::events_of(events@),
            view.len() == done == events@.len(),
            5 * n <= done,
            times.len() == n,
            rates.len() == n,
            sizes.len() == n,
            forall|j: int|
                0 <= j < n ==> #[trigger] times[j] == plan::number_in(view[5 * j + 2]),
            forall|j: int| 0 <= j < n ==> #[trigger] rates[j] == rate_in(view[5 * j + 2]),
            forall|j: int| 0 <= j < n ==> #[trigger] sizes[j] == bytes_in(view[5 * j + 2]),
            completion@ =~= times.take(k as int),
            ingest@ =~= rates.take(k as int),
            rendered@ =~= sizes.take(k as int),
        decreases n - k,
    {
        let e: &Event = &events[5 * k + 2];
        assert(view[5 * k + 2] == e@);
        assert(times[k as int] == plan::number_in(e@));
        assert(rates[k as int] == rate_in(e@));
        assert(sizes[k as int] == bytes_in(e@));
        completion.push(plan::number(e));
        ingest.push(rate(e));
        rendered.push(bytes(e));
        k = k + 1;
    }
    assert(completion@ =~= times);
    assert(ingest@ =~= rates);
    assert(rendered@ =~= sizes);
    let mut record: Record = Record::new();
    record.push_draft(
        plan::measured_draft(
            COMPLETION,
            "ms",
            MetricDirection::Lower,
            completion,
            COMPLETION_NOTE,
            plan::no_metadata(),
        ),
    );
    record.push_draft(
        plan::measured_draft(
            "terminal_output_ingest_rate",
            "MiB/s",
            MetricDirection::Higher,
            ingest,
            INGEST_NOTE,
            plan::no_metadata(),
        ),
    );
    record.push_draft(
        plan::measured_draft(
            "client_render_output",
            "bytes",
            MetricDirection::Lower,
            rendered,
            RENDER_NOTE,
            output_metadata_of(p),
        ),
    );
    record
}

/// An output metric holds one sample for every burst, and each burst was judged: the screen showed
/// its last lines intact and in order above the marker.
pub proof fn law_every_burst_was_judged(
    p: ProfileRecordModel,
    events: Seq<EventModel>,
    k: nat,
)
    requires
        output_plan(p, events) is None,
        !output_broken(events),
        forall|n: int|
            0 <= n < events.len() ==> #[trigger] output_plan(p, events.take(n)) is Some,
        k < p.output_iterations,
    ensures
        output_outcome(p, events).drafts.len() == 3,
        output_outcome(p, events).drafts[0].samples.len() == p.output_iterations,
        output_plan(p, events.take(5 * k as int + 4)) == Some(output_action(p, k, 4)),
        !plan::fails(events, 5 * k as int + 4),
{
    let n = 5 * k as int + 4;
    assert(events.len() >= 5 * p.output_iterations);
    assert(n < events.len());
    assert(output_plan(p, events.take(n)) is Some);
    assert(n / 5 == k && n % 5 == 4);
    if n + 1 < events.len() {
        let longer = events.take(n + 1);
        assert(output_plan(p, longer) is Some);
        assert(longer[n] == events[n]);
    }
}

// ---------------------------------------------------------------------------------------------
// Pane sizes
// ---------------------------------------------------------------------------------------------

/// What is typed to learn the size of the pane behind a tag that the echo does not show.
pub open spec fn probe_line(prefix: Seq<char>) -> Seq<char> {
    "printf '"@ + oracle::octal(prefix) + "%s:\\n' \"$(stty size)\""@
}

/// For so many milliseconds after its tag has appeared, a size that cannot be read yet is awaited.
pub const READ_MILLIS: u64 = 1_000;

/// Whether the last event ends the probe: a failure, a size, or no size when the time is up.
pub open spec fn probe_ended(events: Seq<EventModel>) -> bool {
    let last = events.len() - 1;
    ||| plan::fails(events, last)
    ||| last >= 3 && events[last] is Size
    ||| last >= 3 && (events[last] matches EventModel::Unread { age, .. } && age >= READ_MILLIS)
}

/// Clear, type, wait for the tag, then read the size until it is there.
pub open spec fn probe_plan(tag: Seq<char>, events: Seq<EventModel>) -> Option<ActionModel> {
    let prefix = tag + ":"@;
    if probe_ended(events) {
        None
    } else if events.len() == 0 {
        Some(ActionModel::Clear)
    } else if events.len() == 1 {
        Some(ActionModel::Type { line: probe_line(prefix) })
    } else if events.len() == 2 {
        Some(ActionModel::Await { wanted: prefix, seconds: 5 })
    } else if events.len() as int % 2 == 1 {
        Some(ActionModel::ReadSize { prefix })
    } else {
        Some(ActionModel::Drain { millis: 20 })
    }
}

/// The size, or why there is none.
pub open spec fn probe_outcome(tag: Seq<char>, events: Seq<EventModel>) -> Result<
    (u16, u16),
    Seq<char>,
> {
    let last = events.len() - 1;
    match events[last] {
        EventModel::Size { rows, cols, .. } => Ok((rows, cols)),
        EventModel::Unread { dump, .. } => Err(
            "could not parse the pane size probe "@ + tag + ":"@ + " from the visible screen\n"@
                + dump,
        ),
        _ => Err(plan::error_of(events, last)),
    }
}

fn has_probe_ended(events: &Vec<Event>) -> (r: bool)
    ensures
        r == probe_ended(plan::events_of(events@)),
{
    assert(plan::events_of(events@).len() == events@.len());
    if events.len() == 0 {
        return false;
    }
    let last: usize = events.len() - 1;
    assert(plan::events_of(events@)[last as int] == events@[last as int]@);
    match &events[last] {
        Event::Failed { .. } => true,
        Event::Size { .. } => last >= 3,
        Event::Unread { age, .. } => last >= 3 && *age >= READ_MILLIS,
        _ => false,
    }
}

/// The next step of a size probe. The screen, not the raw stream, is read because consecutive
/// probes land on the same bottom row of a scrolling pane and a damage-based renderer then emits
/// only the cells that changed.
pub fn probe_next(tag: &str, events: &Vec<Event>) -> (r: Option<Action>)
    ensures
        plan::opt_action(r) == probe_plan(tag@, plan::events_of(events@)),
{
    let done: usize = events.len();
    assert(plan::events_of(events@).len() == done);
    if has_probe_ended(events) {
        return None;
    }
    let prefix: String = text::cat(tag.to_owned(), ":");
    if done == 0 {
        Some(Action::Clear)
    } else if done == 1 {
        let octal: String = oracle::shell_octal(prefix.as_str());
        Some(
            Action::Type {
                line: text::cat(
                    text::cat("printf '".to_owned(), octal.as_str()),
                    "%s:\\n' \"$(stty size)\"",
                ),
            },
        )
    } else if done == 2 {
        Some(Action::Await { wanted: prefix, seconds: 5 })
    } else if done % 2 == 1 {
        Some(Action::ReadSize { prefix })
    } else {
        Some(Action::Drain { millis: 20 })
    }
}

/// The size of the pane, once no step is left.
pub fn probe_pane_size(tag: &str, events: &Vec<Event>) -> (r: Result<(u16, u16), String>)
    requires
        probe_plan(tag@, plan::events_of(events@)) is None,
    ensures
        match r {
            Ok(size) => probe_outcome(tag@, plan::events_of(events@)) == Ok::<
                (u16, u16),
                Seq<char>,
            >(size),
            Err(e) => probe_outcome(tag@, plan::events_of(events@)) == Err::<
                (u16, u16),
                Seq<char>,
            >(e@),
        },
{
    assert(plan::events_of(events@).len() == events@.len());
    let last: usize = events.len() - 1;
    assert(plan::events_of(events@)[last as int] == events@[last as int]@);
    match &events[last] {
        Event::Size { rows, cols, .. } => Ok((*rows, *cols)),
        Event::Unread { dump, .. } => {
            let head: String = text::cat(
                text::cat("could not parse the pane size probe ".to_owned(), tag),
                ":",
            );
            Err(text::cat(text::cat(head, " from the visible screen\n"), dump.as_str()))
        },
        Event::Failed { error } => Err(error.clone()),
        _ => Err("".to_owned()),
    }
}

// ---------------------------------------------------------------------------------------------
// The resize storm
// ---------------------------------------------------------------------------------------------

pub const STORM_SETTLE: &'static str = "resize_storm_settle";

pub const SETTLE_NOTE: &'static str =
    "Time from the final resize of a rapid resize burst, applied to a pane holding the scrollback left by the output workload, until the pane's PTY reports the original size again through a shell probe and that probe is visible.";

pub const STORM_CPU_NOTE: &'static str =
    "CPU time consumed by the server and client cohorts across the resize burst over the output-workload scrollback and its settle probes.";

pub const STORM_RSS_NOTE: &'static str =
    "Server plus client cohort RSS right after the resize storm settles; compare with foreground_idle_cohort_rss to see how much memory the reflow work retained.";

/// `size` less `by`, and no less than `floor`.
pub open spec fn shrunk(size: u16, by: int, floor: u16) -> u16 {
    if size - by > floor {
        (size - by) as u16
    } else {
        floor
    }
}

/// A deterministic burst of distinct geometries, none of which is the final one.
pub open spec fn storm_size(p: ProfileRecordModel, index: nat) -> (u16, u16) {
    (
        shrunk(p.terminal_cols, 10 + (index * 13) as int % 40, 40),
        shrunk(p.terminal_rows, 4 + (index * 7) as int % 16, 10),
    )
}

/// The tag of the `n`th probe.
pub open spec fn probe_tag(n: nat) -> Seq<char> {
    "SZ"@ + decimal::decimal(n)
}

pub open spec fn size_in(e: EventModel) -> (u16, u16) {
    match e {
        EventModel::Size { rows, cols, .. } => (rows, cols),
        _ => (0, 0),
    }
}

/// The index of the first settle probe.
pub open spec fn settling_from(p: ProfileRecordModel) -> int {
    3 + 2 * p.resize_iterations
}

/// The index of the first probe, among every other event from `from` on, that shows the size.
pub open spec fn shows_size(events: Seq<EventModel>, size: (u16, u16), from: int) -> Option<int>
    decreases events.len() + 2 - from,
{
    if from < 0 || from >= events.len() {
        None
    } else if events[from] is Size && size_in(events[from]) == size {
        Some(from)
    } else {
        shows_size(events, size, from + 2)
    }
}

/// The index of the probe that shows the size from before the storm again.
pub open spec fn settled_at(p: ProfileRecordModel, events: Seq<EventModel>) -> Option<int> {
    shows_size(events, size_in(events[0]), settling_from(p))
}

/// So many milliseconds after the final resize, the size from before the storm must be back. That
/// is generous because a busy renderer may still be draining the burst.
pub const SETTLE_MILLIS: u64 = 20_000;

/// A probe that still shows another size when the time is up.
pub open spec fn storm_timed_out(p: ProfileRecordModel, events: Seq<EventModel>) -> bool {
    let last = events.len() - 1;
    &&& last >= settling_from(p)
    &&& settled_at(p, events) is None
    &&& events[last] matches EventModel::Size { age, .. } && age >= SETTLE_MILLIS
}

/// The steps: the size and the processor time before, the burst, the final size, probes until the
/// size is back, then the processor time, the resident size and the last probe on the screen.
pub open spec fn storm_plan(p: ProfileRecordModel, events: Seq<EventModel>) -> Option<ActionModel> {
    let n = events.len() as int;
    let from = settling_from(p);
    if p.resize_iterations == 0 || plan::fails(events, n - 1) || storm_timed_out(p, events) {
        None
    } else if n == 0 {
        Some(ActionModel::ProbeSize { tag: probe_tag(0) })
    } else if n == 1 {
        Some(ActionModel::CpuSeconds)
    } else if n < from - 1 {
        if n % 2 == 0 {
            let (cols, rows) = storm_size(p, ((n - 2) / 2) as nat);
            Some(ActionModel::Resize { cols, rows })
        } else {
            Some(ActionModel::Pause { millis: 10 })
        }
    } else if n == from - 1 {
        Some(ActionModel::Resize { cols: p.terminal_cols, rows: p.terminal_rows })
    } else {
        match settled_at(p, events) {
            None => if (n - from) % 2 == 0 {
                Some(ActionModel::ProbeSize { tag: probe_tag(((n - from) / 2 + 1) as nat) })
            } else {
                Some(ActionModel::Drain { millis: 200 })
            },
            Some(at) => if n == at + 1 {
                Some(ActionModel::CpuSince { seconds: plan::number_in(events[1]) })
            } else if n == at + 2 {
                Some(ActionModel::Drain { millis: 50 })
            } else if n == at + 3 {
                Some(
                    ActionModel::QuickRss {
                        window: plan::QUICK_WINDOW,
                        interval: plan::QUICK_INTERVAL,
                    },
                )
            } else if n == at + 4 {
                Some(
                    ActionModel::CheckTag {
                        tag: probe_tag(((at - from) / 2 + 1) as nat) + ":"@,
                    },
                )
            } else {
                None
            },
        }
    }
}

/// A size as rows and columns in parentheses.
pub open spec fn size_text(size: (u16, u16)) -> Seq<char> {
    "("@ + decimal::decimal(size.0 as nat) + ", "@ + decimal::decimal(size.1 as nat) + ")"@
}

pub open spec fn storm_metadata(p: ProfileRecordModel, size: (u16, u16), probes: nat) -> Seq<
    (Seq<char>, Seq<char>),
> {
    seq![
        (
            "pane_size_rows_cols"@,
            decimal::decimal(size.0 as nat) + " "@ + decimal::decimal(size.1 as nat),
        ),
        ("resize_iterations"@, decimal::decimal(p.resize_iterations as nat)),
        (
            "scrollback_lines_before_storm"@,
            decimal::decimal((p.output_lines * p.output_iterations) as nat),
        ),
        ("settle_probes"@, decimal::decimal(probes)),
    ]
}

/// Why the storm failed.
pub open spec fn storm_error(p: ProfileRecordModel, events: Seq<EventModel>) -> Seq<char> {
    let last = events.len() - 1;
    if plan::fails(events, last) {
        plan::error_of(events, last)
    } else {
        "pane size "@ + size_text(size_in(events[last])) + " did not return to "@ + size_text(
            size_in(events[0]),
        ) + " within 20 s of the final resize after "@ + decimal::decimal(
            ((last - settling_from(p)) / 2 + 1) as nat,
        ) + " probes"@
    }
}

/// What is written down of the storm.
pub open spec fn storm_outcome(p: ProfileRecordModel, events: Seq<EventModel>) -> RecordModel {
    let last = events.len() - 1;
    let none = RecordModel::empty();
    if p.resize_iterations == 0 {
        none
    } else if plan::fails(events, last) || storm_timed_out(p, events) {
        let error = storm_error(p, events);
        none.error("resize storm: "@ + error).failed(STORM_SETTLE@, error)
    } else {
        let at = settled_at(p, events).unwrap();
        let probes = ((at - settling_from(p)) / 2 + 1) as nat;
        let data = storm_metadata(p, size_in(events[0]), probes);
        none.draft(
            plan::measured(
                STORM_SETTLE@,
                "ms"@,
                MetricDirection::Lower,
                seq![plan::number_in(events[at])],
                SETTLE_NOTE@,
                data,
            ),
        ).draft(
            plan::measured(
                "resize_storm_cpu"@,
                "ms CPU"@,
                MetricDirection::Lower,
                seq![plan::number_in(events[at + 1])],
                STORM_CPU_NOTE@,
                data,
            ),
        ).draft(
            plan::measured(
                "resize_storm_rss"@,
                "KiB"@,
                MetricDirection::Lower,
                seq![plan::number_in(events[at + 3])],
                STORM_RSS_NOTE@,
                data,
            ),
        )
    }
}

pub fn shrink(size: u16, by: u16, floor: u16) -> (r: u16)
    ensures
        r == shrunk(size, by as int, floor),
{
    if size > by && size - by > floor {
        size - by
    } else {
        floor
    }
}

proof fn lemma_storm_step(index: int, factor: int, n: int)
    requires
        n > 0,
    ensures
        (index * factor) % n == ((index % n) * factor) % n,
{
    vstd::arithmetic::div_mod::lemma_mul_mod_noop_left(index, factor, n);
}

/// The window size of one step of the burst.
pub fn storm_geometry(p: &ProfileRecord, index: usize) -> (r: (u16, u16))
    ensures
        r == storm_size(p@, index as nat),
{
    proof {
        lemma_storm_step(index as int, 13, 40);
        lemma_storm_step(index as int, 7, 16);
    }
    let narrow: u16 = 10 + (((index % 40) * 13) % 40) as u16;
    let flat: u16 = 4 + (((index % 16) * 7) % 16) as u16;
    (shrink(p.terminal_cols, narrow, 40), shrink(p.terminal_rows, flat, 10))
}

fn size_of(e: &Event) -> (r: (u16, u16))
    ensures
        r == size_in(e@),
{
    match e {
        Event::Size { rows, cols, .. } => (*rows, *cols),
        _ => (0, 0),
    }
}

fn tag_text(n: usize) -> (r: String)
    ensures
        r@ == probe_tag(n as nat),
{
    text::cat("SZ".to_owned(), decimal::decimal_text(n as u64).as_str())
}

fn find_size(events: &Vec<Event>, size: (u16, u16), from: usize) -> (r: Option<usize>)
    ensures
        match r {
            Some(i) => i < events@.len() && from <= i && (i - from) % 2 == 0 && shows_size(
                plan::events_of(events@),
                size,
                from as int,
            ) == Some(i as int),
            None => shows_size(plan::events_of(events@), size, from as int) is None,
        },
{
    let ghost view = plan::events_of(events@);
    let total: usize = events.len();
    assert(view.len() == total);
    if from >= total {
        return None;
    }
    let mut i: usize = from;
    loop
        invariant
            from <= i < total,
            (i - from) % 2 == 0,
            total == events@.len(),
            view == plan::events_of(events@),
            view.len() == total,
            shows_size(view, size, from as int) == shows_size(view, size, i as int),
        decreases total - i,
    {
        assert(view[i as int] == events@[i as int]@);
        let shown: bool = match &events[i] {
            Event::Size { rows, cols, .. } => *rows == size.0 && *cols == size.1,
            _ => false,
        };
        if shown {
            return Some(i);
        }
        if total - i <= 2 {
            assert(shows_size(view, size, i + 2) is None);
            return None;
        }
        i = i + 2;
    }
}

/// How far the storm is: the index of the first settle probe, where the burst is over.
fn burst_over(p: &ProfileRecord, done: usize) -> (r: Option<usize>)
    ensures
        match r {
            Some(from) => from == settling_from(p@) && done >= from,
            None => done < settling_from(p@),
        },
{
    if done >= 3 && (done - 3) / 2 >= p.resize_iterations {
        Some(3 + 2 * p.resize_iterations)
    } else {
        None
    }
}

fn has_timed_out(p: &ProfileRecord, events: &Vec<Event>) -> (r: bool)
    ensures
        r == storm_timed_out(p@, plan::events_of(events@)),
{
    let ghost view = plan::events_of(events@);
    let done: usize = events.len();
    assert(view.len() == done);
    if done == 0 {
        return false;
    }
    match burst_over(p, done - 1) {
        Some(from) => {
            assert(view[done - 1] == events@[done - 1]@);
            assert(view[0] == events@[0]@);
            let late: bool = match &events[done - 1] {
                Event::Size { age, .. } => *age >= SETTLE_MILLIS,
                _ => false,
            };
            late && find_size(events, size_of(&events[0]), from).is_none()
        },
        None => false,
    }
}

/// The next step of the resize storm.
pub fn storm_next(p: &ProfileRecord, events: &Vec<Event>) -> (r: Option<Action>)
    ensures
        plan::opt_action(r) == storm_plan(p@, plan::events_of(events@)),
{
    let ghost view = plan::events_of(events@);
    let n: usize = events.len();
    assert(view.len() == n);
    if p.resize_iterations == 0 || plan::last_failure(events).is_some() || has_timed_out(
        p,
        events,
    ) {
        return None;
    }
    if n == 0 {
        return Some(Action::ProbeSize { tag: tag_text(0) });
    }
    assert(view[0] == events@[0]@);
    if n == 1 {
        return Some(Action::CpuSeconds);
    }
    assert(view[1] == events@[1]@);
    match burst_over(p, n) {
        None => {
            if n % 2 == 0 {
                if (n - 2) / 2 < p.resize_iterations {
                    let (cols, rows): (u16, u16) = storm_geometry(p, (n - 2) / 2);
                    Some(Action::Resize { cols, rows })
                } else {
                    Some(Action::Resize { cols: p.terminal_cols, rows: p.terminal_rows })
                }
            } else {
                Some(Action::Pause { millis: 10 })
            }
        },
        Some(from) => match find_size(events, size_of(&events[0]), from) {
            None => if (n - from) % 2 == 0 {
                Some(Action::ProbeSize { tag: tag_text((n - from) / 2 + 1) })
            } else {
                Some(Action::Drain { millis: 200 })
            },
            Some(at) => if n - at == 1 {
                Some(Action::CpuSince { seconds: plan::number(&events[1]) })
            } else if n - at == 2 {
                Some(Action::Drain { millis: 50 })
            } else if n - at == 3 {
                Some(
                    Action::QuickRss {
                        window: plan::QUICK_WINDOW,
                        interval: plan::QUICK_INTERVAL,
                    },
                )
            } else if n - at == 4 {
                let tag: String = tag_text((at - from) / 2 + 1);
                Some(Action::CheckTag { tag: text::cat(tag, ":") })
            } else {
                None
            },
        },
    }
}

fn size_words(size: (u16, u16)) -> (r: String)
    ensures
        r@ == size_text(size),
{
    let rows: String = decimal::decimal_text(size.0 as u64);
    let cols: String = decimal::decimal_text(size.1 as u64);
    text::cat(
        text::cat(text::cat(text::cat("(".to_owned(), rows.as_str()), ", "), cols.as_str()),
        ")",
    )
}

fn storm_metadata_of(p: &ProfileRecord, size: (u16, u16), probes: usize) -> (r: TextMap)
    requires
        p.output_lines * p.output_iterations <= usize::MAX,
    ensures
        r@ == storm_metadata(p@, size, probes as nat),
{
    let mut data: TextMap = TextMap::new();
    proof {
        reveal_strlit("pane_size_rows_cols");
        reveal_strlit("resize_iterations");
        reveal_strlit("scrollback_lines_before_storm");
        reveal_strlit("settle_probes");
        text::lemma_before_at("pane_size_rows_cols"@, "resize_iterations"@, 0);
        text::lemma_before_at("resize_iterations"@, "scrollback_lines_before_storm"@, 0);
        text::lemma_before_at("scrollback_lines_before_storm"@, "settle_probes"@, 1);
    }
    let rows: String = decimal::decimal_text(size.0 as u64);
    let cols: String = decimal::decimal_text(size.1 as u64);
    let lines: usize = p.output_lines * p.output_iterations;
    data.append(
        "pane_size_rows_cols",
        text::cat(text::cat(rows, " "), cols.as_str()).as_str(),
    );
    data.append(
        "resize_iterations",
        decimal::decimal_text(p.resize_iterations as u64).as_str(),
    );
    data.append("scrollback_lines_before_storm", decimal::decimal_text(lines as u64).as_str());
    data.append("settle_probes", decimal::decimal_text(probes as u64).as_str());
    assert(data@ =~= storm_metadata(p@, size, probes as nat));
    data
}

fn storm_failure(p: &ProfileRecord, events: &Vec<Event>) -> (r: Option<String>)
    ensures
        ({
            let view = plan::events_of(events@);
            let broken = plan::fails(view, view.len() - 1) || storm_timed_out(p@, view);
            match r {
                Some(e) => broken && e@ == storm_error(p@, view),
                None => !broken,
            }
        }),
{
    let ghost view = plan::events_of(events@);
    let done: usize = events.len();
    assert(view.len() == done);
    match plan::last_failure(events) {
        Some(e) => {
            return Some(e);
        },
        None => {},
    }
    if !has_timed_out(p, events) {
        return None;
    }
    match burst_over(p, done - 1) {
        Some(from) => {
            assert(view[0] == events@[0]@);
            assert(view[done - 1] == events@[done - 1]@);
            let shown: String = size_words(size_of(&events[done - 1]));
            let wanted: String = size_words(size_of(&events[0]));
            let probes: String = decimal::decimal_text(((done - 1 - from) / 2 + 1) as u64);
            let head: String = text::cat(
                text::cat("pane size ".to_owned(), shown.as_str()),
                " did not return to ",
            );
            let named: String = text::cat(
                text::cat(head, wanted.as_str()),
                " within 20 s of the final resize after ",
            );
            Some(text::cat(text::cat(named, probes.as_str()), " probes"))
        },
        None => None,
    }
}

/// What is written down of the resize storm, once no step is left.
pub fn run_resize_storm(p: &ProfileRecord, events: &Vec<Event>) -> (r: Record)
    requires
        p.output_lines * p.output_iterations <= usize::MAX,
        storm_plan(p@, plan::events_of(events@)) is None,
    ensures
        r@ == storm_outcome(p@, plan::events_of(events@)),
{
    let ghost view = plan::events_of(events@);
    let done: usize = events.len();
    assert(view.len() == done);
    let mut record: Record = Record::new();
    if p.resize_iterations == 0 {
        return record;
    }
    match storm_failure(p, events) {
        Some(error) => {
            record.push_error(text::cat("resize storm: ".to_owned(), error.as_str()));
            record.push_failed(STORM_SETTLE, error.as_str());
            return record;
        },
        None => {},
    }
    match burst_over(p, done) {
        Some(from) => {
            assert(view[0] == events@[0]@);
            let size: (u16, u16) = size_of(&events[0]);
            match find_size(events, size, from) {
                Some(at) => {
                    assert(view[at as int] == events@[at as int]@);
                    assert(view[at + 1] == events@[at + 1]@);
                    assert(view[at + 3] == events@[at + 3]@);
                    let probes: usize = (at - from) / 2 + 1;
                    record.push_draft(
                        plan::measured_draft(
                            STORM_SETTLE,
                            "ms",
                            MetricDirection::Lower,
                            plan::one_sample(plan::number(&events[at])),
                            SETTLE_NOTE,
                            storm_metadata_of(p, size, probes),
                        ),
                    );
                    record.push_draft(
                        plan::measured_draft(
                            "resize_storm_cpu",
                            "ms CPU",
                            MetricDirection::Lower,
                            plan::one_sample(plan::number(&events[at + 1])),
                            STORM_CPU_NOTE,
                            storm_metadata_of(p, size, probes),
                        ),
                    );
                    record.push_draft(
                        plan::measured_draft(
                            "resize_storm_rss",
                            "KiB",
                            MetricDirection::Lower,
                            plan::one_sample(plan::number(&events[at + 3])),
                            STORM_RSS_NOTE,
                            storm_metadata_of(p, size, probes),
                        ),
                    );
                },
                None => {},
            }
        },
        None => {},
    }
    record
}

proof fn lemma_shows_size(events: Seq<EventModel>, size: (u16, u16), from: int)
    requires
        0 <= from,
    ensures
        shows_size(events, size, from) matches Some(at) ==> from <= at < events.len() && size_in(
            events[at],
        ) == size && events[at] is Size,
    decreases events.len() + 2 - from,
{
    if from < events.len() {
        lemma_shows_size(events, size, from + 2);
    }
}

/// A storm is measured only where a probe showed the size from before the storm, and every step
/// up to finding that probe on the screen was taken without a failure at the end.
pub proof fn law_measured_storms_have_settled(p: ProfileRecordModel, events: Seq<EventModel>)
    requires
        p.resize_iterations > 0,
        storm_plan(p, events) is None,
        storm_outcome(p, events).errors.len() == 0,
    ensures
        settled_at(p, events) matches Some(at) && size_in(events[at]) == size_in(events[0])
            && settling_from(p) <= at && at + 4 < events.len() && !plan::fails(
            events,
            events.len() - 1,
        ),
{
    lemma_shows_size(events, size_in(events[0]), settling_from(p));
}

/// No size of the burst is the final one, in every window above the least size of the burst.
pub proof fn law_storms_leave_the_final_size(p: ProfileRecordModel, index: nat)
    requires
        p.terminal_cols > 40 || p.terminal_rows > 10,
    ensures
        storm_size(p, index) != (p.terminal_cols, p.terminal_rows),
{
}

/// The sizes of a burst are distinct, in every window that is large enough for all of them.
pub proof fn law_storm_sizes_are_distinct(p: ProfileRecordModel, i: nat, j: nat)
    requires
        p.terminal_cols >= 90,
        p.terminal_rows >= 30,
        i < j < i + 80,
    ensures
        storm_size(p, i) != storm_size(p, j),
{
    let d = j - i;
    if storm_size(p, i) == storm_size(p, j) {
        assert((i * 13) % 40 == (j * 13) % 40);
        assert((i * 7) % 16 == (j * 7) % 16);
        let k = (j * 13) / 40 - (i * 13) / 40;
        assert(13 * d == 40 * k);
        assert(d == 40 * (37 * k - 12 * d));
        let m = (j * 7) / 16 - (i * 7) / 16;
        assert(7 * d == 16 * m);
        assert(d == 16 * (7 * m - 3 * d));
        assert(d % 40 == 0);
        assert(d % 16 == 0);
        assert(d == 40);
    }
}

// ---------------------------------------------------------------------------------------------
// What the echo of the input shows
// ---------------------------------------------------------------------------------------------

/// The character does not occur in the text.
pub open spec fn lacks(s: Seq<char>, c: char) -> bool {
    forall|i: int| 0 <= i < s.len() ==> #[trigger] s[i] != c
}

proof fn lemma_lacks_both(a: Seq<char>, b: Seq<char>, c: char)
    requires
        lacks(a, c),
        lacks(b, c),
    ensures
        lacks(a + b, c),
{
    assert forall|i: int| 0 <= i < (a + b).len() implies #[trigger] (a + b)[i] != c by {
        if i < a.len() {
            assert((a + b)[i] == a[i]);
        } else {
            assert((a + b)[i] == b[i - a.len()]);
        }
    }
}

proof fn lemma_lacks_apart(s: Seq<char>, needle: Seq<char>, i: int)
    requires
        0 <= i < needle.len(),
        lacks(s, needle[i]),
    ensures
        !text::contains(s, needle),
{
    if text::contains(s, needle) {
        let k = choose|k: int| text::at(s, needle, k);
        assert(s.subrange(k, k + needle.len())[i] == s[k + i]);
    }
}

proof fn lemma_octal_lacks(s: Seq<char>, c: char)
    requires
        !oracle::octal_char(c),
    ensures
        lacks(oracle::octal(s), c),
{
    oracle::lemma_octal_chars(vstd::utf8::encode_utf8(s));
}

/// What is typed in a latency trial does not hold the marker, so its echo cannot be taken for the
/// output.
pub proof fn law_echo_does_not_show_the_latency_marker(iteration: nat)
    ensures
        !text::contains(latency_line(iteration), oracle::marker(iteration)),
{
    let line = latency_line(iteration);
    let marker = oracle::marker(iteration);
    let head = "printf '\\033[2J\\033[H"@;
    let middle = oracle::octal(marker);
    reveal_strlit("printf '\\033[2J\\033[H");
    reveal_strlit("\\n'");
    oracle::lemma_octal_chars(vstd::utf8::encode_utf8(marker));
    assert forall|i: int| 0 <= i < line.len() && 'A' <= #[trigger] line[i] <= 'Z' implies i == 14
        || i == 20 by {
        if i < head.len() {
            assert(line[i] == head[i]);
        } else if i < head.len() + middle.len() {
            assert(line[i] == middle[i - head.len()]);
            assert(oracle::octal_char(middle[i - head.len()]));
        } else {
            assert(line[i] == "\\n'"@[i - head.len() - middle.len()]);
        }
    }
    if text::contains(line, marker) {
        let k = choose|k: int| text::at(line, marker, k);
        let shown = line.subrange(k, k + marker.len());
        assert(shown[0] == line[k]);
        assert(shown[1] == line[k + 1]);
        assert(marker[0] as int == 65 + iteration % 26);
        assert(marker[1] == marker[0]);
    }
}

/// What is typed for a burst does not hold the text that ends it.
pub proof fn law_echo_does_not_show_the_end_of_a_burst(lines: nat, iteration: nat)
    ensures
        !text::contains(output_line(lines, iteration), end_marker(iteration)),
{
    let a = "i=0; while [ \"$i\" -lt "@;
    let b = " ]; do printf '%08d "@;
    let c = "\\n' \"$i\"; i=$((i+1)); done; printf '"@;
    let d = "\\n'"@;
    reveal_strlit("i=0; while [ \"$i\" -lt ");
    reveal_strlit(" ]; do printf '%08d ");
    reveal_strlit("\\n' \"$i\"; i=$((i+1)); done; printf '");
    reveal_strlit("\\n'");
    reveal_strlit("UTC_OUTPUT_WORKLOAD_END_");
    let count = decimal::decimal(lines);
    let payload = oracle::payload(iteration);
    let octal = oracle::octal(end_marker(iteration));
    decimal::lemma_decimal(lines);
    assert forall|i: int| 0 <= i < count.len() implies #[trigger] count[i] != '_' by {
        assert(text::digit(count[i]));
    }
    assert forall|i: int| 0 <= i < payload.len() implies #[trigger] payload[i] != '_' by {
        let k = (iteration as int + i) % 62;
        assert(oracle::alphabet(k) as int == if k < 10 {
            48 + k
        } else if k < 36 {
            87 + k
        } else {
            29 + k
        });
    }
    lemma_octal_lacks(end_marker(iteration), '_');
    lemma_lacks_both(a, count, '_');
    lemma_lacks_both(a + count, b, '_');
    lemma_lacks_both(a + count + b, payload, '_');
    lemma_lacks_both(a + count + b + payload, c, '_');
    lemma_lacks_both(a + count + b + payload + c, octal, '_');
    lemma_lacks_both(a + count + b + payload + c + octal, d, '_');
    assert(end_marker(iteration)[3] == '_');
    lemma_lacks_apart(output_line(lines, iteration), end_marker(iteration), 3);
}

/// What is typed to learn a size does not hold the tag of its probe.
pub proof fn law_echo_does_not_show_a_probe(n: nat)
    ensures
        !text::contains(probe_line(probe_tag(n) + ":"@), probe_tag(n) + ":"@),
{
    let prefix = probe_tag(n) + ":"@;
    let head = "printf '"@;
    let tail = "%s:\\n' \"$(stty size)\""@;
    reveal_strlit("printf '");
    reveal_strlit("%s:\\n' \"$(stty size)\"");
    reveal_strlit("SZ");
    lemma_octal_lacks(prefix, 'S');
    lemma_lacks_both(head, oracle::octal(prefix), 'S');
    lemma_lacks_both(head + oracle::octal(prefix), tail, 'S');
    assert(prefix[0] == 'S');
    lemma_lacks_apart(probe_line(prefix), prefix, 0);
}

/// A line of a burst, with its number, a space, its payload and its line feed, has a fixed length.
pub proof fn law_lines_have_a_fixed_length(index: nat, iteration: nat)
    requires
        index < 100_000_000,
    ensures
        text::pad_left(decimal::decimal(index), 8, '0').len() + 1 + oracle::payload(iteration).len()
            + 1 == LINE_BYTES,
{
    reveal_with_fuel(decimal::decimal, 9);
    assert(decimal::decimal(index).len() <= 8);
}

} // verus!
