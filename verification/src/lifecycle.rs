//! How a server is brought up: each product's own start command, a readiness probe that is the
//! same for all, and the way to its process.

use vstd::prelude::*;
use crate::adapters;
use crate::measure::Real;
use crate::text;

verus! {

/// A step of a launch.
#[derive(Debug, Clone, Copy, PartialEq, Eq, Structural)]
pub enum LaunchStep {
    /// Lists the processes; the launch is timed from here on: `Done`.
    Snapshot,
    /// Runs the start command to its end: `Output`.
    Command,
    /// Starts the server as a process of its own: `Process`.
    Spawn,
    /// Waits until the panes can be listed: `Ready`.
    WaitReady,
    /// Looks for the server among the processes that are new: `Process`.
    Discover,
    /// Stops whatever server has come up.
    Abort,
}

/// What came of a step.
#[derive(Debug)]
pub enum LaunchEvent {
    Done,
    Failed { error: String },
    Output { output: String },
    Process { pid: u32 },
    /// So many milliseconds after the launch began.
    Ready { millis: Real },
}

/// What a `LaunchEvent` says.
pub ghost enum LaunchEventModel {
    Done,
    Failed { error: Seq<char> },
    Output { output: Seq<char> },
    Process { pid: u32 },
    Ready { millis: Real },
}

impl View for LaunchEvent {
    type V = LaunchEventModel;

    open spec fn view(&self) -> LaunchEventModel {
        match self {
            LaunchEvent::Done => LaunchEventModel::Done,
            LaunchEvent::Failed { error } => LaunchEventModel::Failed { error: error@ },
            LaunchEvent::Output { output } => LaunchEventModel::Output { output: output@ },
            LaunchEvent::Process { pid } => LaunchEventModel::Process { pid: *pid },
            LaunchEvent::Ready { millis } => LaunchEventModel::Ready { millis: *millis },
        }
    }
}

pub open spec fn events_of(list: Seq<LaunchEvent>) -> Seq<LaunchEventModel> {
    list.map_values(|e: LaunchEvent| e@)
}

/// The error of the event at the index, where it is a failure.
pub open spec fn error_at(events: Seq<LaunchEventModel>, i: int) -> Option<Seq<char>> {
    if 0 <= i < events.len() {
        match events[i] {
            LaunchEventModel::Failed { error } => Some(error),
            _ => None,
        }
    } else {
        None
    }
}

pub open spec fn output_at(events: Seq<LaunchEventModel>, i: int) -> Seq<char> {
    match events[i] {
        LaunchEventModel::Output { output } => output,
        _ => ""@,
    }
}

pub open spec fn process_at(events: Seq<LaunchEventModel>, i: int) -> u32 {
    match events[i] {
        LaunchEventModel::Process { pid } => pid,
        _ => 0,
    }
}

pub open spec fn millis_at(events: Seq<LaunchEventModel>, i: int) -> Real {
    match events[i] {
        LaunchEventModel::Ready { millis } => millis,
        _ => Real { bits: 0 },
    }
}

/// The steps of a product, one after the other.
pub open spec fn steps(adapter: Seq<char>) -> Seq<LaunchStep> {
    if adapter == "uniterm"@ {
        seq![
            LaunchStep::Snapshot,
            LaunchStep::Command,
            LaunchStep::WaitReady,
            LaunchStep::Discover,
        ]
    } else if adapter == "herdr"@ {
        seq![LaunchStep::Snapshot, LaunchStep::Spawn, LaunchStep::WaitReady]
    } else if adapter == "tmux"@ {
        seq![LaunchStep::Snapshot, LaunchStep::Command, LaunchStep::WaitReady]
    } else {
        seq![LaunchStep::Snapshot]
    }
}

/// Why the first `upto` steps have failed, where they have.
pub open spec fn fault(adapter: Seq<char>, events: Seq<LaunchEventModel>, upto: int) -> Option<
    Seq<char>,
>
    decreases upto,
{
    if upto <= 0 {
        None
    } else {
        match fault(adapter, events, upto - 1) {
            Some(error) => Some(error),
            None => match error_at(events, upto - 1) {
                Some(error) => Some(error),
                None => step_fault(adapter, events, upto - 1),
            },
        }
    }
}

/// Why a step that was done does not count: Uniterm must say that it has started, and tmux,
/// once it is ready, must have named its own process.
pub open spec fn step_fault(adapter: Seq<char>, events: Seq<LaunchEventModel>, i: int) -> Option<
    Seq<char>,
> {
    if adapter == "uniterm"@ && i == 1 {
        if text::contains(output_at(events, 1), "started"@) {
            None
        } else {
            Some("Uniterm did not report startup readiness: "@ + output_at(events, 1))
        }
    } else if adapter == "tmux"@ && i == 2 {
        match adapters::server_pid(output_at(events, 1)) {
            Some(_) => None,
            None => Some(
                "invalid tmux server PID: "@ + text::debugged(output_at(events, 1)),
            ),
        }
    } else {
        None
    }
}

/// The number of events up to the first failure, or to the last step.
pub open spec fn reached(adapter: Seq<char>, events: Seq<LaunchEventModel>) -> int {
    if events.len() < steps(adapter).len() {
        events.len() as int
    } else {
        steps(adapter).len() as int
    }
}

/// Why the launch has failed, where it has.
pub open spec fn broken(adapter: Seq<char>, events: Seq<LaunchEventModel>) -> Option<Seq<char>> {
    fault(adapter, events, reached(adapter, events))
}

/// Whether the launch has failed before its last event, so that only its clean-up followed.
pub open spec fn cleaned(adapter: Seq<char>, events: Seq<LaunchEventModel>) -> bool {
    events.len() > 0 && broken(adapter, events.drop_last()) is Some
}

/// The next step. Where tmux was asked to start and something went wrong, its server is stopped.
pub open spec fn launch_plan(adapter: Seq<char>, events: Seq<LaunchEventModel>) -> Option<
    LaunchStep,
> {
    let n = events.len() as int;
    if cleaned(adapter, events) {
        None
    } else if broken(adapter, events) is Some {
        if adapter == "tmux"@ && n > 1 {
            Some(LaunchStep::Abort)
        } else {
            None
        }
    } else if n < steps(adapter).len() {
        Some(steps(adapter)[n])
    } else {
        None
    }
}

/// What the launch has come to: the server's process, and how long it took to be ready.
pub open spec fn launch_outcome(adapter: Seq<char>, events: Seq<LaunchEventModel>) -> Result<
    (u32, Real),
    Seq<char>,
> {
    let done = if cleaned(adapter, events) {
        events.drop_last()
    } else {
        events
    };
    match broken(adapter, done) {
        Some(error) => Err(error),
        None => if adapter == "uniterm"@ {
            Ok((process_at(done, 3), millis_at(done, 2)))
        } else if adapter == "herdr"@ {
            Ok((process_at(done, 1), millis_at(done, 2)))
        } else if adapter == "tmux"@ {
            match adapters::server_pid(output_at(done, 1)) {
                Some(pid) => Ok((pid, millis_at(done, 2))),
                None => Err(""@),
            }
        } else {
            Err("unsupported adapter "@ + adapter)
        },
    }
}

fn step_count(adapter: &str) -> (r: usize)
    ensures
        r == steps(adapter@).len(),
{
    proof {
        reveal_strlit("uniterm");
        reveal_strlit("herdr");
        reveal_strlit("tmux");
    }
    if text::same(adapter, "uniterm") {
        4
    } else if text::same(adapter, "herdr") || text::same(adapter, "tmux") {
        3
    } else {
        1
    }
}

fn step_at(adapter: &str, n: usize) -> (r: LaunchStep)
    requires
        n < steps(adapter@).len(),
    ensures
        r == steps(adapter@)[n as int],
{
    proof {
        reveal_strlit("uniterm");
        reveal_strlit("herdr");
        reveal_strlit("tmux");
        assert("uniterm"@.len() == 7 && "herdr"@.len() == 5 && "tmux"@.len() == 4);
    }
    if n == 0 {
        LaunchStep::Snapshot
    } else if n == 1 {
        if text::same(adapter, "herdr") {
            LaunchStep::Spawn
        } else {
            LaunchStep::Command
        }
    } else if n == 2 {
        LaunchStep::WaitReady
    } else {
        LaunchStep::Discover
    }
}

fn failure(event: &LaunchEvent) -> (r: Option<String>)
    ensures
        match r {
            Some(e) => event@ == (LaunchEventModel::Failed { error: e@ }),
            None => !(event@ is Failed),
        },
{
    match event {
        LaunchEvent::Failed { error } => Some(error.clone()),
        _ => None,
    }
}

fn output(events: &Vec<LaunchEvent>, i: usize) -> (r: String)
    requires
        i < events@.len(),
    ensures
        r@ == output_at(events_of(events@), i as int),
{
    assert(events_of(events@)[i as int] == events@[i as int]@);
    match &events[i] {
        LaunchEvent::Output { output } => output.clone(),
        _ => "".to_owned(),
    }
}

fn process(events: &Vec<LaunchEvent>, i: usize) -> (r: u32)
    requires
        i < events@.len(),
    ensures
        r == process_at(events_of(events@), i as int),
{
    assert(events_of(events@)[i as int] == events@[i as int]@);
    match &events[i] {
        LaunchEvent::Process { pid } => *pid,
        _ => 0,
    }
}

fn millis(events: &Vec<LaunchEvent>, i: usize) -> (r: Real)
    requires
        i < events@.len(),
    ensures
        r == millis_at(events_of(events@), i as int),
{
    assert(events_of(events@)[i as int] == events@[i as int]@);
    match &events[i] {
        LaunchEvent::Ready { millis } => *millis,
        _ => Real { bits: 0 },
    }
}

fn check_step(adapter: &str, events: &Vec<LaunchEvent>, i: usize) -> (r: Option<String>)
    requires
        i < events@.len(),
    ensures
        text::opt_text(r) == step_fault(adapter@, events_of(events@), i as int),
{
    if i == 1 && text::same(adapter, "uniterm") {
        return match adapters::uniterm_started(output(events, 1).as_str()) {
            Ok(_) => None,
            Err(error) => Some(error),
        };
    }
    if i == 2 && text::same(adapter, "tmux") {
        return match adapters::parse_server_pid(output(events, 1).as_str()) {
            Ok(_) => None,
            Err(error) => Some(error),
        };
    }
    None
}

/// Why the first `upto` steps have failed, where they have.
fn first_fault(adapter: &str, events: &Vec<LaunchEvent>, upto: usize) -> (r: Option<String>)
    requires
        upto <= events@.len(),
    ensures
        text::opt_text(r) == fault(adapter@, events_of(events@), upto as int),
{
    let ghost view = events_of(events@);
    let mut i: usize = 0;
    while i < upto
        invariant
            i <= upto <= events@.len(),
            view == events_of(events@),
            fault(adapter@, view, i as int) is None,
        decreases upto - i,
    {
        assert(view[i as int] == events@[i as int]@);
        let found: Option<String> = match failure(&events[i]) {
            Some(error) => Some(error),
            None => check_step(adapter, events, i),
        };
        assert(text::opt_text(found) == fault(adapter@, view, i + 1));
        if found.is_some() {
            proof {
                lemma_fault_stays(adapter@, view, i + 1, upto as int);
            }
            return found;
        }
        i = i + 1;
    }
    None
}

proof fn lemma_fault_stays(adapter: Seq<char>, events: Seq<LaunchEventModel>, a: int, b: int)
    requires
        0 <= a <= b,
        fault(adapter, events, a) is Some,
    ensures
        fault(adapter, events, b) == fault(adapter, events, a),
    decreases b - a,
{
    if a < b {
        lemma_fault_stays(adapter, events, a, b - 1);
    }
}

/// What has failed does not depend on what came after.
proof fn lemma_fault_of_prefix(
    adapter: Seq<char>,
    events: Seq<LaunchEventModel>,
    n: int,
    upto: int,
)
    requires
        upto <= n <= events.len(),
        0 <= n,
    ensures
        fault(adapter, events.take(n), upto) == fault(adapter, events, upto),
    decreases upto,
{
    if upto > 0 {
        lemma_fault_of_prefix(adapter, events, n, upto - 1);
        let front = events.take(n);
        assert(front[upto - 1] == events[upto - 1]);
        if upto >= 2 {
            assert(front[1] == events[1]);
        }
    }
}

fn is_cleaned(adapter: &str, events: &Vec<LaunchEvent>) -> (r: bool)
    ensures
        r == cleaned(adapter@, events_of(events@)),
{
    let ghost view = events_of(events@);
    let n: usize = events.len();
    assert(view.len() == n);
    if n == 0 {
        return false;
    }
    let count: usize = step_count(adapter);
    let upto: usize = if n - 1 < count {
        n - 1
    } else {
        count
    };
    proof {
        assert(view.drop_last() =~= view.take(n - 1));
        lemma_fault_of_prefix(adapter@, view, n - 1, upto as int);
    }
    first_fault(adapter, events, upto).is_some()
}

/// The next step of a launch.
pub fn launch_next(adapter: &str, events: &Vec<LaunchEvent>) -> (r: Option<LaunchStep>)
    ensures
        r == launch_plan(adapter@, events_of(events@)),
{
    let n: usize = events.len();
    assert(events_of(events@).len() == n);
    if is_cleaned(adapter, events) {
        return None;
    }
    let count: usize = step_count(adapter);
    let upto: usize = if n < count {
        n
    } else {
        count
    };
    if first_fault(adapter, events, upto).is_some() {
        if n > 1 && text::same(adapter, "tmux") {
            return Some(LaunchStep::Abort);
        }
        return None;
    }
    if n < count {
        Some(step_at(adapter, n))
    } else {
        None
    }
}

/// What a launch has come to, once no step is left.
pub fn launch(adapter: &str, events: &Vec<LaunchEvent>) -> (r: Result<(u32, Real), String>)
    requires
        launch_plan(adapter@, events_of(events@)) is None,
    ensures
        match r {
            Ok(found) => launch_outcome(adapter@, events_of(events@)) == Ok::<
                (u32, Real),
                Seq<char>,
            >(found),
            Err(error) => launch_outcome(adapter@, events_of(events@)) == Err::<
                (u32, Real),
                Seq<char>,
            >(error@),
        },
{
    let ghost view = events_of(events@);
    let n: usize = events.len();
    assert(view.len() == n);
    let count: usize = step_count(adapter);
    let upto: usize = if n < count {
        n
    } else {
        count
    };
    let cleaned: bool = is_cleaned(adapter, events);
    proof {
        if cleaned {
            let front = view.drop_last();
            assert(front =~= view.take(n - 1));
            let shorter = reached(adapter@, front);
            lemma_fault_of_prefix(adapter@, view, n - 1, shorter);
            lemma_fault_stays(adapter@, view, shorter, upto as int);
        }
    }
    match first_fault(adapter, events, upto) {
        Some(error) => {
            return Err(error);
        },
        None => {},
    }
    proof {
        reveal_strlit("uniterm");
        reveal_strlit("herdr");
        reveal_strlit("tmux");
        assert(!cleaned);
    }
    if text::same(adapter, "uniterm") {
        Ok((process(events, 3), millis(events, 2)))
    } else if text::same(adapter, "herdr") {
        Ok((process(events, 1), millis(events, 2)))
    } else if text::same(adapter, "tmux") {
        assert(step_fault(adapter@, view, 2) is None);
        match adapters::parse_server_pid(output(events, 1).as_str()) {
            Ok(pid) => Ok((pid, millis(events, 2))),
            Err(_) => Err("".to_owned()),
        }
    } else {
        Err(text::cat("unsupported adapter ".to_owned(), adapter))
    }
}

/// A launch that has not gone through leaves no tmux server behind: once tmux was asked to start,
/// the last step of every launch that fails stops it.
pub proof fn law_failed_launches_are_cleaned_up(events: Seq<LaunchEventModel>)
    requires
        events.len() > 0,
        error_at(events, 0) is None,
        launch_plan("tmux"@, events.drop_last()) is Some,
        launch_plan("tmux"@, events) is None,
        launch_outcome("tmux"@, events) is Err,
    ensures
        launch_plan("tmux"@, events.drop_last()) == Some(LaunchStep::Abort),
{
    reveal_strlit("uniterm");
    reveal_strlit("herdr");
    reveal_strlit("tmux");
    let adapter = "tmux"@;
    assert(adapter.len() == 4);
    if !cleaned(adapter, events) {
        if events.len() == 1 {
            assert(fault(adapter, events, 0) is None);
            assert(fault(adapter, events, 1) is None);
        }
        assert(broken(adapter, events) is None);
        assert(step_fault(adapter, events, 2) is None);
    }
}

/// What is measured of a launch ends with the readiness probe, before the server's process is
/// looked for: how that search went has no part in it.
pub proof fn law_discovery_is_not_timed(events: Seq<LaunchEventModel>, other: LaunchEventModel)
    requires
        events.len() == 4,
        launch_outcome("uniterm"@, events) is Ok,
        launch_outcome("uniterm"@, events.update(3, other)) is Ok,
    ensures
        launch_outcome("uniterm"@, events)->Ok_0.1 == launch_outcome(
            "uniterm"@,
            events.update(3, other),
        )->Ok_0.1,
{
}

} // verus!
