use ut_compare::lifecycle::{launch, launch_next, LaunchEvent, LaunchStep};
use ut_compare::measure::Real;

fn value(x: f64) -> Real {
    Real { bits: x.to_bits() }
}

fn output(text: &str) -> LaunchEvent {
    LaunchEvent::Output {
        output: text.to_owned(),
    }
}

fn ready() -> LaunchEvent {
    LaunchEvent::Ready { millis: value(7.5) }
}

fn failed() -> LaunchEvent {
    LaunchEvent::Failed {
        error: "broken".to_owned(),
    }
}

/// The steps that are asked for while the given events come back.
fn steps(adapter: &str, list: Vec<LaunchEvent>) -> (Vec<LaunchStep>, Result<(u32, Real), String>) {
    let mut asked = Vec::new();
    let mut events = Vec::new();
    let mut list = list.into_iter();
    while let Some(step) = launch_next(adapter, &events) {
        asked.push(step);
        events.push(list.next().unwrap_or(LaunchEvent::Done));
    }
    let outcome = launch(adapter, &events);
    (asked, outcome)
}

#[test]
fn uniterm_is_found_after_it_is_ready() {
    let (asked, outcome) = steps(
        "uniterm",
        vec![
            LaunchEvent::Done,
            output("workspace started"),
            ready(),
            LaunchEvent::Process { pid: 42 },
        ],
    );
    assert_eq!(
        asked,
        vec![
            LaunchStep::Snapshot,
            LaunchStep::Command,
            LaunchStep::WaitReady,
            LaunchStep::Discover,
        ]
    );
    assert_eq!(outcome.unwrap(), (42, value(7.5)));
    let (asked, outcome) = steps("uniterm", vec![LaunchEvent::Done, output("no")]);
    assert_eq!(asked, vec![LaunchStep::Snapshot, LaunchStep::Command]);
    assert_eq!(
        outcome.unwrap_err(),
        "Uniterm did not report startup readiness: no"
    );
}

#[test]
fn herdr_runs_as_a_child() {
    let (asked, outcome) = steps(
        "herdr",
        vec![LaunchEvent::Done, LaunchEvent::Process { pid: 9 }, ready()],
    );
    assert_eq!(
        asked,
        vec![LaunchStep::Snapshot, LaunchStep::Spawn, LaunchStep::WaitReady]
    );
    assert_eq!(outcome.unwrap(), (9, value(7.5)));
    let (asked, outcome) = steps("herdr", vec![LaunchEvent::Done, failed()]);
    assert_eq!(asked.len(), 2);
    assert_eq!(outcome.unwrap_err(), "broken");
}

#[test]
fn tmux_is_stopped_when_its_launch_fails() {
    let (asked, outcome) = steps("tmux", vec![LaunchEvent::Done, output("77\n"), ready()]);
    assert_eq!(
        asked,
        vec![LaunchStep::Snapshot, LaunchStep::Command, LaunchStep::WaitReady]
    );
    assert_eq!(outcome.unwrap(), (77, value(7.5)));

    let (asked, outcome) = steps("tmux", vec![failed()]);
    assert_eq!(asked, vec![LaunchStep::Snapshot]);
    assert_eq!(outcome.unwrap_err(), "broken");

    for (list, error) in [
        (vec![LaunchEvent::Done, failed()], "broken"),
        (vec![LaunchEvent::Done, output("77"), failed()], "broken"),
        (
            vec![LaunchEvent::Done, output("started"), ready()],
            "invalid tmux server PID: \"started\"",
        ),
        (
            vec![LaunchEvent::Done, output("started"), failed(), failed()],
            "broken",
        ),
    ] {
        let (asked, outcome) = steps("tmux", list);
        assert_eq!(asked.last(), Some(&LaunchStep::Abort));
        assert_eq!(outcome.unwrap_err(), error);
    }
}

#[test]
fn other_products_are_not_launched() {
    let (asked, outcome) = steps("screen", vec![LaunchEvent::Done]);
    assert_eq!(asked, vec![LaunchStep::Snapshot]);
    assert_eq!(outcome.unwrap_err(), "unsupported adapter screen");
    let (asked, outcome) = steps("screen", vec![failed()]);
    assert_eq!(asked.len(), 1);
    assert_eq!(outcome.unwrap_err(), "broken");
}
