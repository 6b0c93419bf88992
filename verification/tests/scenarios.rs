use ut_compare::clients::{
    check_extras, check_next, detach_all, extra_geometry, multiclient_next, run_multiclient,
};
use ut_compare::config::{profile, ComparisonConfig, Config, ContenderConfig};
use ut_compare::measure::Real;
use ut_compare::model::{
    ArtifactInfo, BenchmarkStatus, Figures, HostInfo, ProfileRecord, SourceInfo, StaticAnalysis,
};
use ut_compare::oracle::output_payload;
use ut_compare::panes::{close_next, close_one_pane, multipane_next, run_multipane};
use ut_compare::plan::{Action, Event, Record, Resources};
use ut_compare::runner::{
    assemble, binary_size, contender_result, live_sequence, release_warnings, run, run_order,
    run_startup_trials, startup_next, Trial,
};
use ut_compare::suites::{
    live_next, multiclient_suite_next, multipane_suite_next, prime_detached_session, prime_next,
    restart_next, run_fresh_multiclient_suite, run_fresh_multipane_suite, run_live_suite,
    run_restart,
};
use ut_compare::textmap::TextMap;
use ut_compare::workloads::{
    latency_next, latency_samples, output_marker, output_next, probe_next, probe_pane_size,
    run_output_workload, run_resize_storm, storm_geometry, storm_next, LINE_BYTES,
};

fn value(x: f64) -> Real {
    Real { bits: x.to_bits() }
}

fn smoke() -> ProfileRecord {
    profile("smoke").unwrap()
}

fn resources() -> Resources {
    Resources {
        root_cpu: Some(value(1.0)),
        cohort_cpu: None,
        root_rss: vec![value(10.0)],
        cohort_rss: vec![value(20.0), value(30.0)],
        process_counts: vec![value(5.0)],
        median: value(25.0),
        median_text: "25".to_owned(),
    }
}

/// What comes of an action where nothing goes wrong.
fn answer(action: &Action) -> Event {
    match action {
        Action::Start { .. } | Action::Stop | Action::Restart => {
            Event::Timed { millis: value(12.0) }
        }
        Action::Observe { .. } => Event::Observed {
            millis: value(3.0),
            rate: value(4.0),
            bytes: value(5.0),
        },
        Action::SampleServer | Action::SampleClients | Action::SampleRecovery { .. } => {
            Event::Sampled { resources: resources() }
        }
        Action::QuickRss { .. }
        | Action::CpuSeconds
        | Action::CpuSince { .. }
        | Action::StateBytes
        | Action::Fit { .. }
        | Action::Recovery { .. } => Event::Number {
            value: value(7.0),
            shown: "7".to_owned(),
        },
        Action::Commands { .. } | Action::Latency => Event::Series {
            values: vec![value(1.0), value(2.0)],
        },
        Action::ProbeSize { .. } | Action::ReadSize { .. } => Event::Size {
            rows: 40,
            cols: 118,
            millis: value(9.0),
            age: 0,
        },
        Action::Look { .. } => Event::Seen { yes: true },
        Action::CountShells => Event::Count { count: 1 },
        Action::ClosePane { .. } => Event::Closed { retried: false },
        Action::RunOutput
        | Action::RunStorm
        | Action::RunRestart { .. }
        | Action::RunMultipane
        | Action::RunMulticlient
        | Action::RunMultipaneSuite { .. }
        | Action::RunMulticlientSuite { .. } => Event::Recorded {
            record: Record::new(),
        },
        _ => Event::Done,
    }
}

fn drive(
    next: impl Fn(&Vec<Event>) -> Option<Action>,
    reply: impl Fn(usize, &Action) -> Event,
) -> Vec<Event> {
    let mut events = Vec::new();
    while let Some(action) = next(&events) {
        events.push(reply(events.len(), &action));
        assert!(events.len() < 2000, "the scenario does not end");
    }
    events
}

fn all_well(_: usize, action: &Action) -> Event {
    answer(action)
}

fn names(record: &Record) -> Vec<String> {
    let mut out = Vec::new();
    for d in &record.drafts {
        out.push(d.name.clone());
    }
    out
}

fn failure() -> Event {
    Event::Failed { error: "broken".to_owned() }
}

#[test]
fn latency_trials_are_judged_one_by_one() {
    let events = drive(|e| latency_next(3, e), all_well);
    assert_eq!(events.len(), 15);
    assert_eq!(latency_samples(3, &events).unwrap(), vec![value(3.0); 3]);
    let expected = [
        "latency clear: broken",
        "latency input: broken",
        "latency observation: broken",
        "broken",
        "trial 2: broken",
    ];
    for (phase, error) in expected.iter().enumerate() {
        let events = drive(
            |e| latency_next(3, e),
            |i, a| if i == 5 + phase { failure() } else { answer(a) },
        );
        assert_eq!(latency_samples(3, &events).unwrap_err(), *error);
    }
}

#[test]
fn latency_input_hides_its_marker() {
    let events = vec![Event::Done];
    match latency_next(1, &events) {
        Some(Action::Type { line }) => {
            assert_eq!(
                line,
                "printf '\\033[2J\\033[H\\101\\101\\101\\101\\101\\101\\101\\101\\n'"
            );
        }
        other => panic!("{other:?}"),
    }
}

#[test]
fn output_bursts_are_measured_only_where_all_are_intact() {
    let p = smoke();
    let events = drive(|e| output_next(&p, e), all_well);
    let record = run_output_workload(&p, &events);
    assert_eq!(
        names(&record),
        vec![
            "terminal_output_completion",
            "terminal_output_ingest_rate",
            "client_render_output"
        ]
    );
    assert!(record.errors.is_empty());
    assert_eq!(
        record.drafts[2].metadata.get("input_bytes_per_iteration"),
        Some("72000".to_owned())
    );
    let events = drive(
        |e| output_next(&p, e),
        |i, a| if i == 9 { failure() } else { answer(a) },
    );
    let record = run_output_workload(&p, &events);
    assert_eq!(record.drafts.len(), 1);
    assert_eq!(record.drafts[0].status, BenchmarkStatus::Failed);
    assert_eq!(record.errors.len(), 1);
    let drained = drive(
        |e| output_next(&p, e),
        |i, a| if i == 3 { failure() } else { answer(a) },
    );
    assert_eq!(run_output_workload(&p, &drained).drafts.len(), 3);
    assert_eq!(output_marker(1), "UTC_OUTPUT_WORKLOAD_END_01");
}

#[test]
fn sizes_are_probed_until_they_can_be_read() {
    let events = drive(|e| probe_next("SZ1", e), all_well);
    assert_eq!(probe_pane_size("SZ1", &events).unwrap(), (40, 118));
    let events = drive(
        |e| probe_next("SZ1", e),
        |i, a| match a {
            Action::ReadSize { .. } => Event::Unread {
                age: if i > 6 { 1_000 } else { 999 },
                dump: "dump".to_owned(),
            },
            _ => answer(a),
        },
    );
    assert!(probe_pane_size("SZ1", &events).unwrap_err().contains("dump"));
}

#[test]
fn storms_settle_at_the_first_size() {
    let p = smoke();
    let events = drive(|e| storm_next(&p, e), all_well);
    let record = run_resize_storm(&p, &events);
    assert_eq!(
        names(&record),
        vec!["resize_storm_settle", "resize_storm_cpu", "resize_storm_rss"]
    );
    let late = drive(
        |e| storm_next(&p, e),
        |i, a| match a {
            Action::ProbeSize { .. } => Event::Size {
                rows: if i == 0 { 40 } else { 30 },
                cols: 118,
                millis: value(9.0),
                age: if i > 20 { 20_000 } else { 19_999 },
            },
            _ => answer(a),
        },
    );
    let record = run_resize_storm(&p, &late);
    assert_eq!(record.drafts[0].status, BenchmarkStatus::Failed);
    assert!(record.drafts[0].note.contains("(30, 118) did not return to (40, 118)"));
    let mut sizes = Vec::new();
    for i in 0..5 {
        let size = storm_geometry(&p, i);
        assert_ne!(size, (p.terminal_cols, p.terminal_rows));
        sizes.push(size);
    }
    assert_eq!(sizes[0], (110, 36));
}

#[test]
fn a_pane_is_closed_once_its_shell_is_gone() {
    let events = drive(|e| close_next(3, e), all_well);
    assert_eq!(close_one_pane(3, &events), Ok(false));
    for step in 0..events.len() {
        let broken = drive(
            |e| close_next(3, e),
            |i, a| if i == step { failure() } else { answer(a) },
        );
        let _ = close_one_pane(3, &broken);
    }
    let never = drive(
        |e| close_next(3, e),
        |_, a| match a {
            Action::WaitAtMost { .. } => failure(),
            _ => answer(a),
        },
    );
    assert!(close_one_pane(3, &never).is_err());
}

#[test]
fn pane_scaling_records_its_peak_and_its_recovery() {
    let p = smoke();
    let events = drive(|e| multipane_next(&p, e), all_well);
    let record = run_multipane(&p, &events);
    assert_eq!(
        names(&record),
        vec![
            "multipane_4_idle_root_cpu",
            "multipane_4_idle_root_rss",
            "multipane_4_idle_cohort_rss",
            "multipane_process_count",
            "pane_memory_slope",
            "pane_close_recovery",
            "pane_close_rss"
        ]
    );
    for step in 0..events.len() {
        let broken = drive(
            |e| multipane_next(&p, e),
            |i, a| if i == step { failure() } else { answer(a) },
        );
        let partial = run_multipane(&p, &broken);
        assert!(partial.drafts.len() <= record.drafts.len() + 1);
    }
    let mut single = smoke();
    single.pane_count = 1;
    assert!(multipane_next(&single, &Vec::new()).is_none());
}

#[test]
fn extra_clients_are_checked_and_detached_in_turn() {
    let events = drive(|e| check_next(2, "MARK", e), all_well);
    assert_eq!(events.len(), 4);
    assert_eq!(check_extras(&events), None);
    let events = drive(
        |e| check_next(2, "MARK", e),
        |_, a| match a {
            Action::CheckExtra { index: 1, .. } => failure(),
            _ => answer(a),
        },
    );
    assert_eq!(check_extras(&events), Some("broken".to_owned()));
    assert_eq!(drive(|e| detach_all(2, e), all_well).len(), 6);
    assert_eq!(extra_geometry(&smoke(), 0), (100, 34));
    assert_eq!(extra_geometry(&smoke(), 9), (60, 16));
}

#[test]
fn shared_sessions_are_measured_with_every_client() {
    let p = smoke();
    let events = drive(|e| multiclient_next(&p, e), all_well);
    let record = run_multiclient(&p, &events);
    assert_eq!(
        names(&record),
        vec![
            "multiclient_3_input_to_visible",
            "multiclient_3_idle_root_cpu",
            "multiclient_3_idle_root_rss",
            "multiclient_3_idle_cohort_rss"
        ]
    );
    let refused = drive(
        |e| multiclient_next(&p, e),
        |i, a| if i == 0 { failure() } else { answer(a) },
    );
    let record = run_multiclient(&p, &refused);
    assert_eq!(record.errors, vec!["multi-client attach 1: broken"]);
    assert_eq!(record.drafts[0].status, BenchmarkStatus::Failed);
    for step in 0..events.len() {
        let broken = drive(
            |e| multiclient_next(&p, e),
            |i, a| if i == step { failure() } else { answer(a) },
        );
        let _ = run_multiclient(&p, &broken);
    }
}

#[test]
fn priming_names_the_step_that_failed() {
    let events = drive(prime_next, all_well);
    assert_eq!(prime_detached_session(&events), None);
    let attach = drive(prime_next, |i, a| if i == 0 { failure() } else { answer(a) });
    assert_eq!(
        prime_detached_session(&attach),
        Some("attach: broken".to_owned())
    );
}

#[test]
fn restarts_are_context_with_what_they_restored() {
    let events = drive(|e| restart_next("END", e), all_well);
    let record = run_restart("uniterm", "END", &events);
    assert_eq!(names(&record), vec!["restart_ready"]);
    assert_eq!(record.drafts[0].status, BenchmarkStatus::Measured);
    let tmux = run_restart("tmux", "END", &events);
    assert_eq!(
        tmux.drafts[0].metadata.get("native_disk_restoration"),
        Some("not_applicable".to_owned())
    );
    let refused = drive(
        |e| restart_next("END", e),
        |i, a| if i == 0 { failure() } else { answer(a) },
    );
    let record = run_restart("uniterm", "END", &refused);
    assert_eq!(record.errors, vec!["restart: broken"]);
    assert_eq!(record.drafts[0].status, BenchmarkStatus::Failed);
}

#[test]
fn suites_stop_what_they_start() {
    let p = smoke();
    let events = drive(|e| multipane_suite_next(7, e), all_well);
    assert_eq!(
        names(&run_fresh_multipane_suite(7, &events)),
        vec!["multipane_suite_shutdown"]
    );
    let events = drive(|e| multiclient_suite_next(&p, 8, e), all_well);
    assert!(run_fresh_multiclient_suite(&p, 8, &events).errors.is_empty());
    let broken = drive(
        |e| multiclient_suite_next(&p, 8, e),
        |i, a| if i == 0 { failure() } else { answer(a) },
    );
    assert_eq!(
        run_fresh_multiclient_suite(&p, 8, &broken).errors,
        vec!["multi-client suite startup: broken"]
    );
    for step in 0..19 {
        let mut stopped = 0;
        let mut started = 0;
        let mut events = Vec::new();
        while let Some(action) = live_next(&p, 10_000, &events) {
            match action {
                Action::Start { .. } => started += 1,
                Action::Stop => stopped += 1,
                _ => {}
            }
            events.push(if events.len() == step { failure() } else { answer(&action) });
        }
        assert_eq!(started, 1);
        assert_eq!(stopped, if step == 0 { 0 } else { 1 });
        let _ = run_live_suite(&p, 10_000, &events);
    }
}

#[test]
fn a_live_suite_records_its_metrics_in_order() {
    let p = smoke();
    let events = drive(|e| live_next(&p, 10_000, e), all_well);
    let record = run_live_suite(&p, 10_000, &events);
    assert!(record.errors.is_empty());
    assert_eq!(
        names(&record),
        vec![
            "daemon_idle_root_cpu",
            "daemon_idle_root_rss",
            "daemon_idle_cohort_rss",
            "control_command_latency",
            "terminal_input_to_visible",
            "foreground_idle_root_cpu",
            "foreground_idle_root_rss",
            "foreground_idle_cohort_rss",
            "isolated_state_size",
            "live_suite_shutdown"
        ]
    );
    let refused = drive(
        |e| live_next(&p, 10_000, e),
        |i, a| if i == 0 { failure() } else { answer(a) },
    );
    assert_eq!(
        run_live_suite(&p, 10_000, &refused).errors,
        vec!["live suite startup: broken"]
    );
}

fn contender(id: &str, binary: &str) -> ContenderConfig {
    ContenderConfig {
        id: id.to_owned(),
        display_name: id.to_owned(),
        adapter: "uniterm".to_owned(),
        binary: binary.to_owned(),
        source: "/src".to_owned(),
        environment: TextMap::new(),
        assurance: Vec::new(),
    }
}

fn config() -> Config {
    Config {
        comparison: ComparisonConfig {
            title: "t".to_owned(),
            seed: 1,
            keep_workdirs: false,
        },
        contenders: vec![
            contender("one", "/t/release/one"),
            contender("two", "/t/debug/two"),
        ],
    }
}

#[test]
fn startup_rounds_alternate() {
    let order = vec![1, 0];
    let mut seen = Vec::new();
    let mut done = 0;
    while let Some(trial) = startup_next(3, &order, done) {
        assert_eq!(trial.sequence, trial.round * 100 + trial.index);
        seen.push((trial.round, trial.index));
        done += 1;
    }
    assert_eq!(seen, vec![(0, 1), (0, 0), (1, 0), (1, 1), (2, 1), (2, 0)]);
    assert!(startup_next(3, &Vec::new(), 0).is_none());
}

#[test]
fn startup_is_measured_only_where_every_trial_started() {
    let order = vec![0, 1];
    let trials = vec![
        Trial::Stopped { startup: value(1.0), shutdown: value(2.0) },
        Trial::Failed { error: "no".to_owned() },
        Trial::Stuck { startup: value(3.0), error: "hung".to_owned() },
        Trial::Stopped { startup: value(5.0), shutdown: value(6.0) },
    ];
    // The second round runs in reverse: its first trial is that of the second contender.
    let first = run_startup_trials(2, &order, &trials, 0);
    assert_eq!(names(&first), vec!["server_startup_ready", "server_shutdown"]);
    assert_eq!(first.drafts[0].samples, vec![value(1.0), value(5.0)]);
    assert_eq!(first.drafts[1].samples, vec![value(2.0), value(6.0)]);
    let second = run_startup_trials(2, &order, &trials, 1);
    assert_eq!(names(&second), vec!["server_startup_ready"]);
    assert_eq!(second.drafts[0].status, BenchmarkStatus::Failed);
    assert_eq!(
        second.errors,
        vec!["startup trial 1: no", "startup trial teardown: hung"]
    );
}

#[test]
fn runs_are_assembled_and_published() {
    let config = config();
    assert_eq!(run_order(&config), vec![1, 0]);
    assert_eq!(live_sequence(1), 10_001);
    assert_eq!(
        release_warnings(&config),
        vec!["two binary path does not contain a release component: /t/debug/two"]
    );
    let mut contenders = Vec::new();
    for c in &config.contenders {
        let record = binary_size(value(123.0));
        let figures = vec![Figures {
            median: value(123.0),
            mean: value(123.0),
            p95: value(123.0),
            stddev: value(0.0),
        }];
        contenders.push(contender_result(
            c,
            ArtifactInfo {
                path: c.binary.clone(),
                bytes: 123,
                version_output: "uniterm 1.2.3".to_owned(),
                sha256: "a".repeat(64),
            },
            SourceInfo {
                path: "/src".to_owned(),
                commit: None,
                commit_date: None,
                dirty: None,
                package_version: None,
                license: None,
            },
            StaticAnalysis::default(),
            &record,
            &figures,
        ));
    }
    let host = HostInfo {
        os: "linux".to_owned(),
        architecture: "x86_64".to_owned(),
        kernel: "Linux 6.8.0".to_owned(),
        hostname: "private-sentinel".to_owned(),
        logical_cpus: 4,
        rustc: None,
        wsl: false,
        git_dirty_policy: "p".to_owned(),
        cpu_time_source: "ps".to_owned(),
    };
    let raw = assemble(&config, &smoke(), "0.3.0", 1234, host, contenders);
    assert_eq!(raw.run_id, "utc-1234-0000000000000001");
    assert_eq!(raw.fairness.run_order, vec!["two", "one"]);
    assert_eq!(
        raw.fairness.child_workload,
        "POSIX /bin/sh, 120x40, 1000 deterministic 72-byte lines"
    );
    assert_eq!(raw.fairness.notes.len(), 10);
    assert_eq!(raw.contenders[0].benchmarks[0].name, "binary_size");
    assert_eq!(raw.contenders[0].benchmarks[0].summary.median, Some(value(123.0)));
    let published = run(&config, Ok(raw)).unwrap();
    assert!(!format!("{published:?}").contains("private-sentinel"));
    let error = run(&config, Err("could not stat /home/private-sentinel".to_owned())).unwrap_err();
    assert!(!error.contains("private-sentinel"));
    let mut keeping = config;
    keeping.comparison.keep_workdirs = true;
    assert_eq!(
        run(&keeping, Err("x".to_owned())).unwrap_err(),
        "raw workdirs cannot be retained"
    );
}

#[test]
fn storms_use_distinct_sizes() {
    for name in ["smoke", "standard", "marketing"] {
        let p = profile(name).unwrap();
        let sizes: Vec<(u16, u16)> = (0..p.resize_iterations).map(|i| storm_geometry(&p, i)).collect();
        for (i, size) in sizes.iter().enumerate() {
            assert_ne!(*size, (p.terminal_cols, p.terminal_rows));
            assert!(!sizes[..i].contains(size));
        }
    }
}

#[test]
fn every_burst_and_every_client_is_judged() {
    let p = smoke();
    let mut asked = Vec::new();
    let mut events = Vec::new();
    while let Some(action) = output_next(&p, &events) {
        events.push(answer(&action));
        asked.push(action);
    }
    let judged = asked
        .iter()
        .filter(|action| matches!(action, Action::CheckOutput { .. }))
        .count();
    assert_eq!(judged, p.output_iterations);
    let checks = drive(|e| check_next(3, "AAAAAAAA", e), all_well);
    assert_eq!(checks.len(), 6);
    assert_eq!(check_extras(&checks), None);
}

#[test]
fn panes_are_sampled_after_their_shell_is_there() {
    let p = smoke();
    let mut asked = Vec::new();
    let mut events = Vec::new();
    while let Some(action) = multipane_next(&p, &events) {
        events.push(answer(&action));
        asked.push(action);
    }
    for panes in 1..=p.pane_count {
        let at = 5 * panes - 3;
        assert!(matches!(asked[at], Action::QuickRss { .. }));
        match asked[at - 2] {
            Action::WaitFor { processes, .. } => assert_eq!(processes, panes + 1),
            _ => panic!("no wait before {panes} panes"),
        }
    }
}

/// The lines that a scenario types while nothing goes wrong.
fn typed(next: impl Fn(&Vec<Event>) -> Option<Action>) -> Vec<String> {
    let mut lines = Vec::new();
    let mut events = Vec::new();
    while let Some(action) = next(&events) {
        events.push(answer(&action));
        if let Action::Type { line } = action {
            lines.push(line);
        }
    }
    lines
}

#[test]
fn typed_lines_do_not_hold_what_they_print() {
    let p = smoke();
    let bursts = typed(|e| output_next(&p, e));
    assert_eq!(bursts.len(), p.output_iterations);
    for (i, line) in bursts.iter().enumerate() {
        assert!(!line.contains(&output_marker(i)));
    }
    let probes = typed(|e| probe_next("SZ7", e));
    assert_eq!(
        probes,
        vec!["printf '\\123\\132\\067\\072%s:\\n' \"$(stty size)\"".to_owned()]
    );
    assert!(!probes[0].contains("SZ7:"));
}

#[test]
fn burst_lines_have_their_length() {
    for (index, iteration) in [(0, 0), (9_999, 3), (99_999_999, 61)] {
        let line = format!("{index:08} {}\n", output_payload(iteration));
        assert_eq!(line.len(), LINE_BYTES);
    }
}

/// The steps of a scenario in which the step at one index fails.
fn asked(next: impl Fn(&Vec<Event>) -> Option<Action>, broken: usize) -> Vec<Action> {
    let mut list = Vec::new();
    let mut events = Vec::new();
    while let Some(action) = next(&events) {
        events.push(if list.len() == broken {
            failure()
        } else {
            answer(&action)
        });
        list.push(action);
    }
    list
}

#[test]
fn fresh_sessions_are_stopped_whatever_fails() {
    let p = smoke();
    for broken in 1..9 {
        for list in [
            asked(|e| multipane_suite_next(4, e), broken),
            asked(|e| multiclient_suite_next(&p, 4, e), broken),
            asked(|e| live_next(&p, 4, e), broken),
        ] {
            assert!(list.iter().any(|action| matches!(action, Action::Stop)));
        }
    }
    assert_eq!(asked(|e| multipane_suite_next(4, e), 0).len(), 1);
}
