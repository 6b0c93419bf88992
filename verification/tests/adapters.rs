use std::collections::BTreeMap;
use ut_compare::adapters::{
    check_probe, check_restart, check_stop, checked_output, discovery_next, exit_next, herdr_benchmark_config,
    parse_server_pid, path_is_release_binary, ready_next, state_bytes, tmux_benchmark_config,
    uniterm_started, version_argument, wait_for_process_count, wait_for_process_count_at_most,
    workdir_name, AppAdapter, CommandPlan, IsolatedWorkdir, Request, Wait,
};
use ut_compare::config::ContenderConfig;
use ut_compare::measure::Real;
use ut_compare::paths;
use ut_compare::process::{ProcessInfo, ProcessSnapshot};
use ut_compare::textmap::TextMap;

fn config(adapter: &str) -> ContenderConfig {
    ContenderConfig {
        id: adapter.to_owned(),
        display_name: adapter.to_owned(),
        adapter: adapter.to_owned(),
        binary: format!("/unused/{adapter}"),
        source: "/unused/source".to_owned(),
        environment: TextMap::new(),
        assurance: Vec::new(),
    }
}

fn adapter(name: &str) -> AppAdapter {
    AppAdapter::new(config(name), 160, 50)
}

#[test]
fn tmux_pid_rejects_empty_invalid_and_unsafe_roots() {
    assert_eq!(parse_server_pid(" 1234\n").unwrap(), 1234);
    for output in ["", "0", "1", "-1", "123\n456", "started", "4294967296"] {
        assert!(parse_server_pid(output).is_err(), "{output:?}");
    }
    assert_eq!(
        parse_server_pid("started").unwrap_err(),
        "invalid tmux server PID: \"started\""
    );
}

#[test]
fn tmux_commands_are_isolated_and_readiness_lists_panes() {
    let workdir = IsolatedWorkdir::under("/tmp/tmux-test");
    let adapter = AppAdapter::new(
        ContenderConfig {
            id: "tmux".to_owned(),
            display_name: "tmux".to_owned(),
            adapter: "tmux".to_owned(),
            binary: "/unused/tmux".to_owned(),
            source: "/unused/source".to_owned(),
            environment: TextMap::new(),
            assurance: Vec::new(),
        },
        160,
        50,
    );
    let command = adapter.pane_list_command(&workdir, &None, "test-session");
    assert_eq!(
        command.args,
        vec![
            "-S".to_owned(),
            paths::join(&workdir.runtime, "tmux.sock"),
            "-f".to_owned(),
            paths::join(&workdir.config, "tmux-benchmark.conf"),
            "list-panes".to_owned(),
            "-t".to_owned(),
            "test-session".to_owned(),
        ]
    );
    assert_eq!(command.environment.get("HOME"), Some(workdir.home.clone()));
    assert_eq!(command.environment.get("TMUX"), None);
}

#[test]
fn herdr_config_disables_network_and_pins_headless_geometry() {
    let config = herdr_benchmark_config(160, 50);
    let parsed: toml::Value = toml::from_str(&config).unwrap();
    assert_eq!(parsed["onboarding"].as_bool(), Some(false));
    assert_eq!(parsed["update"]["version_check"].as_bool(), Some(false));
    assert_eq!(parsed["update"]["manifest_check"].as_bool(), Some(false));
    assert_eq!(parsed["server"]["headless_cols"].as_integer(), Some(160));
    assert_eq!(parsed["server"]["headless_rows"].as_integer(), Some(50));
    assert_eq!(
        parsed["terminal"]["default_shell"].as_str(),
        Some("/bin/sh")
    );
}

#[test]
fn requests_are_those_of_each_product() {
    let workdir = IsolatedWorkdir::under("/w");
    let ask = |name: &str, request: Request| -> CommandPlan {
        adapter(name).request(&workdir, &Some("/bin".to_owned()), "s", request)
    };
    assert_eq!(ask("uniterm", Request::Start).args, vec!["workspace", "new", "-d", "s"]);
    assert_eq!(ask("uniterm", Request::Panes).args, vec!["pane", "list", "-w", "s"]);
    assert_eq!(ask("uniterm", Request::Attach).args, vec!["workspace", "switch", "s"]);
    assert_eq!(ask("uniterm", Request::Stop).args, vec!["workspace", "stop", "s"]);
    assert_eq!(ask("herdr", Request::Start).args, vec!["server"]);
    assert_eq!(ask("herdr", Request::Panes).args, vec!["pane", "list"]);
    assert_eq!(ask("herdr", Request::Attach).args, vec!["--session", "s"]);
    assert_eq!(ask("herdr", Request::Stop).args, vec!["server", "stop"]);
    assert_eq!(
        ask("tmux", Request::Start).args[4..],
        ["new-session", "-d", "-s", "s", "-x", "160", "-y", "50", "-P", "-F", "#{pid}"]
    );
    assert_eq!(ask("tmux", Request::Attach).args[4..], ["attach-session", "-t", "s"]);
    assert_eq!(ask("tmux", Request::Stop).args[4..], ["kill-server"]);
    let herdr = ask("herdr", Request::Panes);
    assert_eq!(herdr.program, "/unused/herdr");
    assert_eq!(herdr.directory, "/w");
    assert_eq!(herdr.environment.get("HERDR_SESSION"), Some("s".to_owned()));
    assert_eq!(
        herdr.environment.get("HERDR_CONFIG_PATH"),
        Some("/w/config/herdr-benchmark.toml".to_owned())
    );
    assert_eq!(herdr.environment.get("PATH"), Some("/bin".to_owned()));
    assert_eq!(ask("uniterm", Request::Panes).environment.get("HERDR_SESSION"), None);
    let plain = adapter("herdr").command(&workdir, &None);
    assert!(plain.args.is_empty());
    assert_eq!(plain.environment.get("HERDR_SESSION"), None);
    assert_eq!(plain.environment.get("PATH"), None);
}

#[test]
fn own_variables_take_precedence() {
    let mut own = config("uniterm");
    own.environment.insert("TERM", "dumb");
    own.environment.insert("PATH", "/own");
    own.environment.insert("EXTRA", "1");
    let workdir = IsolatedWorkdir::under("/w");
    let plan = AppAdapter::new(own, 80, 24).command(&workdir, &Some("/bin".to_owned()));
    assert_eq!(plan.environment.get("TERM"), Some("dumb".to_owned()));
    assert_eq!(plan.environment.get("PATH"), Some("/own".to_owned()));
    assert_eq!(plan.environment.get("EXTRA"), Some("1".to_owned()));
    assert_eq!(plan.environment.get("LC_ALL"), Some("C".to_owned()));
    assert_eq!(plan.environment.len(), 12);
}

#[test]
fn environments_point_into_the_private_root() {
    let workdir = IsolatedWorkdir::under("/w");
    let environment = workdir.environment();
    assert_eq!(environment.len(), 10);
    for (key, value) in [
        ("HOME", "/w/home"),
        ("XDG_RUNTIME_DIR", "/w/runtime"),
        ("XDG_STATE_HOME", "/w/state"),
        ("XDG_CONFIG_HOME", "/w/config"),
        ("XDG_CACHE_HOME", "/w/cache"),
        ("SHELL", "/bin/sh"),
        ("TERM", "xterm-256color"),
        ("COLORTERM", "truecolor"),
        ("NO_COLOR", "1"),
        ("LC_ALL", "C"),
    ] {
        assert_eq!(environment.get(key), Some(value.to_owned()));
    }
}

#[test]
fn workdir_names_are_safe() {
    assert_eq!(
        workdir_name("\u{1f512}private", 42, 0x1_0000_00ab),
        "utc-private-42-000000ab"
    );
    assert_eq!(workdir_name("a-b c_d/efghij", 7, 0), "utc-abcdefgh-7-00000000");
}

#[test]
fn keys_files_and_names_of_each_product() {
    let workdir = IsolatedWorkdir::under("/w");
    assert_eq!(adapter("uniterm").split_sequence(), b"\x01%");
    assert_eq!(adapter("herdr").split_sequence(), b"\x02v");
    assert_eq!(adapter("tmux").split_sequence(), b"\x02%");
    assert_eq!(adapter("uniterm").detach_sequence(), b"\x01d");
    assert_eq!(adapter("herdr").detach_sequence(), b"\x02q");
    assert_eq!(adapter("tmux").detach_sequence(), b"\x02d");
    assert!(adapter("uniterm").harness_files(&workdir).is_empty());
    assert_eq!(
        adapter("herdr").harness_files(&workdir),
        vec!["/w/config/herdr-benchmark.toml"]
    );
    assert_eq!(
        adapter("tmux").harness_files(&workdir),
        vec!["/w/config/tmux-benchmark.conf"]
    );
    assert_eq!(adapter("uniterm").benchmark_config(), None);
    assert_eq!(adapter("tmux").benchmark_config(), Some(tmux_benchmark_config()));
    assert_eq!(
        adapter("herdr").benchmark_config(),
        Some(herdr_benchmark_config(160, 50))
    );
    assert!(tmux_benchmark_config().ends_with("split-window -h -f \\; select-layout tiled\n"));
    assert_eq!(adapter("tmux").session_name(301), "utc-tmux-301");
    assert_eq!(version_argument("tmux"), "-V");
    assert_eq!(version_argument("herdr"), "--version");
}

#[test]
fn release_builds_are_recognized_by_a_component() {
    assert!(path_is_release_binary("/x/target/release/ut"));
    assert!(!path_is_release_binary("/x/target/release-like/ut"));
    assert!(path_is_release_binary("release"));
}

#[test]
fn command_output_is_trimmed_or_explained() {
    assert_eq!(
        checked_output("git", true, "exit status: 0", b" abc\xff \n", b""),
        Ok("abc\u{fffd}".to_owned())
    );
    assert_eq!(
        checked_output("git", false, "exit status: 1", b"", b" bad\n"),
        Err("command \"git\" failed with exit status: 1: bad".to_owned())
    );
    assert!(uniterm_started("workspace started").is_ok());
    assert_eq!(
        uniterm_started("no").unwrap_err(),
        "Uniterm did not report startup readiness: no"
    );
}

#[test]
fn waits_end_when_their_aim_is_met_or_their_time_is_over() {
    assert!(matches!(ready_next(true, Some("x"), 9_000), Wait::Done));
    assert!(matches!(ready_next(false, None, 7_999), Wait::Again { millis: 20 }));
    match ready_next(false, Some("signal: 9"), 0) {
        Wait::Failed { error } => assert_eq!(error, "server exited during startup with signal: 9"),
        other => panic!("{other:?}"),
    }
    match ready_next(false, None, 8_000) {
        Wait::Failed { error } => assert_eq!(error, "server did not become ready within 8 seconds"),
        other => panic!("{other:?}"),
    }
    assert!(matches!(exit_next(true, true, 9, 5_000), Wait::Done));
    assert!(matches!(exit_next(false, false, 9, 5_000), Wait::Done));
    assert!(matches!(exit_next(false, true, 9, 4_999), Wait::Again { millis: 15 }));
    match exit_next(false, true, 9, 5_000) {
        Wait::Failed { error } => assert_eq!(error, "server 9 did not exit within 5 seconds"),
        other => panic!("{other:?}"),
    }
    assert!(matches!(discovery_next(true, "s", 3_000), Wait::Done));
    assert!(matches!(discovery_next(false, "s", 2_999), Wait::Again { millis: 15 }));
    match discovery_next(false, "s", 3_000) {
        Wait::Failed { error } => {
            assert_eq!(error, "could not discover Uniterm server process for s")
        }
        other => panic!("{other:?}"),
    }
    assert!(matches!(wait_for_process_count(3, 3, 9, 9), Wait::Done));
    match wait_for_process_count(2, 3, 9, 9) {
        Wait::Failed { error } => assert_eq!(error, "process cohort did not reach 3 members"),
        other => panic!("{other:?}"),
    }
    assert!(matches!(wait_for_process_count_at_most(4, 3, 8, 9), Wait::Again { millis: 20 }));
    match wait_for_process_count_at_most(4, 3, 9, 9) {
        Wait::Failed { error } => assert_eq!(error, "process cohort did not shrink to 3 members"),
        other => panic!("{other:?}"),
    }
    assert!(check_restart(true).is_ok());
    assert_eq!(
        check_restart(false).unwrap_err(),
        "restart requires a stopped session"
    );
}

#[test]
fn failed_commands_say_how_they_ended() {
    assert!(check_probe(true, "exit status: 0").is_ok());
    assert_eq!(
        check_probe(false, "exit status: 1").unwrap_err(),
        "command latency probe exited with exit status: 1"
    );
    assert!(check_stop(true, "exit status: 0", b"noise").is_ok());
    assert_eq!(
        check_stop(false, "exit status: 2", b" no \xff server\n").unwrap_err(),
        "server stop failed with exit status: 2: no \u{fffd} server"
    );
}

#[test]
fn state_leaves_out_what_the_harness_wrote() {
    assert_eq!(state_bytes(&vec![10, 20, 5], &vec![7]), 28);
    assert_eq!(state_bytes(&vec![3], &vec![7]), 0);
}

#[test]
fn servers_are_found_among_the_new_processes() {
    let process = |pid: u32, args: &str| ProcessInfo {
        pid,
        ppid: 1,
        rss_kib: 1,
        cpu_seconds: Real { bits: 0 },
        comm: "uniterm".to_owned(),
        args: args.to_owned(),
    };
    let old = process(4, "/unused/uniterm serve utc-uniterm-0");
    let before = ProcessSnapshot {
        processes: BTreeMap::from([(4, process(4, "/unused/uniterm serve utc-uniterm-0"))]),
    };
    let after = ProcessSnapshot {
        processes: BTreeMap::from([
            (4, old),
            (5, process(5, "/unused/uniterm workspace new utc-uniterm-0")),
            (6, process(6, "/unused/uniterm serve utc-uniterm-1")),
            (7, process(7, "/unused/uniterm serve utc-uniterm-0")),
            (8, process(8, "/unused/uniterm serve utc-uniterm-0")),
        ]),
    };
    let uniterm = adapter("uniterm");
    assert_eq!(uniterm.session_name(0), "utc-uniterm-0");
    assert_eq!(
        uniterm.discover_server(&after, &before, "utc-uniterm-0"),
        Some(7)
    );
    assert_eq!(
        uniterm.discover_server(&after, &after, "utc-uniterm-0"),
        None
    );
}
