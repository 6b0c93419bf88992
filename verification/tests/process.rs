use std::collections::{BTreeMap, BTreeSet};
use ut_compare::measure::Real;
use ut_compare::process::{ProcessInfo, ProcessSnapshot};
use ut_compare::ps::{
    cpu_time_source, is_wsl, listed, parse_proc_stat, parse_ps_time, parse_rows, roots_exited,
    sample_next, table, Sampling,
};

fn process(pid: u32, ppid: u32) -> ProcessInfo {
    ProcessInfo {
        pid,
        ppid,
        rss_kib: 1,
        cpu_seconds: Real { bits: 0 },
        comm: "test".to_owned(),
        args: String::new(),
    }
}

fn snapshot(list: &[(u32, u32)]) -> ProcessSnapshot {
    let mut processes = BTreeMap::new();
    for (pid, ppid) in list {
        processes.insert(*pid, process(*pid, *ppid));
    }
    ProcessSnapshot { processes }
}

#[test]
fn descendants_are_transitive() {
    let snapshot = ProcessSnapshot {
        processes: BTreeMap::from([
            (1, process(1, 0)),
            (2, process(2, 1)),
            (3, process(3, 2)),
            (4, process(4, 9)),
        ]),
    };
    assert_eq!(snapshot.descendants_including(1), BTreeSet::from([1, 2, 3]));
}

#[test]
fn families_do_not_depend_on_numbers_or_cycles() {
    let found = snapshot(&[(2, 9), (5, 2), (9, 1), (7, 5), (1, 7)]);
    assert_eq!(found.descendants_including(9), BTreeSet::from([1, 2, 5, 7, 9]));
    assert_eq!(found.descendants_including(40), BTreeSet::from([40]));
}

#[test]
fn cohorts_count_every_process_once() {
    let mut found = snapshot(&[(1, 0), (2, 1), (3, 2), (4, 9)]);
    found.processes.get_mut(&2).unwrap().rss_kib = 10;
    found.processes.get_mut(&3).unwrap().cpu_seconds = Real { bits: 7 };
    let both = found.metrics_many(&[2, 1]).unwrap();
    assert_eq!(both.process_count, 3);
    assert_eq!(both.root_rss_kib, 11);
    assert_eq!(both.cohort_rss_kib, 12);
    assert_eq!(both.root_cpu_seconds.len(), 2);
    assert_eq!(both.cohort_cpu_seconds[2], Real { bits: 7 });
    assert_eq!(found.metrics(4).unwrap().process_count, 1);
    assert!(found.metrics(9).is_none());
    assert!(found.metrics_many(&[]).is_none());
    assert!(found.metrics_many(&[1, 9]).is_none());
}

#[test]
fn new_processes_are_matched_by_program_and_argument() {
    let before = snapshot(&[(1, 0)]);
    let mut after = snapshot(&[(1, 0), (2, 1), (3, 1), (4, 1), (5, 1)]);
    after.processes.get_mut(&1).unwrap().comm = "ut".to_owned();
    after.processes.get_mut(&1).unwrap().args = "serve s".to_owned();
    after.processes.get_mut(&2).unwrap().comm = "ut".to_owned();
    after.processes.get_mut(&2).unwrap().args = "serve s".to_owned();
    after.processes.get_mut(&3).unwrap().args = "/opt/ut serve s".to_owned();
    after.processes.get_mut(&4).unwrap().args = "/opt/ut serve t".to_owned();
    assert_eq!(after.new_pids_matching(&before, "/opt/ut", "s"), vec![2, 3, 4]);
    assert_eq!(after.new_pids_matching(&before, "/opt/ut", "serve s"), vec![2, 3]);
    assert_eq!(after.keys(), vec![1, 2, 3, 4, 5]);
}

/// The seconds that the parts of a processor time stand for.
fn seconds(time: &str) -> Option<f64> {
    let clock = parse_ps_time(time)?;
    let number = |part: &str| part.parse::<f64>().ok();
    let days = match &clock.days {
        Some(days) => number(days)?,
        None => 0.0,
    };
    let hours = match &clock.hours {
        Some(hours) => number(hours)?,
        None => 0.0,
    };
    Some(
        days * 86_400.0
            + hours * 3600.0
            + number(&clock.minutes)? * 60.0
            + number(&clock.seconds)?,
    )
}

/// The seconds of the two tick counts.
fn stat_seconds(stat: &str, ticks_per_second: f64) -> Option<f64> {
    let (utime, stime) = parse_proc_stat(stat)?;
    Some((utime.parse::<f64>().ok()? + stime.parse::<f64>().ok()?) / ticks_per_second)
}

#[test]
fn parses_linux_and_macos_cpu_time() {
    assert_eq!(seconds("00:01"), Some(1.0));
    assert_eq!(seconds("01:02:03"), Some(3723.0));
    assert_eq!(seconds("2-01:02:03"), Some(176_523.0));
    assert_eq!(seconds("0:00.25"), Some(0.25));
}

#[test]
fn proc_stat_cpu_fields_follow_the_last_paren() {
    let stat = "1234 (my (odd) name) S 1 1234 1234 0 -1 4194560 100 0 0 0 250 50 0 0 20 0 1 0 5000 1000000 200 18446744073709551615";
    assert_eq!(stat_seconds(stat, 100.0), Some(3.0));
    assert_eq!(stat_seconds("garbage", 100.0), None);
}

#[test]
fn parts_of_linux_and_macos_cpu_time() {
    let short = parse_ps_time("00:01").unwrap();
    assert_eq!((short.days, short.hours), (None, None));
    assert_eq!((short.minutes.as_str(), short.seconds.as_str()), ("00", "01"));
    let long = parse_ps_time("2-01:02:03").unwrap();
    assert_eq!(long.days, Some("2".to_owned()));
    assert_eq!(long.hours, Some("01".to_owned()));
    assert_eq!((long.minutes.as_str(), long.seconds.as_str()), ("02", "03"));
    assert_eq!(parse_ps_time("0:00.25").unwrap().seconds, "00.25");
    assert!(parse_ps_time("12").is_none());
    assert!(parse_ps_time("1:2:3:4").is_none());
}

#[test]
fn proc_stat_fields_follow_the_last_paren() {
    let stat = "1234 (my (odd) name) S 1 1234 1234 0 -1 4194560 100 0 0 0 250 50 0 0 20 0 1 0 5000 1000000 200 18446744073709551615";
    assert_eq!(parse_proc_stat(stat), Some(("250".to_owned(), "50".to_owned())));
    assert_eq!(parse_proc_stat("garbage"), None);
    assert_eq!(parse_proc_stat("1 (x) S 1"), None);
}

#[test]
fn rows_make_a_table() {
    let output = "  1 0 12 00:01 init /sbin/init  --flag\nbad row\n 2 1 x 00:01 a\n 3 1 5 nonsense b\n 4 1 7 1:02:03 sh\n 4 2 8 0:05 sh -c x\n";
    let rows = parse_rows(output);
    assert_eq!(rows.len(), 3);
    assert_eq!(rows[0].args, "/sbin/init --flag");
    assert_eq!(rows[1].args, "");
    let some = Some(Real { bits: 1 });
    let all = table(&rows, &vec![some, some, some]);
    assert_eq!(all.processes.len(), 2);
    assert_eq!(all.processes[&4].ppid, 2);
    assert_eq!(all.processes[&4].args, "-c x");
    let without = table(&rows, &vec![some, some, None]);
    assert_eq!(without.processes[&4].rss_kib, 7);
}

#[test]
fn sources_of_processor_time() {
    assert_eq!(
        cpu_time_source(&Some("10".to_owned())),
        "/proc/<pid>/stat utime+stime (10 ms ticks); ps supplies PID, RSS, and tree"
    );
    assert_eq!(
        cpu_time_source(&None),
        "ps cumulative time (platform resolution; whole seconds on procps)"
    );
}

#[test]
fn linux_under_windows_is_recognized() {
    assert!(is_wsl(true, &None));
    assert!(is_wsl(false, &Some("Linux 5 Microsoft standard".to_owned())));
    assert!(!is_wsl(false, &Some("Linux 6".to_owned())));
    assert!(!is_wsl(false, &None));
}

#[test]
fn sampling_ends_with_its_window() {
    assert_eq!(roots_exited(&[1, 20]), "one of root processes [1, 20] exited");
    assert!(matches!(sample_next(true, &[1], 5, 5, 2), Sampling::Done));
    assert!(matches!(sample_next(true, &[1], 1, 5, 2), Sampling::Wait(2)));
    assert!(matches!(sample_next(true, &[1], 4, 5, 2), Sampling::Wait(1)));
    match sample_next(false, &[1, 20], 0, 5, 2) {
        Sampling::Failed(error) => {
            assert_eq!(error, "one of root processes [1, 20] exited during sampling")
        }
        other => panic!("{other:?}"),
    }
}

#[test]
fn a_failed_listing_gives_its_reason() {
    let rows = listed(true, b"1 0 100 0:01 init /sbin/init\n\xff\n", b"noise").unwrap();
    assert_eq!(rows.len(), 1);
    assert_eq!(rows[0].pid, 1);
    assert_eq!(
        listed(false, b"1 0 100 0:01 init init\n", b"  no \xff access \n").unwrap_err(),
        "ps failed: no \u{fffd} access"
    );
}
