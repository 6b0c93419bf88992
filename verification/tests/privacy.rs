use ut_compare::config::profile;
use ut_compare::document;
use ut_compare::document::{CategoryFigures, ReportFigures, RowFigures, Score, Weighted};
use ut_compare::measure::Real;
use ut_compare::model::{
    failed_benchmark, measured_benchmark, ArtifactInfo, AssuranceFinding, AssuranceStatus,
    BenchmarkStatus, ContenderResult, FairnessRecord, Figures, HostInfo, MetricDirection,
    RunReport, SourceInfo, StaticAnalysis, RESULT_SCHEMA_VERSION,
};
use ut_compare::report::Source;
use ut_compare::{privacy, report, standings};

fn value(x: f64) -> Real {
    Real { bits: x.to_bits() }
}

fn private_text() -> String {
    format!(
        "private-sentinel {}{} /home/test-person/secret folder alice@example.invalid",
        "ghp_",
        "A".repeat(36)
    )
}

fn contender(id: &str, adapter: &str) -> ContenderResult {
    let private = private_text();
    let mut benchmarks = Vec::new();
    for name in [
        "server_startup_ready",
        "control_command_latency",
        "daemon_idle_cohort_cpu",
        "daemon_idle_cohort_rss",
        "foreground_idle_cohort_cpu",
        "foreground_idle_cohort_rss",
        "terminal_input_to_visible",
        "terminal_output_completion",
    ] {
        let mut b = measured_benchmark(
            name,
            "ms",
            MetricDirection::Lower,
            vec![value(1.25), value(2.5), value(3.75)],
            Figures {
                median: value(2.5),
                mean: value(2.5),
                p95: value(3.625),
                stddev: value(1.25),
            },
            &private,
        );
        b.metadata.insert("private-data", &private);
        b.metadata.insert("pane_size_rows_cols", "40 120");
        b.metadata.insert("exit_retries", &private);
        benchmarks.push(b);
    }
    ContenderResult {
        id: id.to_owned(),
        display_name: private.clone(),
        adapter: adapter.to_owned(),
        binary: ArtifactInfo {
            path: private.clone(),
            bytes: 123,
            version_output: format!("{adapter} 1.2.3 {private}"),
            sha256: "a".repeat(64),
        },
        source: SourceInfo {
            path: private.clone(),
            commit: Some("b".repeat(40)),
            commit_date: Some(private.clone()),
            dirty: Some(false),
            package_version: Some("1.2.3".to_owned()),
            license: Some(private.clone()),
        },
        static_analysis: StaticAnalysis {
            notes: vec![private.clone()],
            ..Default::default()
        },
        assurance: vec![AssuranceFinding {
            category: "security".to_owned(),
            criterion: "Memory-safety boundary".to_owned(),
            status: AssuranceStatus::Partial,
            weight: value(1.0),
            summary: private.clone(),
            evidence: vec![private.clone()],
        }],
        errors: vec![],
        benchmarks,
    }
}

fn fixture() -> RunReport {
    let private = private_text();
    RunReport {
        schema_version: 6,
        tool_version: "0.2.0".to_owned(),
        run_id: private.clone(),
        started_unix_ms: 123456,
        host: HostInfo {
            os: "linux".to_owned(),
            architecture: "x86_64".to_owned(),
            kernel: format!("Linux 6.8.0-{private}"),
            hostname: private.clone(),
            logical_cpus: 4,
            rustc: Some(format!("rustc 1.85.0 {private}")),
            wsl: false,
            git_dirty_policy: private.clone(),
            cpu_time_source: format!("/proc/<pid>/stat utime+stime (10 ms ticks); {private}"),
        },
        profile: profile("smoke").unwrap(),
        fairness: FairnessRecord {
            run_order: vec!["private-first".to_owned(), "private-second".to_owned()],
            release_binaries_required: true,
            network_disabled_during_benchmarks: true,
            isolated_home_and_xdg: true,
            identical_terminal_geometry: true,
            child_workload: private.clone(),
            notes: vec![private.clone()],
        },
        contenders: vec![
            contender("private-first", "uniterm"),
            contender("private-second", "herdr"),
        ],
        warnings: vec![private],
    }
}

fn figures(reports: &[RunReport]) -> document::Figures {
    let mut out = Vec::new();
    for report in reports {
        let n = report.contenders.len();
        let mut scores = Vec::new();
        for _ in 0..n {
            scores.push(Score { value: value(100.0), text: "100.0".to_owned() });
        }
        let mut rows = Vec::new();
        for _ in standings::metric_rows(report) {
            rows.push(RowFigures { cells: vec!["2.50 ms".to_owned(); n], tied: n });
        }
        out.push(ReportFigures { scores, rows });
    }
    let mut categories = Vec::new();
    for _ in standings::assurance_categories(&reports[0]) {
        let mut cells = Vec::new();
        for _ in 0..reports[0].contenders.len() {
            cells.push(Weighted { counted: true, value: value(50.0), text: "50.0".to_owned() });
        }
        categories.push(CategoryFigures { cells });
    }
    document::Figures { reports: out, categories }
}

fn markdown(title: &str, report: RunReport) -> Result<String, String> {
    let reports = vec![report];
    let shown = figures(&reports);
    report::markdown(title, &reports, &shown)
}

fn shape(report: &RunReport) -> String {
    format!("{report:?}")
}

#[test]
fn removes_identifiers_and_untrusted_text_without_changing_measurements() {
    let original = fixture();
    let safe = privacy::sanitize(&original).unwrap();
    let json = shape(&safe);
    let markdown = markdown(&private_text(), fixture()).unwrap();
    for output in [&json, &markdown] {
        for secret in [
            "private-sentinel",
            "private-first",
            "private-second",
            "/home/test-person",
            "alice@",
            "secret folder",
            "ghp_",
        ] {
            assert!(
                !output.contains(secret),
                "output leaked a forbidden fixture field"
            );
        }
    }
    assert_eq!(safe.started_unix_ms, 0);
    assert_eq!(safe.schema_version, RESULT_SCHEMA_VERSION);
    assert_eq!(
        safe.host.cpu_time_source,
        "/proc/<pid>/stat (10 ms ticks); ps supplies RSS and process ancestry"
    );
    for (before, after) in original.contenders.iter().zip(&safe.contenders) {
        assert_eq!(before.binary.sha256, after.binary.sha256);
        assert_eq!(before.source.commit, after.source.commit);
        assert_eq!(before.assurance[0].status, after.assurance[0].status);
        for (before, after) in before.benchmarks.iter().zip(&after.benchmarks) {
            assert_eq!(before.samples, after.samples);
            assert_eq!(format!("{:?}", before.summary), format!("{:?}", after.summary));
            assert_eq!(before.status, after.status);
            assert_eq!(after.metadata.len(), 1);
        }
    }
    assert_eq!(shape(&safe), shape(&privacy::sanitize(&safe).unwrap()));
}

#[test]
fn aliases_are_idempotent_for_double_digit_contender_counts() {
    let mut original = fixture();
    let template = original.contenders[0].clone();
    original.contenders = Vec::new();
    original.fairness.run_order = Vec::new();
    for n in 0..12 {
        let mut contender = template.clone();
        contender.id = format!("private-instance-{n}");
        original.fairness.run_order.push(contender.id.clone());
        original.contenders.push(contender);
    }
    let safe = privacy::sanitize(&original).unwrap();
    assert_eq!(shape(&safe), shape(&privacy::sanitize(&safe).unwrap()));
}

#[test]
fn private_version_suffixes_are_withheld_without_claiming_a_stable_release() {
    assert_eq!(privacy::version("1.2.3"), Some("1.2.3".into()));
    assert_eq!(privacy::version("3.7c"), Some("3.7c".into()));
    let safe = privacy::version("1.2.3-private-sentinel").unwrap();
    assert_eq!(safe, "1.2.3-redacted");
    assert_eq!(privacy::version(&safe), Some(safe));
}

#[test]
fn failed_metrics_stay_failed_and_suppress_ranking() {
    let mut original = fixture();
    original.contenders[0].benchmarks[0] =
        failed_benchmark("server_startup_ready", &private_text());
    original.contenders[0].errors.push(private_text());
    let safe = privacy::sanitize(&original).unwrap();
    assert!(report::has_failures(&safe));
    assert_eq!(
        safe.contenders[0].benchmarks[0].status,
        BenchmarkStatus::Failed
    );
    let markdown = markdown("ignored", safe).unwrap();
    assert!(markdown.contains("FAILED"));
    assert!(!markdown.contains("ranks first"));
    assert!(!markdown.contains("private-sentinel"));
}

#[test]
fn unknown_metric_and_malicious_hash_fail_closed() {
    let mut original = fixture();
    original.contenders[0].benchmarks[0].name = private_text();
    assert!(privacy::sanitize(&original).is_err());
    let mut original = fixture();
    original.contenders[0].binary.sha256 = private_text();
    assert!(privacy::sanitize(&original).is_err());
}

#[test]
fn imported_schemas_are_compared_before_redaction() {
    let a = fixture();
    let mut b = a.clone();
    b.schema_version = 5;
    let sources = vec![
        Source::Parsed { path: "first.json".to_owned(), report: a },
        Source::Parsed { path: "second.json".to_owned(), report: b },
    ];
    assert!(report::load_reports(&sources).is_err());
}

#[test]
fn sources_that_cannot_be_read_are_refused_without_details() {
    let unreadable = vec![Source::Unreadable {
        path: "/private-sentinel".to_owned(),
        detail: "private-sentinel".to_owned(),
    }];
    let error = report::load_reports(&unreadable).unwrap_err();
    assert!(!error.contains("private-sentinel"));
    assert!(error.contains("omitted for privacy"));
    let malformed = vec![Source::Malformed {
        path: "/private-sentinel".to_owned(),
        detail: "private-sentinel".to_owned(),
    }];
    assert!(!report::load_reports(&malformed).unwrap_err().contains("private-sentinel"));
    let fine = vec![Source::Parsed { path: "a".to_owned(), report: fixture() }];
    let loaded = report::load_reports(&fine).unwrap();
    assert_eq!(loaded.len(), 1);
    assert!(!shape(&loaded[0]).contains("private-sentinel"));
    assert!(report::load_reports(&Vec::new()).is_err());
}

#[test]
fn identifiers_are_digests_of_what_they_replace() {
    let mut original = fixture();
    original.run_id = "abc".to_owned();
    let safe = privacy::sanitize(&original).unwrap();
    assert_eq!(
        safe.run_id,
        "run-ba7816bf8f01cfea414140de5dae2223b00361a396177a9cb410ff61f20015ad"
    );
}

#[test]
fn product_versions_name_the_product_and_its_release() {
    assert_eq!(privacy::product_version("tmux", "tmux 3.4"), "tmux 3.4");
    assert_eq!(privacy::product_version("herdr", "other 1.0.0"), "herdr unknown");
    assert_eq!(privacy::product_version("mine", "mine 1.0.0"), "unknown unknown");
    assert_eq!(privacy::version("private"), None);
}

#[test]
fn errors_keep_their_category_alone() {
    for raw in [
        "could not read /home/x: denied",
        "invalid config /home/x: line 1",
        "could not write /home/x",
        "anything else /home/x",
    ] {
        let shown = privacy::public_error(raw);
        assert!(!shown.contains("/home"), "{shown}");
        assert!(shown.ends_with("omitted for privacy.") || shown.contains("privacy"), "{shown}");
    }
    assert!(privacy::public_error("could not read x").starts_with("could not read input"));
}

#[test]
fn unsupported_profiles_are_refused() {
    let mut original = fixture();
    original.profile.name = "own".to_owned();
    assert!(privacy::sanitize(&original).is_err());
}
