use ut_compare::config::profile;
use ut_compare::document;
use ut_compare::document::{
    escape_cell, metric_cell, restoration_cell, title_case, winner_label, CategoryFigures,
    ReportFigures, RowFigures, Score,
};
use ut_compare::measure::{finite_ascending, median_indices, p95_indices, Real};
use ut_compare::model::{
    failed_benchmark, measured_benchmark, ArtifactInfo, AssuranceStatus, BenchmarkStatus,
    ContenderResult, FairnessRecord, Figures, HostInfo, MetricDirection, RunReport, SampleSummary,
    SourceInfo, StaticAnalysis, RESULT_SCHEMA_VERSION,
};
use ut_compare::report;
use ut_compare::scoring::{index_ratio, Contest};
use ut_compare::report::{core_metrics, markdown, validate_merge};
use ut_compare::standings::{
    index_contests, index_inputs, metric_rows, ordered_metric_names, performance_scores, rank,
    winner_index,
};

fn value(x: f64) -> Real {
    Real { bits: x.to_bits() }
}

fn flat(x: f64) -> Figures {
    Figures {
        median: value(x),
        mean: value(x),
        p95: value(x),
        stddev: value(0.0),
    }
}

fn three_contenders() -> RunReport {
    let mut contenders = Vec::new();
    for id in ["uniterm", "herdr", "tmux"] {
        let mut benchmarks = Vec::new();
        for name in core_metrics() {
            benchmarks.push(measured_benchmark(
                &name,
                "ms",
                MetricDirection::Lower,
                vec![value(1.0)],
                flat(1.0),
                "fixture",
            ));
        }
        contenders.push(ContenderResult {
            id: id.to_owned(),
            display_name: id.to_owned(),
            adapter: id.to_owned(),
            binary: ArtifactInfo {
                path: "test".to_owned(),
                bytes: 1,
                version_output: "test".to_owned(),
                sha256: "a".repeat(64),
            },
            source: SourceInfo {
                path: "test".to_owned(),
                commit: Some("b".repeat(40)),
                commit_date: None,
                dirty: Some(false),
                package_version: None,
                license: None,
            },
            static_analysis: StaticAnalysis::default(),
            assurance: vec![],
            errors: vec![],
            benchmarks,
        });
    }
    RunReport {
        schema_version: RESULT_SCHEMA_VERSION,
        tool_version: "test".to_owned(),
        run_id: "test".to_owned(),
        started_unix_ms: 0,
        profile: profile("smoke").unwrap(),
        warnings: vec![],
        host: HostInfo {
            os: "linux".to_owned(),
            architecture: "x86_64".to_owned(),
            kernel: "test".to_owned(),
            hostname: "test".to_owned(),
            logical_cpus: 1,
            rustc: None,
            wsl: false,
            git_dirty_policy: "test".to_owned(),
            cpu_time_source: "test".to_owned(),
        },
        fairness: FairnessRecord {
            run_order: vec![],
            release_binaries_required: true,
            network_disabled_during_benchmarks: true,
            isolated_home_and_xdg: true,
            identical_terminal_geometry: true,
            child_workload: "test".to_owned(),
            notes: vec![],
        },
        contenders,
    }
}

/// The geometric mean of each contender's ratios, in percent.
fn geometric_means(report: &RunReport) -> Vec<Real> {
    let rows = index_inputs(report);
    let mut out = Vec::new();
    for k in 0..report.contenders.len() {
        let mut logs = Vec::new();
        for (contest, row) in index_contests(report, k).into_iter().zip(&rows) {
            let own = f64::from_bits(contest.value.bits);
            let best = f64::from_bits(contest.best.bits);
            let quotient = if row.direction == MetricDirection::Higher {
                own / best
            } else {
                best / own
            };
            let tied = (own - best).abs() <= best.abs().max(0.001) * 0.01;
            let ratio = index_ratio(contest, row.direction, value(quotient), tied);
            logs.push(f64::from_bits(ratio.bits).ln());
        }
        let mean = logs.iter().sum::<f64>() / logs.len() as f64;
        out.push(value(if logs.is_empty() { 0.0 } else { mean.exp() * 100.0 }));
    }
    out
}

fn figures(reports: &[RunReport]) -> document::Figures {
    let mut out = Vec::new();
    for report in reports {
        let n = report.contenders.len();
        let mut scores = Vec::new();
        for _ in 0..n {
            scores.push(Score { value: value(100.0), text: "100.0".to_owned() });
        }
        let mut rows = Vec::new();
        for _ in metric_rows(report) {
            rows.push(RowFigures { cells: vec!["1.00 ms".to_owned(); n], tied: n });
        }
        out.push(ReportFigures { scores, rows });
    }
    let categories: Vec<CategoryFigures> = Vec::new();
    document::Figures { reports: out, categories }
}

fn render(title: &str, report: RunReport) -> Result<String, String> {
    let reports = vec![report];
    let shown = figures(&reports);
    markdown(title, &reports, &shown)
}

#[test]
fn three_way_ranking_requires_every_contenders_core_metrics() {
    let mut report = three_contenders();
    let full = geometric_means(&report);
    assert_eq!(performance_scores(&report, &full).len(), 3);
    assert!(performance_scores(&report, &full)
        .iter()
        .all(|score| *score == value(100.0)));
    assert!(render("test", report.clone()).unwrap().contains("100.0"));
    report.contenders[2].benchmarks[0] = failed_benchmark(&core_metrics()[0], "probe failed");
    for computed in [&full, &geometric_means(&report)] {
        assert!(performance_scores(&report, computed)
            .iter()
            .all(|score| *score == value(0.0)));
    }
    let markdown = render("test", report).unwrap();
    assert!(markdown.contains("FAILED"));
    assert!(!markdown.contains("ranks first"));
}

#[test]
fn restoration_na_is_context_and_never_hides_failure() {
    let mut report = three_contenders();
    let mut restart = measured_benchmark(
        "restart_ready",
        "ms",
        MetricDirection::Neutral,
        vec![value(1.0)],
        flat(1.0),
        "fresh session",
    );
    restart.metadata.insert("native_disk_restoration", "not_applicable");
    report.contenders[2].benchmarks.push(restart);
    assert_eq!(
        restoration_cell(&report.contenders[2]),
        "N/A (no native disk restoration)"
    );
    assert!(performance_scores(&report, &geometric_means(&report))
        .iter()
        .all(|score| *score == value(100.0)));
    report.contenders[2].benchmarks.last_mut().unwrap().status = BenchmarkStatus::Failed;
    assert_eq!(restoration_cell(&report.contenders[2]), "FAILED");
    assert_eq!(metric_cell(None, None, "ms"), "missing");
}

#[test]
fn merge_rejects_schema_adapter_source_and_contender_changes() {
    let baseline = three_contenders();
    for mutate in [
        (|r: &mut RunReport| r.schema_version = 5) as fn(&mut RunReport),
        |r| r.contenders[2].adapter = "uniterm".to_owned(),
        |r| r.contenders[2].source.commit = Some("def".to_owned()),
        |r| {
            r.contenders.pop();
        },
    ] {
        let mut changed = baseline.clone();
        mutate(&mut changed);
        assert!(validate_merge(&vec![baseline.clone(), changed]).is_err());
    }
    assert!(validate_merge(&vec![baseline.clone(), baseline]).is_ok());
}

#[test]
fn lower_and_higher_winners_are_selected() {
    let values = vec![Some(value(2.0)), Some(value(1.0))];
    assert_eq!(winner_index(&values, MetricDirection::Lower), Some(1));
    assert_eq!(winner_index(&values, MetricDirection::Higher), Some(0));
    assert_eq!(winner_index(&values, MetricDirection::Neutral), None);
}

#[test]
fn missing_value_prevents_a_claimed_winner() {
    assert_eq!(
        winner_index(&vec![Some(value(1.0)), None], MetricDirection::Lower),
        None
    );
}

#[test]
fn assurance_unknown_is_not_scored() {
    assert_eq!(AssuranceStatus::Pass.score(), Some(value(100.0)));
    assert_eq!(AssuranceStatus::Unknown.score(), None);
}

/// The value at a quantile, interpolated between its neighbours.
fn percentile(samples: &[Real], quantile: f64) -> f64 {
    let sorted = finite_ascending(samples);
    let position = quantile * (sorted.len() - 1) as f64;
    let lower = f64::from_bits(sorted[position.floor() as usize].bits);
    let upper = f64::from_bits(sorted[position.ceil() as usize].bits);
    lower + (upper - lower) * position.fract()
}

#[test]
fn summaries_are_stable_and_interpolated() {
    let samples = [value(4.0), value(1.0), value(3.0), value(2.0)];
    let figures = Figures {
        median: value(percentile(&samples, 0.5)),
        mean: value(2.5),
        p95: value(percentile(&samples, 0.95)),
        stddev: value(1.25_f64.sqrt()),
    };
    let summary = SampleSummary::from_samples(&samples, figures);
    assert_eq!(summary.count, 4);
    assert_eq!(summary.min, Some(value(1.0)));
    assert_eq!(summary.median, Some(value(2.5)));
    assert_eq!(summary.max, Some(value(4.0)));
    let p95 = f64::from_bits(summary.p95.unwrap().bits);
    assert!((p95 - 3.85).abs() < 0.0001);
}

#[test]
fn summaries_keep_count_and_bounds_of_finite_samples() {
    let samples = [value(4.0), value(1.0), value(f64::NAN), value(3.0), value(2.0)];
    let figures = Figures {
        median: value(2.5),
        mean: value(2.5),
        p95: value(3.85),
        stddev: value(1.1),
    };
    let summary = SampleSummary::from_samples(&samples, figures);
    assert_eq!(summary.count, 4);
    assert_eq!(summary.min, Some(value(1.0)));
    assert_eq!(summary.median, Some(value(2.5)));
    assert_eq!(summary.max, Some(value(4.0)));
    let none = SampleSummary::from_samples(&[value(f64::INFINITY)], figures);
    assert_eq!(none.count, 0);
    assert_eq!(none.median, None);
}

#[test]
fn summaries_ignore_order_and_values_that_are_not_finite() {
    let a = [value(4.0), value(-1.0), value(3.0), value(3.0)];
    let b = [
        value(f64::NAN),
        value(3.0),
        value(f64::NEG_INFINITY),
        value(4.0),
        value(3.0),
        value(f64::INFINITY),
        value(-1.0),
    ];
    assert_eq!(finite_ascending(&a), finite_ascending(&b));
    let figures = Figures {
        median: value(percentile(&b, 0.5)),
        mean: value(2.25),
        p95: value(percentile(&b, 0.95)),
        stddev: value(1.9),
    };
    let one = SampleSummary::from_samples(&a, figures);
    let two = SampleSummary::from_samples(&b, figures);
    assert_eq!(format!("{one:?}"), format!("{two:?}"));
    assert_eq!(two.count, 4);
    assert_eq!(two.min, Some(value(-1.0)));
    assert_eq!(two.max, Some(value(4.0)));
}

#[test]
fn a_single_leader_ranks_first() {
    let mut report = three_contenders();
    for b in report.contenders[1].benchmarks.iter_mut() {
        b.summary.median = Some(value(0.5));
    }
    let reports = vec![report];
    let mut shown = figures(&reports);
    for (i, score) in [50.0, 100.0, 50.0].iter().enumerate() {
        shown.reports[0].scores[i] = Score { value: value(*score), text: format!("{score:.1}") };
    }
    for row in shown.reports[0].rows.iter_mut() {
        row.tied = 1;
    }
    let text = markdown("x", &reports, &shown).unwrap();
    assert!(text.contains("ranks first"), "{text}");
    assert_eq!(
        winner_label(
            &reports[0],
            &vec![Some(value(1.0)), Some(value(0.5)), Some(value(1.0))],
            MetricDirection::Lower,
            1
        ),
        "herdr"
    );
    assert_eq!(
        winner_label(
            &reports[0],
            &vec![Some(value(1.0)), Some(value(1.0)), Some(value(1.0))],
            MetricDirection::Lower,
            3
        ),
        "tie (within 1%)"
    );
}

#[test]
fn scores_are_ranked_downwards() {
    let ranked = rank(&vec![
        ("a".to_owned(), value(1.0)),
        ("b".to_owned(), value(3.0)),
        ("c".to_owned(), value(2.0)),
    ]);
    let mut names = Vec::new();
    for (name, _) in ranked {
        names.push(name);
    }
    assert_eq!(names, vec!["b", "c", "a"]);
}

#[test]
fn metrics_of_all_contenders_get_rows_with_core_metrics_first() {
    let mut report = three_contenders();
    report.contenders[2].benchmarks.push(failed_benchmark("binary_size", "x"));
    let names = ordered_metric_names(&report);
    assert_eq!(names.len(), 9);
    assert!(names.contains(&"binary_size".to_owned()));
    let rows = metric_rows(&report);
    assert_eq!(rows.len(), 9);
}

#[test]
fn conflicts_are_found_before_rendering() {
    let a = three_contenders();
    let mut b = three_contenders();
    b.profile = profile("standard").unwrap();
    assert!(validate_merge(&vec![a.clone(), b.clone()]).is_err());
    let reports = vec![a, b];
    let shown = figures(&reports);
    assert!(markdown("x", &reports, &shown).is_err());
    assert_eq!(
        validate_merge(&Vec::new()).unwrap_err(),
        "at least one report is required"
    );
}

#[test]
fn known_revisions_are_compared_across_all_runs() {
    let mut a = three_contenders();
    for c in a.contenders.iter_mut() {
        c.source.commit = None;
    }
    let b = three_contenders();
    let mut c = three_contenders();
    c.run_id = "third".to_owned();
    c.contenders[0].source.commit = Some("c".repeat(40));
    assert!(validate_merge(&vec![a.clone(), b.clone()]).is_ok());
    assert!(validate_merge(&vec![a.clone(), c.clone()]).is_ok());
    assert!(validate_merge(&vec![a.clone(), b.clone(), b.clone()]).is_ok());
    let reports = vec![a.clone(), b.clone(), c.clone()];
    assert_eq!(
        validate_merge(&reports).unwrap_err(),
        "run third uses a different uniterm source commit and cannot be merged"
    );
    let shown = figures(&reports);
    assert!(report::prepare(&reports).is_err());
    assert!(markdown("x", &reports, &shown).is_err());
    for order in [[&b, &a, &c], [&b, &c, &a], [&c, &a, &b], [&a, &c, &b]] {
        let list: Vec<RunReport> = order.iter().map(|r| (*r).clone()).collect();
        assert!(validate_merge(&list).is_err());
    }
    let mut sources = Vec::new();
    for report in reports {
        sources.push(report::Source::Parsed { path: "run.json".to_owned(), report });
    }
    assert!(report::load_reports(&sources).is_err());
    sources.pop();
    assert_eq!(report::load_reports(&sources).unwrap().len(), 2);
}

#[test]
fn published_runs_show_the_same_document() {
    let mut a = three_contenders();
    a.contenders[0].id = "mine".to_owned();
    a.contenders[0].display_name = "My build".to_owned();
    a.contenders[1].adapter = "uniterm".to_owned();
    a.warnings.push("/home/someone/secret".to_owned());
    let mut b = a.clone();
    b.run_id = "20260101-second".to_owned();
    b.contenders.reverse();
    let raw = vec![a, b];
    let kept = report::prepare(&raw).unwrap();
    let again = report::prepare(&kept).unwrap();
    for (x, y) in kept.iter().zip(&again) {
        assert_eq!(format!("{x:?}"), format!("{y:?}"));
    }
    let shown = figures(&kept);
    let one = markdown("one", &raw, &shown).unwrap();
    let two = markdown("two", &kept, &shown).unwrap();
    assert_eq!(one, two);
    assert!(one.starts_with("# Terminal multiplexer comparison\n"));
    assert!(!one.contains("My build"));
}

#[test]
fn cells_are_written_for_a_table() {
    assert_eq!(escape_cell("a|b\nc"), "a\\|b c");
    assert_eq!(title_case("security"), "Security");
    assert_eq!(title_case(""), "");
    assert_eq!(title_case("\u{df}x"), "SSx");
    assert_eq!(metric_cell(Some(BenchmarkStatus::Measured), Some(value(1.0)), "1.00 ms"), "1.00 ms");
    assert_eq!(metric_cell(Some(BenchmarkStatus::Failed), None, ""), "FAILED");
    assert_eq!(metric_cell(Some(BenchmarkStatus::Skipped), None, ""), "skipped");
}

#[test]
fn medians_come_from_measured_metrics_alone() {
    let mut report = three_contenders();
    assert_eq!(report::median(&report.contenders[0], "server_startup_ready"), Some(value(1.0)));
    assert!(report::is_core_complete(&report.contenders[0]));
    report.contenders[0].benchmarks[0].status = BenchmarkStatus::Failed;
    assert_eq!(report::median(&report.contenders[0], "server_startup_ready"), None);
    assert!(report::raw_metric(&report.contenders[0], "server_startup_ready").is_some());
    assert!(!report::is_core_complete(&report.contenders[0]));
    assert_eq!(report::count_core_present(&report.contenders[0]), 7);
    assert!(report::has_failures(&report));
    assert_eq!(
        report::verdict(&report).unwrap_err(),
        "measurement failures were recorded"
    );
    assert_eq!(report::find_contender(&report.contenders, "tmux"), Some(2));
    assert_eq!(report::find_contender(&report.contenders, "x"), None);
}

#[test]
fn only_core_metrics_enter_the_index() {
    let report = three_contenders();
    let mut other = three_contenders();
    let core = core_metrics();
    for c in other.contenders.iter_mut() {
        c.assurance.clear();
        c.static_analysis.unsafe_blocks = Some(9);
        c.benchmarks.retain(|b| core.contains(&b.name));
        c.benchmarks.push(measured_benchmark(
            "pane_close_rss",
            "KiB",
            MetricDirection::Lower,
            vec![value(1.0)],
            flat(1.0),
            "context",
        ));
    }
    let rows = index_inputs(&report);
    let again = index_inputs(&other);
    assert_eq!(rows.len(), core.len());
    assert_eq!(again.len(), rows.len());
    for (a, b) in rows.iter().zip(&again) {
        assert_eq!((&a.name, &a.unit, a.direction), (&b.name, &b.unit, b.direction));
        assert_eq!(a.values, b.values);
    }
}

#[test]
fn equal_medians_give_every_contender_a_full_score() {
    let mut report = three_contenders();
    let wrong = vec![value(1.0); 3];
    assert_eq!(performance_scores(&report, &wrong), vec![value(100.0); 3]);
    let even = Contest { value: value(1.0), best: value(1.0) };
    assert_eq!(index_contests(&report, 1), vec![even; core_metrics().len()]);
    assert_eq!(
        index_ratio(even, MetricDirection::Lower, value(0.3), false),
        value(1.0)
    );
    let unit = report.contenders[1].benchmarks[0].unit.clone();
    report.contenders[1].benchmarks[0] = measured_benchmark(
        &core_metrics()[0],
        &unit,
        MetricDirection::Lower,
        vec![value(4.0)],
        flat(4.0),
        "fixture",
    );
    let computed = geometric_means(&report);
    let scores = performance_scores(&report, &computed);
    assert_eq!(scores[0], value(100.0));
    assert_eq!(scores[2], value(100.0));
    assert_eq!(scores[1], computed[1]);
    let expected = (0.25_f64.ln() / core_metrics().len() as f64).exp() * 100.0;
    assert!((f64::from_bits(scores[1].bits) - expected).abs() < 1e-9);
    assert_eq!(
        index_contests(&report, 1)[0],
        Contest { value: value(4.0), best: value(1.0) }
    );
}

#[test]
fn quantiles_fall_between_neighbouring_samples() {
    for count in 1..400 {
        let last = (count - 1) as f64;
        let at = |q: f64| ((q * last).floor() as usize, (q * last).ceil() as usize);
        assert_eq!(median_indices(count), at(0.5));
        assert_eq!(p95_indices(count), at(0.95));
    }
    assert_eq!(median_indices(4), (1, 2));
    assert_eq!(median_indices(5), (2, 2));
    assert_eq!(p95_indices(21), (19, 19));
    assert_eq!(p95_indices(4), (2, 3));
    assert!(p95_indices(usize::MAX).1 < usize::MAX);
    let odd = [value(5.0), value(1.0), value(2.0)];
    let summary = SampleSummary::from_samples(&odd, flat(9.0));
    assert_eq!(summary.median, Some(value(2.0)));
    assert_eq!(summary.p95, Some(value(9.0)));
    assert_eq!(SampleSummary::from_samples(&odd[..1], flat(9.0)).p95, Some(value(5.0)));
}
