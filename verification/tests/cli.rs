use ut_compare::cli::{
    diagnose, dispatch, option, parse_seed, positional_args, reject_unknown_options, Checkup,
    Invocation, ProductCheck,
};

fn list(items: &[&str]) -> Vec<String> {
    let mut out = Vec::new();
    for item in items {
        out.push((*item).to_owned());
    }
    out
}

#[test]
fn positional_report_inputs_skip_option_values() {
    let args = list(&["--output", "report.md", "linux.json", "mac.json"]);
    assert_eq!(
        positional_args(&args, &["--output"]),
        vec!["linux.json", "mac.json"]
    );
}

#[test]
fn options_are_followed_by_their_values() {
    let args = list(&["--a", "1", "--b"]);
    assert_eq!(option(&args, "--a"), Some("1".to_owned()));
    assert_eq!(option(&args, "--b"), None);
    assert_eq!(option(&args, "--c"), None);
    assert_eq!(
        reject_unknown_options(&args, &["--a", "--b"], false).unwrap_err(),
        "--b requires a value"
    );
    assert_eq!(
        reject_unknown_options(&list(&["--a", "--b"]), &["--a"], false).unwrap_err(),
        "--a requires a value"
    );
    assert_eq!(
        reject_unknown_options(&list(&["-x"]), &["--a"], true).unwrap_err(),
        "unknown option \"-x\""
    );
    assert_eq!(
        reject_unknown_options(&list(&["x"]), &["--a"], false).unwrap_err(),
        "unexpected positional argument \"x\""
    );
    assert!(reject_unknown_options(&list(&["x", "--a", "1"]), &["--a"], true).is_ok());
}

#[test]
fn commands_and_their_defaults() {
    match dispatch(&list(&["run", "--seed", "7"])).unwrap() {
        Invocation::Run { config, profile, output, markdown, seed } => {
            assert_eq!(config, "comparison.toml");
            assert_eq!(profile, "standard");
            assert_eq!(output, "reports/run.json");
            assert_eq!(markdown, None);
            assert_eq!(seed, Some("7".to_owned()));
        }
        other => panic!("{other:?}"),
    }
    match dispatch(&list(&["report", "a.json", "--title", "T", "b.json"])).unwrap() {
        Invocation::Report { title, output, inputs } => {
            assert_eq!(title, "T");
            assert_eq!(output, "reports/comparison.md");
            assert_eq!(inputs, vec!["a.json", "b.json"]);
        }
        other => panic!("{other:?}"),
    }
    match dispatch(&list(&["sanitize", "a.json", "--markdown", "m.md"])).unwrap() {
        Invocation::Sanitize { input, output, markdown } => {
            assert_eq!(input, "a.json");
            assert_eq!(output, "reports/sanitized.json");
            assert_eq!(markdown, Some("m.md".to_owned()));
        }
        other => panic!("{other:?}"),
    }
    assert!(matches!(dispatch(&list(&["doctor"])).unwrap(), Invocation::Doctor { .. }));
    assert!(matches!(dispatch(&list(&["-V"])).unwrap(), Invocation::Version));
    assert!(matches!(dispatch(&list(&["--version"])).unwrap(), Invocation::Version));
    assert!(matches!(dispatch(&list(&["-h"])).unwrap(), Invocation::Help));
    assert!(matches!(dispatch(&Vec::new()).unwrap(), Invocation::Help));
}

#[test]
fn command_lines_are_refused_with_a_reason() {
    assert_eq!(
        dispatch(&list(&["fly"])).unwrap_err(),
        "unknown command \"fly\"; run with --help"
    );
    assert_eq!(
        dispatch(&list(&["report"])).unwrap_err(),
        "report requires one or more run JSON paths"
    );
    assert_eq!(
        dispatch(&list(&["sanitize", "a", "b"])).unwrap_err(),
        "sanitize requires exactly one input report"
    );
    assert_eq!(
        dispatch(&list(&["run", "x"])).unwrap_err(),
        "unexpected positional argument \"x\""
    );
}

#[test]
fn seeds_are_non_negative_integers() {
    assert_eq!(parse_seed("18446744073709551615"), Ok(u64::MAX));
    assert_eq!(
        parse_seed("-1").unwrap_err(),
        "--seed expects a non-negative integer, got \"-1\""
    );
    assert!(parse_seed("18446744073709551616").is_err());
}

#[test]
fn the_doctor_names_what_is_missing() {
    let mut checkup = Checkup {
        ps: true,
        git: true,
        uname: true,
        shell: true,
        products: vec![ProductCheck {
            id: "mine".to_owned(),
            adapter: "uniterm".to_owned(),
            version: Ok("uniterm 1.2.3 private-sentinel".to_owned()),
        }],
        os: "linux".to_owned(),
        architecture: "x86_64".to_owned(),
        wsl: true,
    };
    let fine = diagnose(&checkup);
    assert!(fine.failures.is_empty());
    assert_eq!(
        fine.lines,
        vec![
            "ok  uniterm 1.2.3",
            "ok  host         linux / x86_64 / WSL",
            "doctor passed"
        ]
    );
    checkup.git = false;
    checkup.shell = false;
    checkup.wsl = false;
    checkup.products[0].version = Err("gone".to_owned());
    let ill = diagnose(&checkup);
    assert_eq!(ill.lines, vec!["ok  host         linux / x86_64"]);
    assert_eq!(
        ill.failures,
        vec![
            "required command \"git\" is unavailable",
            "required POSIX shell /bin/sh is unavailable",
            "mine: gone"
        ]
    );
}
