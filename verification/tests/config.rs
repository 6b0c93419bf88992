use ut_compare::config::{
    default_title, default_weight, expand_home, profile, resolve_path, AssuranceConfig,
    ComparisonConfig, Config, ContenderConfig, Presence,
};
use ut_compare::measure::Real;
use ut_compare::model::AssuranceStatus;
use ut_compare::textmap::TextMap;

fn value(x: f64) -> Real {
    Real { bits: x.to_bits() }
}

fn rating(category: &str, criterion: &str, weight: f64) -> AssuranceConfig {
    AssuranceConfig {
        category: category.to_owned(),
        criterion: criterion.to_owned(),
        status: AssuranceStatus::Pass,
        weight: value(weight),
        summary: "summary".to_owned(),
        evidence: vec!["evidence".to_owned()],
    }
}

fn contender(id: &str, adapter: &str) -> ContenderConfig {
    ContenderConfig {
        id: id.to_owned(),
        display_name: id.to_owned(),
        adapter: adapter.to_owned(),
        binary: format!("/bin/{id}"),
        source: format!("/src/{id}"),
        environment: TextMap::new(),
        assurance: vec![rating("security", "a", 1.0), rating("security", "b", 2.0)],
    }
}

fn pair() -> Config {
    Config {
        comparison: ComparisonConfig {
            title: default_title(),
            seed: 0,
            keep_workdirs: false,
        },
        contenders: vec![contender("one", "uniterm"), contender("two", "herdr")],
    }
}

fn there(n: usize) -> Vec<Presence> {
    vec![
        Presence {
            binary: true,
            source: true
        };
        n
    ]
}

fn refused(config: &Config) -> String {
    config.validate(&there(config.contenders.len())).unwrap_err()
}

#[test]
fn profiles_increase_in_rigor() {
    let smoke = profile("smoke").unwrap();
    let marketing = profile("marketing").unwrap();
    assert!(f64::from_bits(marketing.idle_seconds.bits) > f64::from_bits(smoke.idle_seconds.bits));
    assert!(marketing.latency_iterations > smoke.latency_iterations);
    assert!(marketing.output_iterations > smoke.output_iterations);
}

#[test]
fn home_expansion_is_conservative() {
    assert_eq!(
        expand_home("relative/file", &Some("/home/x".to_owned())),
        "relative/file"
    );
}

#[test]
fn profile_values_are_fixed() {
    let expected = [("smoke", 2.0, 0.5), ("standard", 30.0, 3.0), ("marketing", 300.0, 10.0)];
    for (name, idle, settle) in expected {
        let found = profile(name).unwrap();
        assert_eq!(found.name, name);
        assert_eq!(found.idle_seconds, value(idle));
        assert_eq!(found.settle_seconds, value(settle));
    }
    assert_eq!(profile("standard").unwrap().output_lines, 10_000);
    assert_eq!(
        profile("x").unwrap_err(),
        "unknown profile \"x\"; use smoke, standard, or marketing"
    );
}

#[test]
fn homes_and_relative_paths_are_resolved() {
    let home = Some("/home/x".to_owned());
    assert_eq!(expand_home("~", &home), "/home/x");
    assert_eq!(expand_home("~/a", &home), "/home/x/a");
    assert_eq!(expand_home("~other/a", &home), "~other/a");
    assert_eq!(expand_home("~/a", &None), "~/a");
    assert_eq!(resolve_path("/base", "a/b", &home), "/base/a/b");
    assert_eq!(resolve_path("", "a", &home), "a");
    assert_eq!(resolve_path("/base", "/a", &home), "/a");
    assert_eq!(resolve_path("/base", "~/a", &home), "/home/x/a");
}

#[test]
fn fair_configurations_are_accepted() {
    assert_eq!(pair().validate(&there(2)), Ok(()));
    assert_eq!(default_title(), "Terminal multiplexer comparison");
    assert_eq!(default_weight(), value(1.0));
    let mut reordered = pair();
    reordered.contenders[1].assurance.reverse();
    reordered.contenders[1].assurance.push(rating("security", "a", 3.0));
    assert_eq!(reordered.validate(&there(2)), Ok(()));
}

#[test]
fn each_fault_is_named() {
    let mut config = pair();
    config.comparison.keep_workdirs = true;
    assert_eq!(refused(&config), "raw workdirs cannot be retained");

    let mut config = pair();
    config.contenders.truncate(1);
    assert_eq!(refused(&config), "at least two contenders are required");

    let mut config = pair();
    config.contenders[0].id = "a b".to_owned();
    assert_eq!(
        refused(&config),
        "contender id \"a b\" must contain only ASCII letters, digits, '-' or '_'"
    );

    let mut config = pair();
    config.contenders[1].id = "one".to_owned();
    assert_eq!(refused(&config), "duplicate contender id \"one\"");

    let mut config = pair();
    config.contenders[1].adapter = "unsupported".to_owned();
    assert_eq!(
        refused(&config),
        "unsupported adapter \"unsupported\" for two (expected uniterm, herdr, or tmux)"
    );

    let mut present = there(2);
    present[1].binary = false;
    assert_eq!(
        pair().validate(&present).unwrap_err(),
        "binary for two does not exist: /bin/two"
    );
    let mut present = there(2);
    present[0].source = false;
    assert_eq!(
        pair().validate(&present).unwrap_err(),
        "source for one does not exist: /src/one"
    );

    for weight in [0.0, -1.0, f64::INFINITY, f64::NAN] {
        let mut config = pair();
        config.contenders[1].assurance[1].weight = value(weight);
        assert_eq!(
            refused(&config),
            "assurance weight for security / b must be positive"
        );
    }

    let mut config = pair();
    config.contenders[1].assurance.pop();
    assert_eq!(
        refused(&config),
        "two does not use exactly the same assurance criteria as one"
    );
}

#[test]
fn ratings_enter_reports_unchanged() {
    let found = rating("security", "a", 2.5).finding();
    assert_eq!(found.category, "security");
    assert_eq!(found.criterion, "a");
    assert_eq!(found.weight, value(2.5));
    assert_eq!(found.evidence, vec!["evidence"]);
}
