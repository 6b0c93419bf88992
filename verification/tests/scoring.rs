use ut_compare::measure::Real;
use ut_compare::model::MetricDirection;
use ut_compare::scoring;

fn value(x: f64) -> Real {
    Real { bits: x.to_bits() }
}

fn float(x: Real) -> f64 {
    f64::from_bits(x.bits)
}

fn index_ratio(values: &[f64], x: f64, direction: MetricDirection, floor: f64) -> f64 {
    let list: Vec<Real> = values.iter().map(|v| value(*v)).collect();
    let contest = scoring::index_contest(&list, value(x), direction, value(floor));
    let (own, best) = (float(contest.value), float(contest.best));
    let quotient = match direction {
        MetricDirection::Higher => own / best,
        _ => best / own,
    };
    let tied = (own - best).abs() <= best.abs().max(0.001) * 0.01;
    float(scoring::index_ratio(contest, direction, value(quotient), tied))
}

#[test]
fn index_ratio_treats_near_zero_cpu_as_a_tie() {
    let values = [0.0, 0.03];
    assert_eq!(index_ratio(&values, 0.0, MetricDirection::Lower, 0.1), 1.0);
    assert_eq!(index_ratio(&values, 0.03, MetricDirection::Lower, 0.1), 1.0);
    let values = [0.0, 0.5];
    assert!((index_ratio(&values, 0.5, MetricDirection::Lower, 0.1) - 0.2).abs() < 1e-9);
}

#[test]
fn index_ratio_uses_one_percent_ties_and_lower_bound() {
    let values = [100.0, 100.9, 200.0];
    assert_eq!(
        index_ratio(&values, 100.9, MetricDirection::Lower, 0.0),
        1.0
    );
    assert!((index_ratio(&values, 200.0, MetricDirection::Lower, 0.0) - 0.5).abs() < 1e-9);
    assert_eq!(
        index_ratio(&[1.0, 1000.0], 1000.0, MetricDirection::Lower, 0.0),
        0.01
    );
    assert!((index_ratio(&[8.0, 4.0], 4.0, MetricDirection::Higher, 0.0) - 0.5).abs() < 1e-9);
}

#[test]
fn floors_are_those_of_the_unit() {
    assert_eq!(float(scoring::index_floor("% core")), 0.1);
    assert_eq!(float(scoring::index_floor("ms")), 0.0);
    let level = scoring::index_contest(
        &[value(0.0), value(0.03)],
        value(0.0),
        MetricDirection::Lower,
        value(0.1),
    );
    assert_eq!((level.value, level.best), (value(0.1), value(0.1)));
}

#[test]
fn contests_pick_the_best_value() {
    let list = [value(3.0), value(f64::NAN), value(-2.0), value(7.0)];
    let lower = scoring::index_contest(&list, value(3.0), MetricDirection::Lower, value(-9.0));
    assert_eq!((float(lower.value), float(lower.best)), (3.0, -9.0));
    let lower = scoring::index_contest(&list[2..], value(3.0), MetricDirection::Lower, value(0.0));
    assert_eq!(float(lower.best), 0.0);
    let higher = scoring::index_contest(&list, value(3.0), MetricDirection::Higher, value(0.0));
    assert_eq!(float(higher.best), 7.0);
    let none = scoring::index_contest(&[], value(3.0), MetricDirection::Lower, value(0.0));
    assert_eq!(float(none.best), f64::INFINITY);
}

#[test]
fn ratios_stay_in_their_range() {
    let contest = scoring::Contest {
        value: value(2.0),
        best: value(1.0),
    };
    let ratio = |direction, quotient, tied| {
        float(scoring::index_ratio(contest, direction, value(quotient), tied))
    };
    assert_eq!(ratio(MetricDirection::Lower, 0.5, false), 0.5);
    assert_eq!(ratio(MetricDirection::Lower, 0.5, true), 1.0);
    assert_eq!(ratio(MetricDirection::Lower, -3.0, false), 0.01);
    assert_eq!(ratio(MetricDirection::Lower, 3.0, false), 1.0);
    assert_eq!(ratio(MetricDirection::Neutral, 0.5, false), 1.0);
    let zero = scoring::Contest {
        value: value(0.0),
        best: value(0.0),
    };
    for direction in [MetricDirection::Lower, MetricDirection::Higher] {
        assert_eq!(
            float(scoring::index_ratio(zero, direction, value(0.5), false)),
            1.0
        );
    }
}

#[test]
fn units_have_their_precision() {
    let style = |x: f64, unit: &str| {
        let s = scoring::value_style(value(x), unit, x.fract().abs() < 0.000_001);
        (s.divisions, s.digits, s.suffix)
    };
    assert_eq!(style(1_048_576.0, "bytes"), (2, 2, " MiB".to_owned()));
    assert_eq!(style(1_048_575.0, "bytes"), (1, 1, " KiB".to_owned()));
    assert_eq!(style(1_023.0, "bytes"), (0, 0, String::new()));
    assert_eq!(style(1_024.0, "KiB"), (1, 2, " MiB".to_owned()));
    assert_eq!(style(1_023.5, "KiB"), (0, 2, String::new()));
    assert_eq!(style(5.0, "ms"), (0, 2, String::new()));
    assert_eq!(style(5.0, "ms CPU"), (0, 2, String::new()));
    assert_eq!(style(5.0, "%"), (0, 1, String::new()));
    assert_eq!(style(5.5, "KiB/pane"), (0, 0, String::new()));
    assert_eq!(style(5.0, "% core"), (0, 3, String::new()));
    assert_eq!(style(5.0, "MiB/s"), (0, 3, String::new()));
    assert_eq!(style(5.0, "count"), (0, 0, String::new()));
    assert_eq!(style(5.25, "count"), (0, 2, String::new()));
}
