use ut_compare::measure::{finite_ascending, Real};
use ut_compare::oracle::{
    latency_marker, output_payload, parse_size_probe, rotated_order, shell_octal, verify_extra,
    verify_latency_screen, verify_output_screen, verify_tag,
};
use ut_compare::screen::Screen;

#[test]
fn marker_encoding_does_not_echo_plain_marker() {
    let encoded = shell_octal("MARK");
    assert_eq!(encoded, "\\115\\101\\122\\113");
    assert!(!encoded.contains("MARK"));
}

#[test]
fn latency_markers_change_every_visible_cell() {
    for iteration in 1..100 {
        let previous = latency_marker(iteration - 1);
        let current = latency_marker(iteration);
        assert_eq!(current.len(), previous.len());
        assert!(current
            .bytes()
            .zip(previous.bytes())
            .all(|(left, right)| left != right));
    }
}

#[test]
fn output_payloads_change_every_payload_cell() {
    for iteration in 1..62 {
        let previous = output_payload(iteration - 1);
        let current = output_payload(iteration);
        assert_eq!(current.len(), 62);
        assert!(current
            .bytes()
            .zip(previous.bytes())
            .all(|(left, right)| left != right));
    }
}

#[test]
fn output_oracle_requires_intact_ordered_tail() {
    let payload = output_payload(0);
    // Narrow screen so payload lines wrap, exactly like the products' sidebar chrome.
    let mut screen = Screen::new(40, 24);
    let mut text = String::new();
    for index in 9_980..10_000 {
        text.push_str(&format!("{index:08} {payload}\r\n"));
    }
    text.push_str("UTC_OUTPUT_WORKLOAD_END_00\r\nsh$ ");
    screen.feed(text.as_bytes());
    assert!(
        verify_output_screen(&screen, 10_000, &payload, "UTC_OUTPUT_WORKLOAD_END_00").is_ok(),
        "{}",
        screen.dump()
    );
    let missing = verify_output_screen(&screen, 10_000, &payload, "UTC_OUTPUT_WORKLOAD_END_01")
        .unwrap_err();
    assert!(missing.contains("not on the visible screen"));
    // A dropped tail line fails: render a burst that skips index 00009995.
    let mut gap = Screen::new(40, 24);
    let mut gap_text = String::new();
    for index in 9_980..10_000 {
        if index == 9_995 {
            continue;
        }
        gap_text.push_str(&format!("{index:08} {payload}\r\n"));
    }
    gap_text.push_str("UTC_OUTPUT_WORKLOAD_END_00\r\nsh$ ");
    gap.feed(gap_text.as_bytes());
    let error =
        verify_output_screen(&gap, 10_000, &payload, "UTC_OUTPUT_WORKLOAD_END_00").unwrap_err();
    assert!(error.contains("not visible above the marker"), "{error}");
    // Garbled payload text next to an intact index fails.
    let mut garbled = Screen::new(40, 24);
    let mut garbled_text = String::new();
    for index in 9_980..10_000 {
        let line = if index == 9_997 {
            format!("{index:08} 0123XXXXXX{}", &payload[10..])
        } else {
            format!("{index:08} {payload}")
        };
        garbled_text.push_str(&line);
        garbled_text.push_str("\r\n");
    }
    garbled_text.push_str("UTC_OUTPUT_WORKLOAD_END_00\r\nsh$ ");
    garbled.feed(garbled_text.as_bytes());
    let error = verify_output_screen(&garbled, 10_000, &payload, "UTC_OUTPUT_WORKLOAD_END_00")
        .unwrap_err();
    assert!(error.contains("burst tail requires"), "{error}");
    assert!(error.contains("\"00009997 0123XXXXXXa\""), "{error}");
}

#[test]
fn latency_oracle_rejects_stale_markers() {
    let mut screen = Screen::new(40, 4);
    screen.feed(b"AAAAAAAA\r\nBBBBBBBB");
    assert!(verify_latency_screen(&screen, "BBBBBBBB", None).is_ok());
    assert!(verify_latency_screen(&screen, "BBBBBBBB", Some("AAAAAAAA")).is_err());
    assert!(verify_latency_screen(&screen, "CCCCCCCC", None).is_err());
}

/// The middle value, or the mean of the two in the middle.
fn median_of(values: &[f64]) -> f64 {
    let list: Vec<Real> = values.iter().map(|x| Real { bits: x.to_bits() }).collect();
    let sorted = finite_ascending(&list);
    let at = |i: usize| f64::from_bits(sorted[i].bits);
    let middle = sorted.len() / 2;
    if sorted.len() % 2 == 1 {
        at(middle)
    } else {
        (at(middle - 1) + at(middle)) / 2.0
    }
}

/// How much the second value grows with the first, by least squares.
fn least_squares_slope(points: &[(u64, f64)]) -> f64 {
    let n = points.len() as f64;
    let mean_x = points.iter().map(|p| p.0 as f64).sum::<f64>() / n;
    let mean_y = points.iter().map(|p| p.1).sum::<f64>() / n;
    let spread: f64 = points.iter().map(|p| (p.0 as f64 - mean_x).powi(2)).sum();
    if points.len() < 2 || spread == 0.0 {
        return 0.0;
    }
    points.iter().map(|p| (p.0 as f64 - mean_x) * (p.1 - mean_y)).sum::<f64>() / spread
}

#[test]
fn size_probe_parsing_and_statistics() {
    let mut screen = Screen::new(40, 3);
    screen.feed(b"junk SZ3:40 118:\r\nsh$ ");
    assert_eq!(parse_size_probe(&screen, "SZ3:"), Some((40, 118)));
    let mut partial = Screen::new(40, 3);
    partial.feed(b"SZ3:40 11");
    assert_eq!(parse_size_probe(&partial, "SZ3:"), None);
    assert_eq!(parse_size_probe(&screen, "SZ4:"), None);
    assert_eq!(median_of(&[3.0, 1.0, 2.0]), 2.0);
    assert_eq!(median_of(&[4.0, 1.0, 3.0, 2.0]), 2.5);
    let slope = least_squares_slope(&[(1, 100.0), (2, 150.0), (3, 200.0), (4, 250.0)]);
    assert!((slope - 50.0).abs() < 1e-9);
    assert_eq!(least_squares_slope(&[(1, 5.0)]), 0.0);
}

#[test]
fn trial_order_is_seeded() {
    assert_eq!(rotated_order(3, 1), vec![1, 2, 0]);
}

#[test]
fn every_order_is_a_permutation() {
    for seed in 0..9 {
        let mut order = rotated_order(4, seed);
        order.sort();
        assert_eq!(order, vec![0, 1, 2, 3]);
    }
    assert_eq!(rotated_order(0, 5), Vec::<usize>::new());
    assert_eq!(rotated_order(1, 5), vec![0]);
}

#[test]
fn markers_and_payloads_have_known_first_values() {
    assert_eq!(latency_marker(0), "AAAAAAAA");
    assert_eq!(latency_marker(27), "BBBBBBBB");
    assert!(output_payload(0).starts_with("0123456789"));
}

#[test]
fn tags_and_extra_clients_are_checked_on_the_screen() {
    let mut screen = Screen::new(40, 3);
    screen.feed(b"SZ1:40 118:\r\nCCCCCCCC");
    assert!(verify_extra(&screen, 0, "CCCCCCCC").is_ok());
    assert!(verify_extra(&screen, 0, "DDDDDDDD").is_err());
    assert!(verify_tag(&screen, "ZZZ9").is_err());
}
