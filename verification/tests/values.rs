use std::path::Path;
use ut_compare::decimal::{decimal_padded, hex_padded, parse_u16, parse_u32, parse_u64, wide_text};
use ut_compare::measure::{finite_ascending, Real};
use ut_compare::paths;
use ut_compare::sums;
use ut_compare::text;
use ut_compare::textmap::TextMap;

fn value(x: f64) -> Real {
    Real { bits: x.to_bits() }
}

#[test]
fn white_space_is_that_of_unicode() {
    for code in 0..=0x10ffffu32 {
        if let Some(c) = char::from_u32(code) {
            assert_eq!(text::is_white(c), c.is_whitespace(), "{code:x}");
        }
    }
}

#[test]
fn splitting_agrees_with_the_standard_library() {
    for sample in ["", " ", "a", " a  b\tc ", "a\u{2003}b", "x:y::z", ":", "a\nb\r\nc\n", "\n", "\r\n\n"] {
        assert_eq!(text::words_of(sample), sample.split_whitespace().collect::<Vec<_>>());
        assert_eq!(text::fields_of(sample, ':'), sample.split(':').collect::<Vec<_>>());
        assert_eq!(text::lines_of(sample), sample.lines().collect::<Vec<_>>());
        assert_eq!(text::trimmed(sample), sample.trim());
        assert_eq!(text::lowered_of(sample), sample.to_ascii_lowercase());
    }
    assert_eq!(text::halves_of("a-b-c", '-'), Some(("a".to_owned(), "b-c".to_owned())));
    assert_eq!(text::halves_of("abc", '-'), None);
}

#[test]
fn searching_agrees_with_the_standard_library() {
    for (hay, needle) in [("abcabc", "ca"), ("aaa", "aa"), ("", "a"), ("a", ""), ("", ""), ("\u{e9}b", ""), ("abc", "d"), ("\u{e9}ab", "ab")] {
        assert_eq!(text::has(hay, needle), hay.contains(needle));
        assert_eq!(text::count_occurrences(hay, needle), hay.matches(needle).count());
        assert_eq!(text::has_prefix(hay, needle), hay.starts_with(needle));
    }
    assert!(text::is_before("a", "b"));
    assert!(text::is_before("a", "ab"));
    assert!(!text::is_before("b", "a"));
    assert!(text::is_before("z", "\u{e9}"));
}

#[test]
fn numerals_agree_with_the_standard_library() {
    for sample in ["", "0", "007", "+5", "-1", "65535", "65536", "4294967295", "4294967296", "18446744073709551615", "18446744073709551616", "1 ", "+", "a"] {
        assert_eq!(parse_u64(sample), sample.parse::<u64>().ok());
        assert_eq!(parse_u32(sample), sample.parse::<u32>().ok());
        assert_eq!(parse_u16(sample), sample.parse::<u16>().ok());
    }
    assert_eq!(decimal_padded(42, 8, '0'), "00000042");
    assert_eq!(hex_padded(0xdead_beef, 8), "deadbeef");
    assert_eq!(hex_padded(10, 4), "000a");
    assert_eq!(hex_padded(u64::MAX, 4), "ffffffffffffffff");
    assert_eq!(wide_text(u128::MAX), u128::MAX.to_string());
    assert_eq!(wide_text(0), "0");
}

#[test]
fn paths_agree_with_the_standard_library() {
    for sample in ["", "/", ".", "..", "a", "a/b", "/a//b/./c/", "./a", "a/..", "a/.hidden", "x.tar.gz", "/a/b.rs", "b."] {
        let mut expected = Vec::new();
        for part in Path::new(sample).components() {
            expected.push(part.as_os_str().to_str().unwrap().to_owned());
        }
        assert_eq!(paths::components_of(sample), expected, "{sample}");
        let name = Path::new(sample).file_name().and_then(|n| n.to_str());
        assert_eq!(paths::last_name_of(&expected).as_deref(), name, "{sample}");
        if let Some(name) = name {
            let extension = Path::new(name).extension().and_then(|e| e.to_str()).unwrap_or("");
            assert_eq!(paths::extension_of(name), extension, "{sample}");
        }
        for more in ["", "c", "/c", "c/d"] {
            let joined = Path::new(sample).join(more);
            assert_eq!(paths::join(sample, more), joined.to_str().unwrap(), "{sample} {more}");
        }
    }
    assert_eq!(paths::strip_root("/a", "/a/b/c"), Some(vec!["b".to_owned(), "c".to_owned()]));
    assert_eq!(paths::strip_root("/a", "/ab"), None);
}

#[test]
fn measured_values_are_ordered_as_numbers() {
    let numbers = [-f64::INFINITY, -2.0, -0.0, 0.0, 1e-300, 0.5, 3.0, f64::INFINITY];
    for (i, a) in numbers.iter().enumerate() {
        assert_eq!(value(*a).is_finite(), a.is_finite());
        assert_eq!(value(*a).is_positive(), *a > 0.0);
        for b in &numbers[i..] {
            assert_eq!(value(*a).equals(value(*b)), a == b);
        }
    }
    assert!(!value(f64::NAN).is_positive());
    assert!(!value(f64::NAN).equals(value(f64::NAN)));
    assert_eq!(
        finite_ascending(&[value(3.0), value(f64::NAN), value(-1.0), value(0.5)]),
        vec![value(-1.0), value(0.5), value(3.0)]
    );
}

#[test]
fn named_values_stay_in_order_and_are_replaced() {
    let mut map = TextMap::new();
    map.insert("b", "1");
    map.insert("a", "2");
    map.insert("c", "3");
    map.insert("b", "4");
    assert_eq!(map.len(), 3);
    assert_eq!((map.key(0), map.value(0)), ("a", "2"));
    assert_eq!((map.key(1), map.value(1)), ("b", "4"));
    assert_eq!(map.get("c"), Some("3".to_owned()));
    assert_eq!(map.get("d"), None);
    assert_eq!(map.copied().len(), 3);
}

#[test]
fn sums_stay_at_their_limit() {
    assert_eq!(sums::plus(2, 3), 5);
    assert_eq!(sums::plus(u64::MAX, 3), u64::MAX);
}
