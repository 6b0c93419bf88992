use ut_compare::screen::Screen;

#[test]
fn writes_wrap_and_scroll() {
    let mut screen = Screen::new(4, 2);
    screen.feed(b"abcdef\r\nxy");
    assert_eq!(screen.rows(), vec!["ef", "xy"]);
    screen.feed(b"\nz");
    assert_eq!(screen.rows(), vec!["xy", "  z"]);
}

#[test]
fn cursor_positioning_and_erase() {
    let mut screen = Screen::new(10, 3);
    screen.feed(b"\x1b[2J\x1b[2;3HMARK\x1b[1;1Htop\x1b[3;1Hbottom");
    assert_eq!(screen.rows(), vec!["top", "  MARK", "bottom"]);
    assert_eq!(screen.find("MARK"), vec![(1, 2)]);
    screen.feed(b"\x1b[2;1H\x1b[K");
    assert_eq!(screen.count("MARK"), 0);
    screen.feed(b"\x1b[1;1H\x1b[J");
    assert_eq!(screen.rows(), vec!["", "", ""]);
}

#[test]
fn scroll_region_insert_delete() {
    let mut screen = Screen::new(3, 4);
    screen.feed(b"a\r\nb\r\nc\r\nd");
    screen.feed(b"\x1b[2;3r\x1b[3;1H\n");
    assert_eq!(screen.rows(), vec!["a", "c", "", "d"]);
    screen.feed(b"\x1b[2;1H\x1b[L");
    assert_eq!(screen.rows(), vec!["a", "", "c", "d"]);
    screen.feed(b"\x1b[M");
    assert_eq!(screen.rows(), vec!["a", "c", "", "d"]);
    screen.feed(b"\x1b[r\x1b[1;1Hxyz\x1b[1;2H\x1b[P");
    assert_eq!(screen.rows()[0], "xz");
    screen.feed(b"\x1b[1;2H\x1b[@");
    assert_eq!(screen.rows()[0], "x z");
}

#[test]
fn alternate_screen_is_separate_and_restores_primary() {
    let mut screen = Screen::new(8, 2);
    screen.feed(b"primary");
    screen.feed(b"\x1b[?1049h\x1b[Halt");
    assert_eq!(screen.rows(), vec!["alt", ""]);
    screen.feed(b"\x1b[?1049l");
    assert_eq!(screen.rows(), vec!["primary", ""]);
}

#[test]
fn every_alternate_mode_brings_text_and_cursor_back() {
    for mode in ["47", "1047", "1049"] {
        let mut screen = Screen::new(8, 3);
        screen.feed(b"one\r\ntwo");
        screen.feed(format!("\x1b[?{mode}h").as_bytes());
        assert_eq!(screen.rows(), vec!["", "", ""]);
        screen.feed(b"\x1b[2J\x1b[3;1Hx\x1b[?25l\x1b7\x1b]0;t\x07\xc3\xa9\n\n\n\x1b[2L");
        screen.feed(format!("\x1b[?{mode}l").as_bytes());
        assert_eq!(screen.rows(), vec!["one", "two", ""]);
        screen.feed(b"!");
        assert_eq!(screen.rows(), vec!["one", "two!", ""]);
    }
}

#[test]
fn osc_dcs_sgr_and_utf8_are_handled() {
    let mut screen = Screen::new(12, 1);
    screen.feed(b"\x1b]0;title\x07\x1bP+q\x1b\\\x1b[1;31mr\xc3\xa9d\x1b[0m \xe2\x94\x82!");
    assert_eq!(screen.rows(), vec!["r\u{e9}d \u{2502}!"]);
    let mut split = Screen::new(4, 1);
    split.feed(b"\xe2\x94");
    split.feed(b"\x82");
    assert_eq!(split.rows(), vec!["\u{2502}"]);
}

#[test]
fn resize_keeps_content_and_clamps_cursor() {
    let mut screen = Screen::new(6, 2);
    screen.feed(b"hello\r\nworld");
    screen.resize(3, 3);
    assert_eq!(screen.rows(), vec!["hel", "wor", ""]);
    screen.feed(b"!");
    assert_eq!(screen.rows()[1], "wo!");
}

#[test]
fn slices_are_column_anchored() {
    let mut screen = Screen::new(10, 1);
    screen.feed(b"ab MARK xy");
    assert_eq!(screen.slice(0, 3, 4), "MARK");
    assert_eq!(screen.slice(0, 8, 20), "xy");
    assert_eq!(screen.slice(0, 40, 2), "");
}

#[test]
fn chunks_make_no_difference() {
    let bytes = b"one\x1b[2;4Htwo \xe2\x94\x82\x1b]0;t\x07\x1b[1mx";
    let mut whole = Screen::new(12, 3);
    whole.feed(bytes);
    for cut in 0..bytes.len() {
        let mut parts = Screen::new(12, 3);
        parts.feed(&bytes[..cut]);
        parts.feed(&bytes[cut..]);
        assert_eq!(parts.rows(), whole.rows());
    }
}

#[test]
fn size_row_text_and_dump_agree() {
    let mut screen = Screen::new(5, 2);
    screen.feed(b"ab\r\ncd");
    assert_eq!(screen.size(), (5, 2));
    assert_eq!(screen.row_text(0), "ab   ");
    assert_eq!(screen.row_text(7), "");
    assert!(screen.dump().contains("ab"));
    assert_eq!(screen.dump().lines().count(), 2);
}

#[test]
fn cursor_is_saved_and_restored() {
    let mut screen = Screen::new(6, 2);
    screen.feed(b"ab\x1b7\x1b[2;1Hcd\x1b8X");
    assert_eq!(screen.rows(), vec!["abX", "cd"]);
    screen.feed(b"\x1bc");
    assert_eq!(screen.rows(), vec!["", ""]);
}

#[test]
fn broken_utf8_and_unknown_sequences_do_no_harm() {
    let mut screen = Screen::new(6, 1);
    screen.feed(b"\xff\x1b[5;6;7q\x1b[?25lok");
    assert!(screen.rows()[0].ends_with("ok"));
}

#[test]
fn smallest_sizes_are_safe() {
    let mut screen = Screen::new(0, 0);
    screen.feed(b"abc\r\n\x1b[5;5Hx\x1b[2J\x1b[L\x1b[P");
    screen.resize(2, 1);
    screen.feed(b"\x1b[Hok");
    assert_eq!(screen.rows(), vec!["ok"]);
}

#[test]
fn nothing_is_found_for_an_empty_text() {
    let mut screen = Screen::new(6, 1);
    screen.feed(b"aaaa");
    assert_eq!(screen.count(""), 0);
    assert_eq!(screen.find("aa"), vec![(0, 0), (0, 1), (0, 2)]);
}
