use ut_compare::adapters::Wait;
use ut_compare::pty::{
    contains_subslice, end_next, read_next, send_next, strip_terminal_sequences, tail, Ending,
    Observation, Transfer,
};

#[test]
fn strips_csi_and_osc_around_markers() {
    let mut output = Vec::new();
    strip_terminal_sequences(b"\x1b[2Jbefore\x1b]0;title\x07MARK\x1b[0m", &mut output);
    assert_eq!(output, b"beforeMARK");
}

#[test]
fn strings_end_at_their_terminator_and_cut_sequences_are_dropped() {
    let mut output = Vec::new();
    strip_terminal_sequences(b"a\x1bPxx\x1b\\b\x1b^yy\x07c\x1b=d\x00\x1b", &mut output);
    assert_eq!(output, b"abcd");
    let mut output = Vec::new();
    strip_terminal_sequences(b"plain\r\n\ttext", &mut output);
    assert_eq!(output, b"plain\r\n\ttext");
    let mut output = Vec::new();
    strip_terminal_sequences(b"x\x1b[12", &mut output);
    assert_eq!(output, b"x");
}

#[test]
fn subslices_and_tails() {
    assert!(contains_subslice(b"abcabd", b"abd"));
    assert!(!contains_subslice(b"abc", b"abcd"));
    assert!(!contains_subslice(b"abc", b""));
    assert_eq!(tail(b"abcdef", 2), b"ef");
    assert_eq!(tail(b"ab", 5), b"ab");
}

#[test]
fn observations_follow_the_bytes() {
    let mut seen = Observation::new(20, 3);
    seen.absorb(b"\x1b[1mhello\x1b[0m");
    assert_eq!(seen.raw_bytes, 13);
    assert_eq!(seen.stripped, b"hello");
    assert_eq!(seen.screen.rows()[0], "hello");
    assert!(matches!(seen.text_next("hello", &None, 0, 2), Wait::Done));
    assert!(matches!(seen.screen_next("hello", &None, 0, 2), Wait::Done));
    seen.clear();
    assert_eq!(seen.raw_bytes, 0);
    assert!(matches!(seen.text_next("hello", &None, 1_999, 2), Wait::Again { millis: 2 }));
    assert!(matches!(seen.screen_next("hello", &None, 0, 2), Wait::Done));
}

#[test]
fn waits_end_with_the_reason() {
    let mut seen = Observation::new(20, 2);
    seen.absorb(b"tail \xff end");
    let gone = Some("exit status: 1".to_owned());
    match seen.text_next("MARK", &None, 2_000, 2) {
        Wait::Failed { error } => assert_eq!(
            error,
            "timed out after 2.0s waiting for marker \"MARK\"; output tail: tail \u{fffd} end"
        ),
        other => panic!("{other:?}"),
    }
    match seen.text_next("MARK", &gone, 2_000, 2) {
        Wait::Failed { error } => {
            assert!(error.starts_with("PTY child exited with exit status: 1 before marker \"MARK\""))
        }
        other => panic!("{other:?}"),
    }
    match seen.screen_next("MARK", &None, 2_000, 2) {
        Wait::Failed { error } => {
            assert!(error.starts_with("timed out after 2.0s waiting for \"MARK\" to become visible\n"))
        }
        other => panic!("{other:?}"),
    }
    match seen.screen_next("MARK", &gone, 0, 2) {
        Wait::Failed { error } => assert!(error.contains("before \"MARK\" became visible")),
        other => panic!("{other:?}"),
    }
}

#[test]
fn long_text_is_cut_at_its_beginning() {
    let mut seen = Observation::new(1, 1);
    seen.stripped = vec![b'a'; 16 * 1024 * 1024];
    seen.absorb(b"bc");
    assert_eq!(seen.stripped.len(), 8 * 1024 * 1024);
    assert!(seen.stripped.ends_with(b"abc"));
}

#[test]
fn input_is_offered_until_it_is_taken() {
    let moved = |count: usize| Transfer::Moved { count };
    assert_eq!(send_next(&moved(3), 2, 9, 0), Ok((5, 0)));
    assert_eq!(
        send_next(&moved(0), 2, 9, 0).unwrap_err(),
        "PTY accepted zero input bytes"
    );
    assert_eq!(send_next(&Transfer::Blocked, 2, 9, 2_000_000_000), Ok((2, 1)));
    assert_eq!(
        send_next(&Transfer::Blocked, 2, 9, 2_000_000_001).unwrap_err(),
        "timed out writing to PTY"
    );
    assert_eq!(send_next(&Transfer::Interrupted, 2, 9, 0), Ok((2, 0)));
    let broken = Transfer::Failed {
        error: "pipe".to_owned(),
    };
    assert_eq!(
        send_next(&broken, 2, 9, 0).unwrap_err(),
        "PTY write failed: pipe"
    );
    assert_eq!(read_next(&moved(3)), Ok(true));
    assert_eq!(read_next(&moved(0)), Ok(false));
    assert_eq!(read_next(&Transfer::Blocked), Ok(false));
    assert_eq!(read_next(&Transfer::Interrupted), Ok(true));
    let gone = Transfer::Hangup { error: "gone".to_owned() };
    assert_eq!(read_next(&gone), Ok(false));
    assert_eq!(send_next(&gone, 0, 1, 0).unwrap_err(), "PTY write failed: gone");
    assert_eq!(read_next(&broken).unwrap_err(), "PTY read failed: pipe");
}

#[test]
fn clients_are_killed_after_their_grace_period() {
    assert_eq!(end_next(false, 499), Ending::Wait { millis: 10 });
    assert_eq!(end_next(true, 499), Ending::Gone);
    assert_eq!(end_next(false, 500), Ending::Kill);
}

#[test]
fn observed_text_keeps_the_bytes() {
    let mut seen = Observation::new(20, 2);
    assert_eq!(seen.observed_text(), b"");
    seen.absorb(b"\x1b[31mok\x1b[0m \xff\xc3");
    assert_eq!(seen.observed_text(), b"ok \xff\xc3");
    seen.clear();
    assert_eq!(seen.observed_text(), b"");
}
