//! What is typed into a pane, and what the screen must then show.

use vstd::prelude::*;
use crate::decimal;
use crate::grid;
use crate::grid::GridModel;
use crate::screen;
use crate::screen::Screen;
use crate::text;

verus! {

// ---------------------------------------------------------------------------------------------
// Markers and payloads
// ---------------------------------------------------------------------------------------------

/// The marker of a latency trial: one letter, eight times.
pub open spec fn marker(iteration: nat) -> Seq<char> {
    Seq::new(8, |i: int| (65 + iteration % 26) as char)
}

/// Adjacent trials must change every cell. A damage-based renderer may otherwise emit only the
/// one changed digit, making an observer of the raw stream unable to prove that the full new
/// marker is visible even though the terminal screen is correct.
pub fn latency_marker(iteration: usize) -> (r: String)
    ensures
        r@ == marker(iteration as nat),
{
    let letter: char = (65 + (iteration % 26) as u8) as char;
    let mut out: String = String::new();
    let mut i: usize = 0;
    while i < 8
        invariant
            i <= 8,
            letter == (65 + iteration as nat % 26) as char,
            out@ =~= marker(iteration as nat).take(i as int),
        decreases 8 - i,
    {
        out.push(letter);
        i = i + 1;
    }
    assert(marker(iteration as nat).take(8) =~= marker(iteration as nat));
    out
}

/// The markers of adjacent trials differ in every cell.
pub proof fn law_adjacent_markers_share_no_cell(iteration: nat, i: int)
    requires
        0 <= i < 8,
    ensures
        marker(iteration).len() == 8,
        marker(iteration + 1).len() == 8,
        marker(iteration)[i] != marker(iteration + 1)[i],
{
    let a = (65 + iteration % 26) as char;
    let b = (65 + (iteration + 1) % 26) as char;
    assert(a as int == 65 + iteration % 26);
    assert(b as int == 65 + (iteration + 1) % 26);
}

/// The payload alphabet: digits, then lower-case and upper-case letters.
pub open spec fn alphabet(i: int) -> char {
    if i < 10 {
        (48 + i) as char
    } else if i < 36 {
        (87 + i) as char
    } else {
        (29 + i) as char
    }
}

/// The payload of a burst: the alphabet, turned by the number of the burst.
pub open spec fn payload(iteration: nat) -> Seq<char> {
    Seq::new(62, |i: int| alphabet((iteration as int + i) % 62))
}

fn alphabet_char(i: usize) -> (r: char)
    requires
        i < 62,
    ensures
        r == alphabet(i as int),
{
    let k: u8 = i as u8;
    if k < 10 {
        (48 + k) as char
    } else if k < 36 {
        (87 + k) as char
    } else {
        (29 + k) as char
    }
}

/// Changes every payload cell between bursts, so that a damage-based renderer cannot satisfy
/// later trials by emitting only the marker.
pub fn output_payload(iteration: usize) -> (r: String)
    ensures
        r@ == payload(iteration as nat),
{
    let turn: usize = iteration % 62;
    let mut out: String = String::new();
    let mut i: usize = 0;
    while i < 62
        invariant
            i <= 62,
            turn == iteration % 62,
            out@ =~= payload(iteration as nat).take(i as int),
        decreases 62 - i,
    {
        assert((iteration as int + i) % 62 == (turn as int + i) % 62);
        out.push(alphabet_char((turn + i) % 62));
        i = i + 1;
    }
    assert(payload(iteration as nat).take(62) =~= payload(iteration as nat));
    out
}

/// The payloads of adjacent bursts differ in every cell.
pub proof fn law_adjacent_payloads_share_no_cell(iteration: nat, i: int)
    requires
        0 <= i < 62,
    ensures
        payload(iteration).len() == 62,
        payload(iteration + 1).len() == 62,
        payload(iteration)[i] != payload(iteration + 1)[i],
{
    let a = (iteration as int + i) % 62;
    let b = (iteration as int + 1 + i) % 62;
    assert(a != b);
    lemma_alphabet(a, b);
}

proof fn lemma_alphabet(a: int, b: int)
    requires
        0 <= a < 62,
        0 <= b < 62,
        a != b,
    ensures
        alphabet(a) != alphabet(b),
{
    assert(alphabet(a) as int == if a < 10 {
        48 + a
    } else if a < 36 {
        87 + a
    } else {
        29 + a
    });
    assert(alphabet(b) as int == if b < 10 {
        48 + b
    } else if b < 36 {
        87 + b
    } else {
        29 + b
    });
}

/// A byte as a backslash and three octal digits.
pub open spec fn octal_escape(byte: u8) -> Seq<char> {
    seq![
        '\\',
        decimal::digit_char((byte / 64) as nat),
        decimal::digit_char(((byte / 8) % 8) as nat),
        decimal::digit_char((byte % 8) as nat),
    ]
}

pub open spec fn octal_bytes(bytes: Seq<u8>) -> Seq<char>
    decreases bytes.len(),
{
    if bytes.len() == 0 {
        Seq::empty()
    } else {
        octal_bytes(bytes.drop_last()) + octal_escape(bytes.last())
    }
}

/// The text as the shell's `printf` reads it back from octal escapes.
pub open spec fn octal(s: Seq<char>) -> Seq<char> {
    octal_bytes(vstd::utf8::encode_utf8(s))
}

/// The text as octal escapes of its bytes. The input echo of a command that prints it cannot
/// show the text itself.
pub fn shell_octal(text: &str) -> (r: String)
    ensures
        r@ == octal(text@),
{
    let bytes: &[u8] = text.as_bytes();
    let mut out: String = String::new();
    let mut i: usize = 0;
    assert(bytes@.take(0) =~= Seq::empty());
    while i < bytes.len()
        invariant
            i <= bytes@.len(),
            out@ == octal_bytes(bytes@.take(i as int)),
        decreases bytes@.len() - i,
    {
        let byte: u8 = bytes[i];
        let ghost before = out@;
        out.push('\\');
        out.push((48 + byte / 64) as char);
        out.push((48 + (byte / 8) % 8) as char);
        out.push((48 + byte % 8) as char);
        assert(out@ =~= before + octal_escape(byte));
        assert(bytes@.take(i + 1).drop_last() =~= bytes@.take(i as int));
        assert(bytes@.take(i + 1).last() == byte);
        i = i + 1;
    }
    assert(bytes@.take(i as int) =~= bytes@);
    out
}

/// A backslash or an octal digit.
pub open spec fn octal_char(c: char) -> bool {
    c == '\\' || '0' <= c <= '7'
}

/// Octal escapes hold nothing but backslashes and octal digits.
pub proof fn lemma_octal_chars(bytes: Seq<u8>)
    ensures
        forall|i: int|
            0 <= i < octal_bytes(bytes).len() ==> octal_char(#[trigger] octal_bytes(bytes)[i]),
    decreases bytes.len(),
{
    if bytes.len() > 0 {
        let front = octal_bytes(bytes.drop_last());
        let last = octal_escape(bytes.last());
        lemma_octal_chars(bytes.drop_last());
        assert forall|i: int| 0 <= i < octal_bytes(bytes).len() implies octal_char(
            #[trigger] octal_bytes(bytes)[i],
        ) by {
            if i < front.len() {
                assert(octal_bytes(bytes)[i] == front[i]);
            } else {
                assert(octal_bytes(bytes)[i] == last[i - front.len()]);
            }
        }
    }
}

/// What is typed to print a text never shows a text that holds anything but backslashes and
/// octal digits, so the echo of the input cannot be taken for the output.
pub proof fn law_octal_hides_the_text(s: Seq<char>, other: Seq<char>, i: int)
    requires
        0 <= i < other.len(),
        !octal_char(other[i]),
    ensures
        !text::contains(octal(s), other),
{
    let bytes = vstd::utf8::encode_utf8(s);
    lemma_octal_chars(bytes);
    if text::contains(octal(s), other) {
        let k = choose|k: int| text::at(octal(s), other, k);
        assert(octal(s).subrange(k, k + other.len())[i] == octal(s)[k + i]);
        assert(octal_char(octal(s)[k + i]));
    }
}

// ---------------------------------------------------------------------------------------------
// Order
// ---------------------------------------------------------------------------------------------

/// The contenders from the one that the seed picks, round to the one before it.
pub open spec fn rotation(count: nat, turn: nat) -> Seq<usize> {
    Seq::new(count, |i: int| ((i + turn) % count as int) as usize)
}

/// How far the seed turns the order.
pub open spec fn turn_of(count: usize, seed: u64) -> nat {
    if count > 1 {
        ((seed as usize) % count) as nat
    } else {
        0
    }
}

pub fn rotated_order(count: usize, seed: u64) -> (r: Vec<usize>)
    ensures
        r@ == rotation(count as nat, turn_of(count, seed)),
{
    let turn: usize = if count > 1 {
        #[verifier::truncate]
        (seed as usize) % count
    } else {
        0
    };
    let mut out: Vec<usize> = Vec::new();
    let mut i: usize = 0;
    let mut next: usize = turn;
    proof {
        if count > 0 {
            lemma_wrap(turn as int, count as int);
        }
    }
    while i < count
        invariant
            i <= count,
            turn == turn_of(count, seed),
            count > 0 ==> next < count && next as int == (i + turn) % count as int,
            out@ =~= rotation(count as nat, turn as nat).take(i as int),
        decreases count - i,
    {
        out.push(next);
        proof {
            lemma_step(i + turn, count as int);
        }
        next = if next + 1 == count {
            0
        } else {
            next + 1
        };
        i = i + 1;
    }
    assert(rotation(count as nat, turn as nat).take(i as int) =~= rotation(
        count as nat,
        turn as nat,
    ));
    out
}

proof fn lemma_step(a: int, n: int)
    requires
        n > 0,
        a >= 0,
    ensures
        (a + 1) % n == if a % n + 1 == n {
            0
        } else {
            a % n + 1
        },
{
    vstd::arithmetic::div_mod::lemma_fundamental_div_mod(a, n);
    vstd::arithmetic::div_mod::lemma_mod_bound(a, n);
    let q = a / n;
    let m = a % n;
    assert(n * q == q * n) by (nonlinear_arith);
    if m + 1 == n {
        assert(a + 1 == (q + 1) * n) by (nonlinear_arith)
            requires
                a == n * q + m,
                m + 1 == n,
        ;
        vstd::arithmetic::div_mod::lemma_fundamental_div_mod_converse(a + 1, n, q + 1, 0);
    } else {
        vstd::arithmetic::div_mod::lemma_fundamental_div_mod_converse(a + 1, n, q, m + 1);
    }
}

/// Every contender runs exactly once: each index below the count stands at exactly one place.
pub proof fn law_rotations_are_permutations(count: nat, turn: nat, i: int, j: int, k: int)
    requires
        turn < count <= usize::MAX,
        0 <= i < j < count,
        0 <= k < count,
    ensures
        rotation(count, turn)[i] != rotation(count, turn)[j],
        rotation(count, turn).contains(k as usize),
{
    let n = count as int;
    lemma_wrap(i + turn, n);
    lemma_wrap(j + turn, n);
    let at = if k >= turn {
        k - turn
    } else {
        k - turn + n
    };
    lemma_wrap(at + turn, n);
    assert(rotation(count, turn)[at] == k as usize);
}

proof fn lemma_wrap(a: int, n: int)
    requires
        0 <= a < 2 * n,
    ensures
        a % n == if a < n {
            a
        } else {
            a - n
        },
{
    if a < n {
        vstd::arithmetic::div_mod::lemma_fundamental_div_mod_converse(a, n, 0, a);
    } else {
        vstd::arithmetic::div_mod::lemma_fundamental_div_mod_converse(a, n, 1, a - n);
    }
}

// ---------------------------------------------------------------------------------------------
// Latency
// ---------------------------------------------------------------------------------------------

/// Why the screen does not show the new marker alone.
pub open spec fn latency_fault(
    g: GridModel,
    marker: Seq<char>,
    previous: Option<Seq<char>>,
) -> Option<Seq<char>> {
    if screen::found(g.cells, marker).len() == 0 {
        Some(
            "oracle: marker "@ + marker + " was emitted but is not on the visible screen\n"@
                + screen::dumped(g),
        )
    } else if previous matches Some(p) && screen::found(g.cells, p).len() > 0 {
        Some(
            "oracle: stale marker "@ + previous.unwrap()
                + " is still visible after the viewport clear\n"@ + screen::dumped(g),
        )
    } else {
        None
    }
}

fn oracle_message(head: &str, subject: &str, tail: &str, screen: &Screen) -> (r: String)
    requires
        screen@.wf(),
    ensures
        r@ == head@ + subject@ + tail@ + screen::dumped(screen@.grid()),
{
    text::cat(
        text::cat(text::cat(head.to_owned(), subject), tail),
        screen.dump().as_str(),
    )
}

/// The new marker must be on the screen and the previous one must be gone.
pub fn verify_latency_screen(screen: &Screen, marker: &str, previous: Option<&str>) -> (r: Result<
    (),
    String,
>)
    requires
        screen@.wf(),
    ensures
        ({
            let before = match previous {
                Some(p) => Some(p@),
                None => None,
            };
            match r {
                Ok(_) => latency_fault(screen@.grid(), marker@, before) is None,
                Err(e) => latency_fault(screen@.grid(), marker@, before) == Some(e@),
            }
        }),
{
    if screen.count(marker) == 0 {
        return Err(
            oracle_message(
                "oracle: marker ",
                marker,
                " was emitted but is not on the visible screen\n",
                screen,
            ),
        );
    }
    match previous {
        Some(p) => {
            if screen.count(p) > 0 {
                return Err(
                    oracle_message(
                        "oracle: stale marker ",
                        p,
                        " is still visible after the viewport clear\n",
                        screen,
                    ),
                );
            }
        },
        None => {},
    }
    Ok(())
}

// ---------------------------------------------------------------------------------------------
// Output
// ---------------------------------------------------------------------------------------------

/// Number of payload lines above the completion marker that the output oracle checks.
pub const OUTPUT_ORACLE_DEPTH: usize = 10;

/// Characters of each checked tail line (index, space, payload prefix) that must render intact.
/// Short enough to sit on one visual row in any pane wider than that, so wrapping cannot cause a
/// false failure.
pub const OUTPUT_ORACLE_PREFIX: usize = 20;

/// The index of a line as the burst prints it.
pub open spec fn token(index: nat) -> Seq<char> {
    text::pad_left(decimal::decimal(index), 8, '0')
}

/// What must render intact of the line.
pub open spec fn expected_prefix(index: nat, payload: Seq<char>) -> Seq<char> {
    let line = token(index) + " "@ + payload;
    line.take(grid::least(OUTPUT_ORACLE_PREFIX as int, line.len() as int))
}

/// The last place, in reading order, above the row.
pub open spec fn last_above(list: Seq<(int, int)>, row: int) -> Option<(int, int)>
    decreases list.len(),
{
    if list.len() == 0 {
        None
    } else if list.last().0 < row {
        Some(list.last())
    } else {
        last_above(list.drop_last(), row)
    }
}

/// Where the line stands: the occurrence of its index nearest above the marker.
pub open spec fn line_place(g: GridModel, index: nat, marker_row: int) -> Option<(int, int)> {
    last_above(screen::found(g.cells, token(index)), marker_row)
}

/// What is wrong with the last `offset` lines of a burst, oldest first, where the line before
/// them stands at row `previous`.
pub open spec fn tail_fault(
    g: GridModel,
    lines: nat,
    payload: Seq<char>,
    marker_row: int,
    offset: nat,
    previous: Option<int>,
) -> Option<Seq<char>>
    decreases offset,
{
    if offset == 0 {
        None
    } else {
        let index = (lines - offset) as nat;
        match line_place(g, index, marker_row) {
            None => Some(
                "oracle: line index "@ + token(index)
                    + " from the burst tail is not visible above the marker\n"@ + screen::dumped(
                    g,
                ),
            ),
            Some((row, col)) => {
                let expected = expected_prefix(index, payload);
                let actual = screen::sliced(g, row, col, expected.len() as int);
                if actual != expected {
                    Some(
                        "oracle: row "@ + decimal::decimal(row as nat) + " shows "@ + text::debugged(
                            actual,
                        ) + " where the burst tail requires "@ + text::debugged(expected) + "\n"@
                            + screen::dumped(g),
                    )
                } else if previous matches Some(p) && row <= p {
                    Some(
                        "oracle: line index "@ + token(index) + " is at row "@ + decimal::decimal(
                            row as nat,
                        ) + ", not below the previous tail line at row "@ + decimal::decimal(
                            previous.unwrap() as nat,
                        ) + "; the burst is out of order\n"@ + screen::dumped(g),
                    )
                } else {
                    tail_fault(g, lines, payload, marker_row, (offset - 1) as nat, Some(row))
                }
            },
        }
    }
}

/// How many lines are checked.
pub open spec fn depth(lines: nat) -> nat {
    if lines < OUTPUT_ORACLE_DEPTH {
        lines
    } else {
        OUTPUT_ORACLE_DEPTH as nat
    }
}

/// Why the screen does not show the end of the burst. Bursts of under three lines need only
/// their marker.
pub open spec fn output_fault(g: GridModel, lines: nat, payload: Seq<char>, marker: Seq<char>) -> Option<
    Seq<char>,
> {
    let places = screen::found(g.cells, marker);
    if places.len() == 0 {
        Some(
            "oracle: marker "@ + marker + " was emitted but is not on the visible screen\n"@
                + screen::dumped(g),
        )
    } else if depth(lines) < 3 {
        None
    } else {
        tail_fault(g, lines, payload, places[0].0, depth(lines), None)
    }
}

fn find_last_above(list: &Vec<(usize, usize)>, row: usize) -> (r: Option<(usize, usize)>)
    ensures
        match r {
            Some((a, b)) => last_above(screen::places(list@), row as int) == Some(
                (a as int, b as int),
            ),
            None => last_above(screen::places(list@), row as int) is None,
        },
{
    let ghost all = screen::places(list@);
    let mut i: usize = list.len();
    assert(all.take(i as int) =~= all);
    while i > 0
        invariant
            i <= list@.len(),
            all == screen::places(list@),
            last_above(all, row as int) == last_above(all.take(i as int), row as int),
        decreases i,
    {
        let place: (usize, usize) = list[i - 1];
        assert(all.take(i as int).last() == (place.0 as int, place.1 as int));
        assert(all.take(i as int).drop_last() =~= all.take(i - 1));
        if place.0 < row {
            return Some(place);
        }
        i = i - 1;
    }
    None
}

fn prefix_text(index: usize, payload: &str) -> (r: String)
    ensures
        r@ == expected_prefix(index as nat, payload@),
{
    let number: String = decimal::decimal_padded(index as u64, 8, '0');
    let line: String = text::cat(text::cat(number, " "), payload);
    let chars: Vec<char> = text::chars_of(line.as_str());
    let size: usize = if chars.len() < OUTPUT_ORACLE_PREFIX {
        chars.len()
    } else {
        OUTPUT_ORACLE_PREFIX
    };
    let r: String = text::text_range(&chars, 0, size);
    assert(r@ =~= expected_prefix(index as nat, payload@));
    r
}

fn row_message(row: usize, actual: &str, expected: &str, screen: &Screen) -> (r: String)
    requires
        screen@.wf(),
    ensures
        r@ == "oracle: row "@ + decimal::decimal(row as nat) + " shows "@ + text::debugged(actual@)
            + " where the burst tail requires "@ + text::debugged(expected@) + "\n"@ + screen::dumped(
            screen@.grid(),
        ),
{
    let head: String = text::cat(
        text::cat("oracle: row ".to_owned(), decimal::decimal_text(row as u64).as_str()),
        " shows ",
    );
    let shown: String = text::cat(
        text::cat(head, text::debug_text(actual).as_str()),
        " where the burst tail requires ",
    );
    text::cat(
        text::cat(text::cat(shown, text::debug_text(expected).as_str()), "\n"),
        screen.dump().as_str(),
    )
}

fn order_message(index: usize, row: usize, previous: usize, screen: &Screen) -> (r: String)
    requires
        screen@.wf(),
    ensures
        r@ == "oracle: line index "@ + token(index as nat) + " is at row "@ + decimal::decimal(
            row as nat,
        ) + ", not below the previous tail line at row "@ + decimal::decimal(previous as nat)
            + "; the burst is out of order\n"@ + screen::dumped(screen@.grid()),
{
    let number: String = decimal::decimal_padded(index as u64, 8, '0');
    let head: String = text::cat(
        text::cat("oracle: line index ".to_owned(), number.as_str()),
        " is at row ",
    );
    let placed: String = text::cat(
        text::cat(head, decimal::decimal_text(row as u64).as_str()),
        ", not below the previous tail line at row ",
    );
    text::cat(
        text::cat(
            text::cat(placed, decimal::decimal_text(previous as u64).as_str()),
            "; the burst is out of order\n",
        ),
        screen.dump().as_str(),
    )
}

/// Verifies that the burst rendered correctly, without assuming anything about column layout or
/// line wrapping. The check is: the completion marker is visible; the last line indices are each
/// visible above the marker, taking the occurrence nearest the marker, in strictly increasing
/// screen order; and the first characters of each of those lines, twenty at most, match the
/// expected index and payload exactly. Of a burst of under three lines only the marker is looked
/// for.
pub fn verify_output_screen(screen: &Screen, lines: usize, payload: &str, marker: &str) -> (r:
    Result<(), String>)
    requires
        screen@.wf(),
    ensures
        match r {
            Ok(_) => output_fault(screen@.grid(), lines as nat, payload@, marker@) is None,
            Err(e) => output_fault(screen@.grid(), lines as nat, payload@, marker@) == Some(e@),
        },
{
    let ghost g = screen@.grid();
    let markers: Vec<(usize, usize)> = screen.find(marker);
    assert(screen::places(markers@).len() == markers@.len());
    if markers.len() == 0 {
        return Err(
            oracle_message(
                "oracle: marker ",
                marker,
                " was emitted but is not on the visible screen\n",
                screen,
            ),
        );
    }
    let marker_row: usize = markers[0].0;
    assert(screen::found(g.cells, marker@)[0].0 == marker_row);
    let deep: usize = if lines < OUTPUT_ORACLE_DEPTH {
        lines
    } else {
        OUTPUT_ORACLE_DEPTH
    };
    if deep < 3 {
        return Ok(());
    }
    let ghost wanted = output_fault(g, lines as nat, payload@, marker@);
    let mut offset: usize = deep;
    let mut previous: Option<usize> = None;
    let ghost mut seen: Option<int> = None;
    while offset > 0
        invariant
            screen@.wf(),
            g == screen@.grid(),
            offset <= lines,
            seen == (match previous {
                Some(p) => Some(p as int),
                None => None,
            }),
            wanted == output_fault(g, lines as nat, payload@, marker@),
            wanted == tail_fault(
                g,
                lines as nat,
                payload@,
                marker_row as int,
                offset as nat,
                seen,
            ),
        decreases offset,
    {
        let index: usize = lines - offset;
        let number: String = decimal::decimal_padded(index as u64, 8, '0');
        let places: Vec<(usize, usize)> = screen.find(number.as_str());
        let (row, col): (usize, usize) = match find_last_above(&places, marker_row) {
            Some(place) => place,
            None => {
                return Err(
                    oracle_message(
                        "oracle: line index ",
                        number.as_str(),
                        " from the burst tail is not visible above the marker\n",
                        screen,
                    ),
                );
            },
        };
        let expected: String = prefix_text(index, payload);
        let width: usize = text::chars_of(expected.as_str()).len();
        let actual: String = screen.slice(row, col, width);
        if !text::same(actual.as_str(), expected.as_str()) {
            return Err(row_message(row, actual.as_str(), expected.as_str(), screen));
        }
        match previous {
            Some(p) => {
                if row <= p {
                    return Err(order_message(index, row, p, screen));
                }
            },
            None => {},
        }
        previous = Some(row);
        proof {
            seen = Some(row as int);
        }
        offset = offset - 1;
    }
    Ok(())
}

proof fn lemma_tail(
    g: GridModel,
    lines: nat,
    payload: Seq<char>,
    marker_row: int,
    offset: nat,
    previous: Option<int>,
    o: nat,
)
    requires
        tail_fault(g, lines, payload, marker_row, offset, previous) is None,
        1 <= o <= offset <= lines,
    ensures
        line_place(g, (lines - o) as nat, marker_row) is Some,
        ({
            let (row, col) = line_place(g, (lines - o) as nat, marker_row).unwrap();
            let expected = expected_prefix((lines - o) as nat, payload);
            &&& screen::sliced(g, row, col, expected.len() as int) == expected
            &&& o == offset && previous is Some ==> row > previous.unwrap()
            &&& o > 1 ==> line_place(g, (lines - (o - 1)) as nat, marker_row) is Some
                && line_place(g, (lines - (o - 1)) as nat, marker_row).unwrap().0 > row
        }),
    decreases offset,
{
    let index = (lines - offset) as nat;
    let (row, col) = line_place(g, index, marker_row).unwrap();
    if o < offset {
        lemma_tail(g, lines, payload, marker_row, (offset - 1) as nat, Some(row), o);
    } else if o > 1 {
        lemma_tail(g, lines, payload, marker_row, (offset - 1) as nat, Some(row), (o - 1) as nat);
    }
}

/// A burst of three or more lines is accepted only where its marker is visible, each of the last
/// lines stands above it with its first characters intact, and they stand in order.
pub proof fn law_accepted_bursts_are_intact(
    g: GridModel,
    lines: nat,
    payload: Seq<char>,
    marker: Seq<char>,
    o: nat,
)
    requires
        output_fault(g, lines, payload, marker) is None,
        3 <= depth(lines),
        1 <= o <= depth(lines),
    ensures
        screen::found(g.cells, marker).len() > 0,
        ({
            let marker_row = screen::found(g.cells, marker)[0].0;
            let index = (lines - o) as nat;
            let (row, col) = line_place(g, index, marker_row).unwrap();
            let expected = expected_prefix(index, payload);
            &&& line_place(g, index, marker_row) is Some
            &&& screen::sliced(g, row, col, expected.len() as int) == expected
            &&& o > 1 ==> line_place(g, index + 1, marker_row).unwrap().0 > row
        }),
{
    let marker_row = screen::found(g.cells, marker)[0].0;
    lemma_tail(g, lines, payload, marker_row, depth(lines), None, o);
    assert((lines - (o - 1)) as nat == (lines - o) as nat + 1);
}

/// Why the screen does not show the tag of the last size probe.
pub open spec fn tag_fault(g: GridModel, tag: Seq<char>) -> Option<Seq<char>> {
    if screen::found(g.cells, tag).len() == 0 {
        Some(
            "oracle: the settled size probe "@ + tag + " is not on the visible screen\n"@
                + screen::dumped(g),
        )
    } else {
        None
    }
}

/// The tag of the last size probe must be on the screen.
pub fn verify_tag(screen: &Screen, tag: &str) -> (r: Result<(), String>)
    requires
        screen@.wf(),
    ensures
        match r {
            Ok(_) => tag_fault(screen@.grid(), tag@) is None,
            Err(e) => tag_fault(screen@.grid(), tag@) == Some(e@),
        },
{
    if screen.count(tag) == 0 {
        return Err(
            oracle_message(
                "oracle: the settled size probe ",
                tag,
                " is not on the visible screen\n",
                screen,
            ),
        );
    }
    Ok(())
}

/// Why an extra client does not show the marker.
pub open spec fn extra_fault(g: GridModel, index: nat, marker: Seq<char>) -> Option<Seq<char>> {
    if screen::found(g.cells, marker).len() == 0 {
        Some(
            "oracle: extra client "@ + decimal::decimal(index + 1) + " never showed marker "@
                + marker + "\n"@ + screen::dumped(g),
        )
    } else {
        None
    }
}

/// Every attached client must show the marker: sessions that only update one client have not
/// completed the workload.
pub fn verify_extra(screen: &Screen, index: usize, marker: &str) -> (r: Result<(), String>)
    requires
        screen@.wf(),
        index < usize::MAX,
    ensures
        match r {
            Ok(_) => extra_fault(screen@.grid(), index as nat, marker@) is None,
            Err(e) => extra_fault(screen@.grid(), index as nat, marker@) == Some(e@),
        },
{
    if screen.count(marker) == 0 {
        let number: String = decimal::decimal_text((index + 1) as u64);
        let head: String = text::cat("oracle: extra client ".to_owned(), number.as_str());
        let named: String = text::cat(head, " never showed marker ");
        return Err(oracle_message(named.as_str(), marker, "\n", screen));
    }
    Ok(())
}

// ---------------------------------------------------------------------------------------------
// Pane sizes
// ---------------------------------------------------------------------------------------------

/// The size that a text gives before its first colon: rows, then columns.
pub open spec fn size_in(s: Seq<char>) -> Option<(nat, nat)> {
    match text::halves(s, ':') {
        Some((head, _)) => {
            let words = text::words(head);
            if words.len() >= 2 {
                match decimal::numeral_within(words[0], u16::MAX as nat) {
                    Some(rows) => match decimal::numeral_within(words[1], u16::MAX as nat) {
                        Some(cols) => Some((rows, cols)),
                        None => None,
                    },
                    None => None,
                }
            } else {
                None
            }
        },
        None => None,
    }
}

/// The size shown behind the prefix at one of the places from `from` on: the first that has one.
pub open spec fn size_at(
    g: GridModel,
    list: Seq<(int, int)>,
    width: int,
    from: int,
) -> Option<(nat, nat)>
    decreases list.len() - from,
{
    if from < 0 || from >= list.len() {
        None
    } else {
        match size_in(screen::sliced(g, list[from].0, list[from].1 + width, 16)) {
            Some(size) => Some(size),
            None => size_at(g, list, width, from + 1),
        }
    }
}

/// The size that the screen shows behind the prefix.
pub open spec fn shown_size(g: GridModel, prefix: Seq<char>) -> Option<(nat, nat)> {
    size_at(g, screen::found(g.cells, prefix), prefix.len() as int, 0)
}

fn read_size(s: &str) -> (r: Option<(u16, u16)>)
    ensures
        match r {
            Some((rows, cols)) => size_in(s@) == Some((rows as nat, cols as nat)),
            None => size_in(s@) is None,
        },
{
    match text::halves_of(s, ':') {
        Some((head, _)) => {
            let words: Vec<String> = text::words_of(head.as_str());
            if words.len() < 2 {
                return None;
            }
            assert(text::words(head@)[0] == words@[0]@);
            assert(text::words(head@)[1] == words@[1]@);
            match decimal::parse_u16(words[0].as_str()) {
                Some(rows) => match decimal::parse_u16(words[1].as_str()) {
                    Some(cols) => Some((rows, cols)),
                    None => None,
                },
                None => None,
            }
        },
        None => None,
    }
}

/// Finds `PREFIXrows cols:` on the visible screen and returns (rows, cols).
pub fn parse_size_probe(screen: &Screen, prefix: &str) -> (r: Option<(u16, u16)>)
    requires
        screen@.wf(),
    ensures
        match r {
            Some((rows, cols)) => shown_size(screen@.grid(), prefix@) == Some(
                (rows as nat, cols as nat),
            ),
            None => shown_size(screen@.grid(), prefix@) is None,
        },
{
    let ghost g = screen@.grid();
    let places: Vec<(usize, usize)> = screen.find(prefix);
    let width: usize = text::chars_of(prefix).len();
    let ghost list = screen::found(g.cells, prefix@);
    let mut i: usize = 0;
    assert(list.len() == places@.len());
    while i < places.len()
        invariant
            i <= places@.len(),
            screen@.wf(),
            g == screen@.grid(),
            list == screen::places(places@),
            list == screen::found(g.cells, prefix@),
            width == prefix@.len(),
            shown_size(g, prefix@) == size_at(g, list, width as int, i as int),
        decreases places@.len() - i,
    {
        let (row, col): (usize, usize) = places[i];
        assert(list[i as int] == (row as int, col as int));
        proof {
            screen::lemma_found_fits(screen@.grid(), prefix@, i as int);
        }
        let shown: String = screen.slice(row, col + width, 16);
        match read_size(shown.as_str()) {
            Some(size) => {
                return Some(size);
            },
            None => {},
        }
        i = i + 1;
    }
    None
}

} // verus!
