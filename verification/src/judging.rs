//! What a screen shows where a trial was accepted, and what is accepted where a screen shows it: the
//! verdicts of the oracle in terms of cells.

use vstd::prelude::*;
use crate::decimal;
use crate::grid::GridModel;
use crate::oracle;
use crate::printing;
use crate::screen;
use crate::text;

verus! {

/// The text stands in the cells of the row, from the column on.
pub open spec fn stands(cells: Seq<Seq<char>>, s: Seq<char>, row: int, col: int) -> bool {
    &&& 0 <= row < cells.len()
    &&& 0 <= col
    &&& col + s.len() <= cells[row].len()
    &&& forall|k: int| 0 <= k < s.len() ==> cells[row][col + k] == #[trigger] s[k]
}

/// The text, which is not empty, stands somewhere.
pub open spec fn visible(cells: Seq<Seq<char>>, s: Seq<char>) -> bool {
    s.len() > 0 && exists|row: int, col: int| #[trigger] stands(cells, s, row, col)
}

proof fn lemma_stands(cells: Seq<Seq<char>>, s: Seq<char>, row: int, col: int)
    ensures
        stands(cells, s, row, col) == (0 <= row < cells.len() && text::at(cells[row], s, col)),
{
    if 0 <= row < cells.len() && 0 <= col && col + s.len() <= cells[row].len() {
        let part = cells[row].subrange(col, col + s.len());
        if stands(cells, s, row, col) {
            assert(part =~= s) by {
                assert forall|k: int| 0 <= k < s.len() implies part[k] == #[trigger] s[k] by {}
            }
        }
        if text::at(cells[row], s, col) {
            assert forall|k: int| 0 <= k < s.len() implies cells[row][col + k] == #[trigger] s[k] by {
                assert(part[k] == s[k]);
            }
        }
    }
}

/// A text is found exactly where it is visible.
pub proof fn law_found_texts_are_visible(cells: Seq<Seq<char>>, s: Seq<char>)
    ensures
        screen::found(cells, s).len() > 0 <==> visible(cells, s),
        forall|row: int, col: int| #[trigger]
            screen::found(cells, s).contains((row, col)) <==> s.len() > 0 && stands(
                cells,
                s,
                row,
                col,
            ),
{
    let list = screen::found(cells, s);
    if s.len() > 0 {
        screen::law_found_is_exact(cells, s);
        assert forall|row: int, col: int| #[trigger] list.contains((row, col)) <==> stands(
            cells,
            s,
            row,
            col,
        ) by {
            lemma_stands(cells, s, row, col);
        }
        if list.len() > 0 {
            let (row, col) = list[0];
            assert(list.contains((row, col)));
            assert(stands(cells, s, row, col));
        }
        if visible(cells, s) {
            let (row, col) = choose|row: int, col: int| #[trigger] stands(cells, s, row, col);
            assert(list.contains((row, col)));
        }
    }
}

// ---------------------------------------------------------------------------------------------
// Latency, tags and extra clients
// ---------------------------------------------------------------------------------------------

/// A latency trial is accepted exactly where the new marker is visible and the previous one is not.
pub proof fn law_latency_needs_the_new_marker_alone(
    g: GridModel,
    marker: Seq<char>,
    previous: Option<Seq<char>>,
)
    ensures
        oracle::latency_fault(g, marker, previous) is None <==> visible(g.cells, marker) && (
        previous matches Some(p) ==> !visible(g.cells, p)),
{
    law_found_texts_are_visible(g.cells, marker);
    if let Some(p) = previous {
        law_found_texts_are_visible(g.cells, p);
    }
}

/// A tag is accepted exactly where it is visible, and a marker on the screen of an extra client too.
pub proof fn law_tags_and_extra_clients_need_their_text(g: GridModel, index: nat, s: Seq<char>)
    ensures
        oracle::tag_fault(g, s) is None <==> visible(g.cells, s),
        oracle::extra_fault(g, index, s) is None <==> visible(g.cells, s),
{
    law_found_texts_are_visible(g.cells, s);
}

// ---------------------------------------------------------------------------------------------
// Output bursts
// ---------------------------------------------------------------------------------------------

/// What has to be seen of a line of a burst: its first twenty characters, or all where there are
/// fewer.
pub open spec fn head(line: Seq<char>) -> Seq<char> {
    if line.len() > 20 {
        line.take(20)
    } else {
        line
    }
}

/// The line as the burst prints it: its index, a blank, and the payload.
pub open spec fn burst_line(index: nat, payload: Seq<char>) -> Seq<char> {
    oracle::token(index) + seq![' '] + payload
}

/// The place is that of the text nearest above the row: the last one, in reading order, on a row
/// above it.
pub open spec fn nearest(
    cells: Seq<Seq<char>>,
    s: Seq<char>,
    below: int,
    row: int,
    col: int,
) -> bool {
    &&& s.len() > 0
    &&& stands(cells, s, row, col)
    &&& row < below
    &&& forall|r: int, c: int| #[trigger]
        stands(cells, s, r, c) && r < below ==> !screen::reads_before((row, col), (r, c))
}

/// How many lines of a burst are looked at: the last ten, or all where there are fewer.
pub open spec fn last_lines(lines: nat) -> nat {
    if lines < 10 {
        lines
    } else {
        10
    }
}

/// The screen shows the end of the burst: its marker, first at row `below`, and above it the last ten
/// lines, each below the one before it and with its first twenty characters intact. `at` holds the
/// place of each line, the oldest first.
pub open spec fn intact(
    g: GridModel,
    lines: nat,
    payload: Seq<char>,
    marker: Seq<char>,
    below: int,
    at: Seq<(int, int)>,
) -> bool {
    let n = last_lines(lines);
    &&& marker.len() > 0
    &&& exists|col: int| #[trigger] stands(g.cells, marker, below, col)
    &&& forall|r: int, c: int| #[trigger] stands(g.cells, marker, r, c) ==> r >= below
    &&& at.len() == n
    &&& forall|k: int|
        0 <= k < n ==> {
            let (row, col) = #[trigger] at[k];
            let index = (lines - n + k) as nat;
            &&& nearest(g.cells, oracle::token(index), below, row, col)
            &&& stands(g.cells, head(burst_line(index, payload)), row, col)
        }
    &&& forall|k: int, l: int|
        0 <= k < l < n ==> (#[trigger] at[k]).0 < (#[trigger] at[l]).0
}

/// A burst of three or more lines is accepted only where the screen shows its end: the marker, and
/// above it the last ten lines (or all of them, where there are fewer), in order and with their first
/// twenty characters intact.
pub proof fn law_accepted_bursts_show_their_last_ten_lines(
    g: GridModel,
    lines: nat,
    payload: Seq<char>,
    marker: Seq<char>,
) -> (shown: (int, Seq<(int, int)>))
    requires
        g.wf(),
        lines >= 3,
        oracle::output_fault(g, lines, payload, marker) is None,
    ensures
        intact(g, lines, payload, marker, shown.0, shown.1),
{
    let found = screen::found(g.cells, marker);
    law_found_texts_are_visible(g.cells, marker);
    assert(oracle::depth(lines) == last_lines(lines));
    let n = last_lines(lines);
    let below = found[0].0;
    let at = Seq::new(
        n,
        |k: int| oracle::line_place(g, (lines - n + k) as nat, below).unwrap(),
    );
    assert(found.contains(found[0]));
    assert(stands(g.cells, marker, below, found[0].1));
    lemma_first_row(g.cells, marker);
    assert forall|k: int| 0 <= k < n implies {
        let (row, col) = #[trigger] at[k];
        let index = (lines - n + k) as nat;
        &&& nearest(g.cells, oracle::token(index), below, row, col)
        &&& stands(g.cells, head(burst_line(index, payload)), row, col)
    } by {
        let o = (n - k) as nat;
        let index = (lines - n + k) as nat;
        assert((lines - o) as nat == index);
        oracle::law_accepted_bursts_are_intact(g, lines, payload, marker, o);
        lemma_nearest(g, index, below);
        let (row, col) = at[k];
        lemma_intact_slice(g, index, payload, row, col);
    }
    assert forall|k: int, l: int| 0 <= k < l < n implies (#[trigger] at[k]).0 < (
    #[trigger] at[l]).0 by {
        lemma_rising(g, lines, payload, marker, k, l);
    }
    (below, at)
}

proof fn lemma_first_row(cells: Seq<Seq<char>>, s: Seq<char>)
    requires
        screen::found(cells, s).len() > 0,
    ensures
        forall|r: int, c: int| #[trigger]
            stands(cells, s, r, c) ==> r >= screen::found(cells, s)[0].0,
{
    let list = screen::found(cells, s);
    law_found_texts_are_visible(cells, s);
    screen::law_found_is_exact(cells, s);
    assert forall|r: int, c: int| #[trigger] stands(cells, s, r, c) implies r >= list[0].0 by {
        assert(list.contains((r, c)));
        let i = choose|i: int| 0 <= i < list.len() && list[i] == (r, c);
        if i > 0 {
            assert(screen::reads_before(list[0], list[i]));
        }
    }
}

proof fn lemma_rising(
    g: GridModel,
    lines: nat,
    payload: Seq<char>,
    marker: Seq<char>,
    k: int,
    l: int,
)
    requires
        lines >= 3,
        oracle::output_fault(g, lines, payload, marker) is None,
        0 <= k < l < last_lines(lines),
    ensures
        ({
            let n = last_lines(lines);
            let below = screen::found(g.cells, marker)[0].0;
            oracle::line_place(g, (lines - n + k) as nat, below).unwrap().0 < oracle::line_place(
                g,
                (lines - n + l) as nat,
                below,
            ).unwrap().0
        }),
    decreases l - k,
{
    let n = last_lines(lines);
    assert(oracle::depth(lines) == n);
    let o = (n - k) as nat;
    assert((lines - o) as nat == (lines - n + k) as nat);
    oracle::law_accepted_bursts_are_intact(g, lines, payload, marker, o);
    assert((lines - n + k) as nat + 1 == (lines - n + (k + 1)) as nat);
    if k + 1 < l {
        lemma_rising(g, lines, payload, marker, k + 1, l);
    }
}

/// What `last_above` picks.
proof fn lemma_last_above(list: Seq<(int, int)>, row: int)
    requires
        forall|i: int, j: int|
            0 <= i < j < list.len() ==> screen::reads_before(
                #[trigger] list[i],
                #[trigger] list[j],
            ),
    ensures
        match oracle::last_above(list, row) {
            Some(p) => list.contains(p) && p.0 < row && forall|i: int|
                0 <= i < list.len() && (#[trigger] list[i]).0 < row ==> !screen::reads_before(
                    p,
                    list[i],
                ),
            None => forall|i: int| 0 <= i < list.len() ==> (#[trigger] list[i]).0 >= row,
        },
    decreases list.len(),
{
    if list.len() > 0 {
        let front = list.drop_last();
        let last = list.last();
        assert(list[list.len() - 1] == last);
        if last.0 < row {
            assert forall|i: int| 0 <= i < list.len() && (#[trigger] list[i]).0
                < row implies !screen::reads_before(last, list[i]) by {
                if i < list.len() - 1 {
                    assert(screen::reads_before(list[i], list[list.len() - 1]));
                }
            }
        } else {
            assert forall|i: int, j: int|
                0 <= i < j < front.len() implies screen::reads_before(
                #[trigger] front[i],
                #[trigger] front[j],
            ) by {
                assert(front[i] == list[i] && front[j] == list[j]);
            }
            lemma_last_above(front, row);
            assert forall|i: int| 0 <= i < list.len() - 1 implies front[i] == #[trigger] list[i] by {}
            if let Some(p) = oracle::last_above(front, row) {
                let k = choose|k: int| 0 <= k < front.len() && front[k] == p;
                assert(list[k] == p);
            }
        }
    }
}

proof fn lemma_token_not_empty(index: nat)
    ensures
        oracle::token(index).len() >= 8,
{
    decimal::lemma_decimal(index);
}

/// The place of a line is the nearest above the marker, and there is one where there is any.
proof fn lemma_nearest(g: GridModel, index: nat, below: int)
    ensures
        match oracle::line_place(g, index, below) {
            Some((row, col)) => nearest(g.cells, oracle::token(index), below, row, col),
            None => forall|r: int, c: int| #[trigger]
                stands(g.cells, oracle::token(index), r, c) ==> r >= below,
        },
{
    let token = oracle::token(index);
    let list = screen::found(g.cells, token);
    lemma_token_not_empty(index);
    law_found_texts_are_visible(g.cells, token);
    screen::law_found_is_exact(g.cells, token);
    lemma_last_above(list, below);
    assert forall|r: int, c: int| #[trigger] stands(g.cells, token, r, c) implies exists|i: int|
        0 <= i < list.len() && #[trigger] list[i] == (r, c) by {
        assert(list.contains((r, c)));
    }
    if let Some((row, col)) = oracle::line_place(g, index, below) {
        assert(list.contains((row, col)));
        assert forall|r: int, c: int| #[trigger] stands(g.cells, token, r, c) && r
            < below implies !screen::reads_before((row, col), (r, c)) by {
            let i = choose|i: int| 0 <= i < list.len() && #[trigger] list[i] == (r, c);
            assert(list[i].0 < below);
        }
    } else {
        assert forall|r: int, c: int| #[trigger] stands(g.cells, token, r, c) implies r >= below by {
            let i = choose|i: int| 0 <= i < list.len() && #[trigger] list[i] == (r, c);
            assert(list[i].0 >= below);
        }
    }
}

proof fn lemma_head(index: nat, payload: Seq<char>)
    ensures
        oracle::expected_prefix(index, payload) == head(burst_line(index, payload)),
{
    reveal_strlit(" ");
    assert(" "@ =~= seq![' ']);
    let line = burst_line(index, payload);
    assert(line.take(line.len() as int) =~= line);
}

/// A slice that reads as expected is intact in the cells.
proof fn lemma_intact_slice(g: GridModel, index: nat, payload: Seq<char>, row: int, col: int)
    requires
        g.wf(),
        0 <= row < g.rows,
        0 <= col,
        ({
            let expected = oracle::expected_prefix(index, payload);
            screen::sliced(g, row, col, expected.len() as int) == expected
        }),
    ensures
        stands(g.cells, head(burst_line(index, payload)), row, col),
{
    lemma_head(index, payload);
    lemma_token_not_empty(index);
    let expected = oracle::expected_prefix(index, payload);
    let end = if col + expected.len() <= g.cols { col + expected.len() } else { g.cols as int };
    assert(expected.len() >= 8);
    let part = g.cells[row].subrange(col, end);
    printing::lemma_trimmed(part);
    assert(text::trim_end(part) == expected);
    assert(part.take(expected.len() as int) == expected);
    assert forall|k: int| 0 <= k < expected.len() implies g.cells[row][col + k]
        == #[trigger] expected[k] by {
        assert(part.take(expected.len() as int)[k] == part[k]);
    }
}

/// A burst whose end the screen shows is accepted, as is one of under three lines whose marker is
/// visible. Left out are payloads with white space, which a row does not show at its end, and more
/// lines than eight digits can count.
pub proof fn law_intact_bursts_are_accepted(
    g: GridModel,
    lines: nat,
    payload: Seq<char>,
    marker: Seq<char>,
    below: int,
    at: Seq<(int, int)>,
)
    requires
        g.wf(),
        intact(g, lines, payload, marker, below, at),
        lines <= 100_000_000,
        payload.len() >= 12,
        forall|i: int| 0 <= i < payload.len() ==> !text::white(#[trigger] payload[i]),
    ensures
        oracle::output_fault(g, lines, payload, marker) is None,
{
    let found = screen::found(g.cells, marker);
    law_found_texts_are_visible(g.cells, marker);
    let col = choose|col: int| #[trigger] stands(g.cells, marker, below, col);
    assert(found.contains((below, col)));
    lemma_first_row(g.cells, marker);
    assert(found.contains(found[0]));
    assert(stands(g.cells, marker, found[0].0, found[0].1));
    assert(found[0].0 == below);
    let n = last_lines(lines);
    assert(oracle::depth(lines) == n);
    lemma_rest_accepted(g, lines, payload, marker, below, at, n, None);
}

/// A burst of one line or two is accepted exactly where its marker is visible.
pub proof fn law_short_bursts_need_their_marker(
    g: GridModel,
    lines: nat,
    payload: Seq<char>,
    marker: Seq<char>,
)
    requires
        lines < 3,
    ensures
        oracle::output_fault(g, lines, payload, marker) is None <==> visible(g.cells, marker),
{
    law_found_texts_are_visible(g.cells, marker);
}

proof fn lemma_rest_accepted(
    g: GridModel,
    lines: nat,
    payload: Seq<char>,
    marker: Seq<char>,
    below: int,
    at: Seq<(int, int)>,
    offset: nat,
    previous: Option<int>,
)
    requires
        g.wf(),
        intact(g, lines, payload, marker, below, at),
        lines <= 100_000_000,
        payload.len() >= 12,
        forall|i: int| 0 <= i < payload.len() ==> !text::white(#[trigger] payload[i]),
        offset <= last_lines(lines),
        previous matches Some(p) ==> offset < last_lines(lines) && p == at[last_lines(lines) - offset
            - 1].0,
    ensures
        oracle::tail_fault(g, lines, payload, below, offset, previous) is None,
    decreases offset,
{
    if offset > 0 {
        let n = last_lines(lines);
        let k = n - offset;
        let index = (lines - offset) as nat;
        assert((lines - n + k) as nat == index);
        let (row, col) = at[k];
        let token = oracle::token(index);
        assert(nearest(g.cells, token, below, row, col));
        lemma_nearest(g, index, below);
        let place = oracle::line_place(g, index, below).unwrap();
        assert(stands(g.cells, token, row, col));
        assert(stands(g.cells, token, place.0, place.1));
        assert(place == (row, col));
        lemma_intact_reads(g, index, payload, row, col);
        if k > 0 {
            assert(at[k - 1].0 < at[k].0);
        }
        lemma_rest_accepted(
            g,
            lines,
            payload,
            marker,
            below,
            at,
            (offset - 1) as nat,
            Some(row),
        );
    }
}

proof fn lemma_intact_reads(g: GridModel, index: nat, payload: Seq<char>, row: int, col: int)
    requires
        g.wf(),
        stands(g.cells, head(burst_line(index, payload)), row, col),
        index < 100_000_000,
        payload.len() >= 12,
        forall|i: int| 0 <= i < payload.len() ==> !text::white(#[trigger] payload[i]),
    ensures
        ({
            let expected = oracle::expected_prefix(index, payload);
            screen::sliced(g, row, col, expected.len() as int) == expected
        }),
{
    lemma_head(index, payload);
    law_indices_have_eight_digits(index);
    let line = burst_line(index, payload);
    let token = oracle::token(index);
    let expected = head(line);
    assert(line.len() >= 21);
    assert(expected.len() == 20);
    let part = g.cells[row].subrange(col, col + 20);
    assert(part =~= expected) by {
        assert forall|k: int| 0 <= k < 20 implies part[k] == #[trigger] expected[k] by {}
    }
    let c = expected[19];
    assert(!text::white(c)) by {
        assert(c == line[19]);
        assert(c == payload[10]);
    }
    assert(text::trim_end(expected) == expected);
}

/// The index of a line is written with eight digits, as far as eight suffice.
pub proof fn law_indices_have_eight_digits(index: nat)
    requires
        index < 100_000_000,
    ensures
        ({
            let t = oracle::token(index);
            &&& t.len() == 8
            &&& forall|i: int| 0 <= i < 8 ==> '0' <= #[trigger] t[i] <= '9'
            &&& index == 10_000_000 * (t[0] as int - 48) + 1_000_000 * (t[1] as int - 48) + 100_000 * (t[2] as int - 48) + 10_000 * (t[3] as int - 48) + 1_000 * (t[4] as int - 48) + 100 * (t[5] as int - 48) + 10 * (
            t[6] as int - 48) + (t[7] as int - 48)
        }),
{
    let digits = decimal::decimal(index);
    let t = oracle::token(index);
    decimal::lemma_decimal(index);
    reveal_with_fuel(tens, 9);
    lemma_digit_count(index, 8);
    let zeros = Seq::new((8 - digits.len()) as nat, |i: int| '0');
    assert(t =~= zeros + digits);
    lemma_leading_zeros(zeros, digits);
    assert(decimal::digits_value(t) == index);
    assert forall|i: int| 0 <= i < 8 implies '0' <= #[trigger] t[i] <= '9' by {
        if i >= zeros.len() {
            assert(text::digit(digits[i - zeros.len()]));
        }
    }
    lemma_value_of_eight(t);
}

proof fn lemma_value_of_eight(t: Seq<char>)
    requires
        t.len() == 8,
        forall|i: int| 0 <= i < 8 ==> '0' <= #[trigger] t[i] <= '9',
    ensures
        decimal::digits_value(t) == 10_000_000 * (t[0] as int - 48) + 1_000_000 * (t[1] as int - 48) + 100_000
            * (t[2] as int - 48) + 10_000 * (t[3] as int - 48) + 1_000 * (t[4] as int - 48) + 100 * (t[5] as int - 48) + 10
            * (t[6] as int - 48) + (t[7] as int - 48),
{
    lemma_value_step(t, 1);
    lemma_value_step(t, 2);
    lemma_value_step(t, 3);
    lemma_value_step(t, 4);
    lemma_value_step(t, 5);
    lemma_value_step(t, 6);
    lemma_value_step(t, 7);
    lemma_value_step(t, 8);
    assert(t.take(0) =~= Seq::empty());
    assert(t.take(8) =~= t);
}

proof fn lemma_value_step(t: Seq<char>, k: int)
    requires
        1 <= k <= t.len(),
        '0' <= t[k - 1] <= '9',
    ensures
        decimal::digits_value(t.take(k)) == 10 * decimal::digits_value(t.take(k - 1)) + (t[k - 1] as int - 48),
{
    assert(t.take(k).drop_last() =~= t.take(k - 1));
    assert(t.take(k).last() == t[k - 1]);
}

proof fn lemma_leading_zeros(zeros: Seq<char>, digits: Seq<char>)
    requires
        forall|i: int| 0 <= i < zeros.len() ==> #[trigger] zeros[i] == '0',
    ensures
        decimal::digits_value(zeros + digits) == decimal::digits_value(digits),
    decreases zeros.len() + digits.len(),
{
    let all = zeros + digits;
    if digits.len() > 0 {
        assert(all.drop_last() =~= zeros + digits.drop_last());
        lemma_leading_zeros(zeros, digits.drop_last());
    } else if zeros.len() > 0 {
        assert(all =~= zeros);
        assert(zeros.drop_last() + digits =~= zeros.drop_last());
        lemma_leading_zeros(zeros.drop_last(), digits);
    } else {
        assert(all =~= digits);
    }
}

spec fn tens(k: nat) -> nat
    decreases k,
{
    if k == 0 {
        1
    } else {
        10 * tens((k - 1) as nat)
    }
}

proof fn lemma_digit_count(n: nat, k: nat)
    requires
        k >= 1,
        n < tens(k),
    ensures
        decimal::decimal(n).len() <= k,
    decreases k,
{
    if n >= 10 {
        if k == 1 {
            reveal_with_fuel(tens, 2);
        }
        assert(n / 10 < tens((k - 1) as nat));
        lemma_digit_count(n / 10, (k - 1) as nat);
    }
}

} // verus!
