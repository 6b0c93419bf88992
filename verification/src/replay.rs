//! What the bytes of a client do to the screen that it is replayed on: each printable byte, each
//! control byte and each sequence, by the cells, the cursor and the scroll region.

use vstd::prelude::*;
use crate::decimal;
use crate::grid::GridModel;
use crate::screen;
use crate::screen::{ScreenModel, State};
use crate::text;

verus! {

// ---------------------------------------------------------------------------------------------
// Vocabulary
// ---------------------------------------------------------------------------------------------

/// The bytes of an ASCII text.
pub open spec fn ascii(s: Seq<char>) -> Seq<u8> {
    s.map_values(|c: char| c as u8)
}

/// The screen after all of these bytes.
#[verifier::opaque]
pub open spec fn after(s: ScreenModel, bytes: Seq<u8>) -> ScreenModel {
    s.fed(bytes)
}

/// Two feeds do what one feed of both does.
pub proof fn lemma_after_both(s: ScreenModel, first: Seq<u8>, second: Seq<u8>)
    ensures
        after(s, first + second) == after(after(s, first), second),
{
    reveal(after);
    screen::law_feed_in_chunks(s, first, second);
}

/// `ESC [`, a number, and the byte that ends the sequence.
pub open spec fn csi(n: nat, last: u8) -> Seq<u8> {
    seq![0x1bu8, 0x5bu8] + ascii(decimal::decimal(n)) + seq![last]
}

/// `ESC [`, two numbers, and the byte that ends the sequence.
pub open spec fn csi_pair(n: nat, m: nat, last: u8) -> Seq<u8> {
    seq![0x1bu8, 0x5bu8] + ascii(decimal::decimal(n) + seq![';'] + decimal::decimal(m))
        + seq![last]
}

/// `ESC [` and the byte that ends the sequence.
pub open spec fn csi_bare(last: u8) -> Seq<u8> {
    seq![0x1bu8, 0x5bu8, last]
}

/// The screen is sound and no sequence or character is unfinished.
pub open spec fn ready(s: ScreenModel) -> bool {
    s.wf() && s.state == State::Ground && s.utf8.len() == 0
}

/// The screen is ready, and it has cells.
pub open spec fn spacious(s: ScreenModel) -> bool {
    ready(s) && s.grid().cols > 0 && s.grid().rows > 0
}

/// The same grid is shown, the other one is as it was, and nothing is unfinished.
pub open spec fn undisturbed(s: ScreenModel, t: ScreenModel) -> bool {
    &&& t.alternate_active == s.alternate_active
    &&& t.state == State::Ground
    &&& t.utf8.len() == 0
    &&& s.alternate_active ==> t.primary == s.primary
    &&& !s.alternate_active ==> t.alternate == s.alternate
    &&& t.grid().cols == s.grid().cols
    &&& t.grid().rows == s.grid().rows
    &&& t.grid().saved_cursor == s.grid().saved_cursor
}

pub open spec fn same_region(s: ScreenModel, t: ScreenModel) -> bool {
    t.grid().scroll_top == s.grid().scroll_top && t.grid().scroll_bottom == s.grid().scroll_bottom
}

/// Nothing but the cursor has moved, and it is now here.
pub open spec fn moved(s: ScreenModel, t: ScreenModel, row: int, col: int) -> bool {
    &&& undisturbed(s, t)
    &&& same_region(s, t)
    &&& t.grid().cells == s.grid().cells
    &&& t.grid().row == row
    &&& t.grid().col == col
    &&& !t.grid().pending_wrap
}

/// Nothing but cells has changed: the cursor is where it was.
pub open spec fn repainted(s: ScreenModel, t: ScreenModel) -> bool {
    &&& undisturbed(s, t)
    &&& same_region(s, t)
    &&& t.grid().row == s.grid().row
    &&& t.grid().col == s.grid().col
    &&& t.grid().pending_wrap == s.grid().pending_wrap
    &&& t.grid().cells.len() == s.grid().cells.len()
    &&& forall|i: int|
        0 <= i < s.grid().rows ==> (#[trigger] t.grid().cells[i]).len() == s.grid().cols
}

/// The whole line is blank.
pub open spec fn is_blank(line: Seq<char>) -> bool {
    forall|j: int| 0 <= j < line.len() ==> #[trigger] line[j] == ' '
}

// ---------------------------------------------------------------------------------------------
// Sequences as a whole
// ---------------------------------------------------------------------------------------------

pub open spec fn parameter(c: char) -> bool {
    '0' <= c <= ';'
}

proof fn lemma_collected(s: ScreenModel, params: Seq<char>)
    requires
        s.state == State::Ground,
        s.utf8.len() == 0,
        forall|i: int| 0 <= i < params.len() ==> parameter(#[trigger] params[i]),
    ensures
        s.fed(seq![0x1bu8, 0x5bu8] + ascii(params)) == (ScreenModel {
            state: State::Csi,
            params,
            private: false,
            ..s
        }),
    decreases params.len(),
{
    let start = seq![0x1bu8, 0x5bu8];
    let opened = start + ascii(params);
    if params.len() == 0 {
        assert(opened =~= start);
        screen::lemma_two_bytes(s, 0x1b, 0x5b);
        assert(params =~= Seq::empty());
    } else {
        let front = params.drop_last();
        let c = params.last();
        assert(parameter(params[params.len() - 1]));
        lemma_collected(s, front);
        assert(opened.drop_last() =~= start + ascii(front));
        assert(opened.last() == c as u8);
        assert((c as u8) as char == c);
        assert(front.push(c) =~= params);
    }
}

proof fn lemma_sequence(s: ScreenModel, params: Seq<char>, last: u8)
    requires
        s.state == State::Ground,
        s.utf8.len() == 0,
        forall|i: int| 0 <= i < params.len() ==> parameter(#[trigger] params[i]),
        0x40 <= last <= 0x7e,
    ensures
        s.fed(seq![0x1bu8, 0x5bu8] + ascii(params) + seq![last]) == ({
            let read = ScreenModel { params, private: false, ..s };
            let ps = screen::params_of(params);
            read.showing(
                screen::csi_effect(read.grid(), ps[0], screen::second_of(ps), last),
            )
        }),
{
    let opened = seq![0x1bu8, 0x5bu8] + ascii(params);
    lemma_collected(s, params);
    assert((opened + seq![last]).drop_last() =~= opened);
    let at = ScreenModel { state: State::Csi, params, private: false, ..s };
    let read = ScreenModel { params, private: false, ..s };
    assert(s.fed(opened) == at);
    assert(at.in_state(State::Ground) == read);
    reveal(ScreenModel::controlled);
}

/// The screen with another shown grid, once these parameters were read.
pub open spec fn shown(s: ScreenModel, params: Seq<char>, g: GridModel) -> ScreenModel {
    (ScreenModel { params, private: false, ..s }).showing(g)
}

pub proof fn lemma_csi(s: ScreenModel, n: nat, last: u8)
    requires
        s.state == State::Ground,
        s.utf8.len() == 0,
        n <= usize::MAX,
        0x40 <= last <= 0x7e,
    ensures
        after(s, csi(n, last)) == shown(
            s,
            decimal::decimal(n),
            screen::csi_effect(s.grid(), n, 0, last),
        ),
{
    let params = decimal::decimal(n);
    decimal::lemma_decimal(n);
    assert forall|i: int| 0 <= i < params.len() implies parameter(#[trigger] params[i]) by {
        assert(text::digit(params[i]));
    }
    reveal(after);
    lemma_sequence(s, params, last);
    screen::lemma_single_param(params, n);
}

pub proof fn lemma_csi_pair(s: ScreenModel, n: nat, m: nat, last: u8)
    requires
        s.state == State::Ground,
        s.utf8.len() == 0,
        n <= usize::MAX,
        m <= usize::MAX,
        0x40 <= last <= 0x7e,
    ensures
        after(s, csi_pair(n, m, last)) == shown(
            s,
            decimal::decimal(n) + seq![';'] + decimal::decimal(m),
            screen::csi_effect(s.grid(), n, m, last),
        ),
{
    let (a, b) = (decimal::decimal(n), decimal::decimal(m));
    let params = a + seq![';'] + b;
    decimal::lemma_decimal(n);
    decimal::lemma_decimal(m);
    assert forall|i: int| 0 <= i < params.len() implies parameter(#[trigger] params[i]) by {
        if i < a.len() {
            assert(text::digit(a[i]));
        } else if i > a.len() {
            assert(text::digit(b[i - a.len() - 1]));
        }
    }
    reveal(after);
    lemma_sequence(s, params, last);
    assert forall|i: int| 0 <= i < a.len() implies text::other_than(';')(#[trigger] params[i]) by {
        assert(text::digit(a[i]));
    }
    text::lemma_run_len_is(params, text::other_than(';'), a.len());
    assert(params.take(a.len() as int) =~= a);
    assert(params.skip(a.len() as int + 1) =~= b);
    screen::lemma_one_field(b, ';');
    screen::lemma_one_field(a, ':');
    screen::lemma_one_field(b, ':');
    assert(text::fields(params, ';') =~= seq![a, b]);
    assert(screen::params_of(params) =~= seq![n, m]);
}

pub proof fn lemma_csi_bare(s: ScreenModel, last: u8)
    requires
        s.state == State::Ground,
        s.utf8.len() == 0,
        0x40 <= last <= 0x7e,
    ensures
        after(s, csi_bare(last)) == shown(
            s,
            Seq::empty(),
            screen::csi_effect(s.grid(), 0, 0, last),
        ),
{
    let params = Seq::<char>::empty();
    reveal(after);
    lemma_sequence(s, params, last);
    assert(csi_bare(last) =~= seq![0x1bu8, 0x5bu8] + ascii(params) + seq![last]);
    screen::lemma_one_field(params, ';');
    screen::lemma_one_field(params, ':');
    assert(screen::params_of(params) =~= seq![0nat]);
}

// ---------------------------------------------------------------------------------------------
// Cursor movement
// ---------------------------------------------------------------------------------------------

/// `ESC [ n A` moves the cursor up by `n` rows, `B` down, `C` right and `D` left; at an edge it
/// stays there. No cell changes.
pub proof fn law_arrows_move_the_cursor(s: ScreenModel, n: nat)
    requires
        spacious(s),
        1 <= n <= usize::MAX,
    ensures
        ({
            let (row, col) = (s.grid().row, s.grid().col);
            let (rows, cols) = (s.grid().rows, s.grid().cols);
            &&& moved(s, after(s, csi(n, 0x41)), if row >= n { row - n } else { 0 }, col)
            &&& moved(s, after(s, csi(n, 0x42)), if row + n < rows { row + n } else { rows - 1 }, col)
            &&& moved(s, after(s, csi(n, 0x43)), row, if col + n < cols { col + n } else { cols - 1 })
            &&& moved(s, after(s, csi(n, 0x44)), row, if col >= n { col - n } else { 0 })
        }),
{
    lemma_csi(s, n, 0x41);
    lemma_csi(s, n, 0x42);
    lemma_csi(s, n, 0x43);
    lemma_csi(s, n, 0x44);
    reveal(screen::csi_effect);
}

/// Away from the edges the four movements undo each other: down and up, up and down, right and
/// left, left and right.
pub proof fn law_opposite_arrows_undo_each_other(s: ScreenModel, n: nat)
    requires
        spacious(s),
        1 <= n <= usize::MAX,
    ensures
        ({
            let (row, col) = (s.grid().row, s.grid().col);
            &&& row + n < s.grid().rows ==> moved(
                s,
                after(s, csi(n, 0x42) + csi(n, 0x41)),
                row,
                col,
            )
            &&& row >= n ==> moved(s, after(s, csi(n, 0x41) + csi(n, 0x42)), row, col)
            &&& col + n < s.grid().cols ==> moved(
                s,
                after(s, csi(n, 0x43) + csi(n, 0x44)),
                row,
                col,
            )
            &&& col >= n ==> moved(s, after(s, csi(n, 0x44) + csi(n, 0x43)), row, col)
        }),
{
    lemma_there_and_back(s, n, 0x42, 0x41);
    lemma_there_and_back(s, n, 0x41, 0x42);
    lemma_there_and_back(s, n, 0x43, 0x44);
    lemma_there_and_back(s, n, 0x44, 0x43);
}

proof fn lemma_there_and_back(s: ScreenModel, n: nat, away: u8, back: u8)
    requires
        spacious(s),
        1 <= n <= usize::MAX,
        0x41 <= away <= 0x44,
        0x41 <= back <= 0x44,
    ensures
        ({
            let t = after(s, csi(n, away) + csi(n, back));
            let (row, col) = (s.grid().row, s.grid().col);
            &&& away == 0x42 && back == 0x41 && row + n < s.grid().rows ==> moved(s, t, row, col)
            &&& away == 0x41 && back == 0x42 && row >= n ==> moved(s, t, row, col)
            &&& away == 0x43 && back == 0x44 && col + n < s.grid().cols ==> moved(s, t, row, col)
            &&& away == 0x44 && back == 0x43 && col >= n ==> moved(s, t, row, col)
        }),
{
    let mid = after(s, csi(n, away));
    law_arrows_move_the_cursor(s, n);
    lemma_fed_sound(s, csi(n, away));
    law_arrows_move_the_cursor(mid, n);
    lemma_after_both(s, csi(n, away), csi(n, back));
}

/// Any bytes keep the screen sound.
pub proof fn lemma_fed_sound(s: ScreenModel, bytes: Seq<u8>)
    requires
        s.wf(),
    ensures
        after(s, bytes).wf(),
    decreases bytes.len(),
{
    reveal(after);
    if bytes.len() > 0 {
        lemma_fed_sound(s, bytes.drop_last());
        screen::law_bytes_keep_the_screen_sound(s.fed(bytes.drop_last()), bytes.last());
    }
}

/// `ESC [ n E` goes to the start of the line `n` below, and `F` to that of the line `n` above.
pub proof fn law_line_moves_go_to_the_start(s: ScreenModel, n: nat)
    requires
        spacious(s),
        1 <= n <= usize::MAX,
    ensures
        ({
            let (row, rows) = (s.grid().row, s.grid().rows);
            &&& moved(s, after(s, csi(n, 0x45)), if row + n < rows { row + n } else { rows - 1 }, 0)
            &&& moved(s, after(s, csi(n, 0x46)), if row >= n { row - n } else { 0 }, 0)
        }),
{
    lemma_csi(s, n, 0x45);
    lemma_csi(s, n, 0x46);
    reveal(screen::csi_effect);
}

/// `ESC [ r ; c H` (or `f`) puts the cursor on row `r` and column `c`. Rows and columns are counted
/// from one, and a place outside the screen stands for the nearest one on it.
pub proof fn law_cursor_is_addressed_from_one(s: ScreenModel, r: nat, c: nat, last: u8)
    requires
        spacious(s),
        1 <= r <= usize::MAX,
        1 <= c <= usize::MAX,
        last == 0x48 || last == 0x66,
    ensures
        moved(
            s,
            after(s, csi_pair(r, c, last)),
            if r <= s.grid().rows { r - 1 } else { s.grid().rows - 1 },
            if c <= s.grid().cols { c - 1 } else { s.grid().cols - 1 },
        ),
{
    lemma_csi_pair(s, r, c, last);
    reveal(screen::csi_effect);
}

/// Without a column the cursor goes to the first one, and without a row to the first row.
pub proof fn law_home_is_the_first_cell(s: ScreenModel, r: nat, last: u8)
    requires
        spacious(s),
        1 <= r <= usize::MAX,
        last == 0x48 || last == 0x66,
    ensures
        moved(
            s,
            after(s, csi(r, last)),
            if r <= s.grid().rows { r - 1 } else { s.grid().rows - 1 },
            0,
        ),
        moved(s, after(s, csi_bare(last)), 0, 0),
{
    lemma_csi(s, r, last);
    lemma_csi_bare(s, last);
    reveal(screen::csi_effect);
}

/// `ESC [ c G` (or a backquote) goes to column `c` of the same row, and `ESC [ c d` to row `c` of
/// the same column, both counted from one.
pub proof fn law_rows_and_columns_are_addressed_alone(s: ScreenModel, c: nat)
    requires
        spacious(s),
        1 <= c <= usize::MAX,
    ensures
        ({
            let (row, col) = (s.grid().row, s.grid().col);
            let to_row = if c <= s.grid().rows { c - 1 } else { s.grid().rows - 1 };
            let to_col = if c <= s.grid().cols { c - 1 } else { s.grid().cols - 1 };
            &&& moved(s, after(s, csi(c, 0x47)), row, to_col)
            &&& moved(s, after(s, csi(c, 0x60)), row, to_col)
            &&& moved(s, after(s, csi(c, 0x64)), to_row, col)
        }),
{
    lemma_csi(s, c, 0x47);
    lemma_csi(s, c, 0x60);
    lemma_csi(s, c, 0x64);
    reveal(screen::csi_effect);
}

/// Whether the sequences that end in this byte take a count.
pub open spec fn counted(last: u8) -> bool {
    ||| 0x40 <= last <= 0x48
    ||| last == 0x4c
    ||| last == 0x4d
    ||| last == 0x50
    ||| last == 0x53
    ||| last == 0x54
    ||| last == 0x58
    ||| last == 0x60
    ||| last == 0x64
}

/// A count that is missing or zero stands for one.
pub proof fn law_missing_counts_are_one(s: ScreenModel, last: u8)
    requires
        spacious(s),
        counted(last),
    ensures
        after(s, csi_bare(last)).grid() == after(s, csi(1, last)).grid(),
        after(s, csi(0, last)).grid() == after(s, csi(1, last)).grid(),
{
    lemma_csi_bare(s, last);
    lemma_csi(s, 0, last);
    lemma_csi(s, 1, last);
    reveal(screen::csi_effect);
}

/// A carriage return goes to the start of the line, and a backspace one cell to the left.
pub proof fn law_control_bytes_move_the_cursor(s: ScreenModel)
    requires
        spacious(s),
    ensures
        moved(s, after(s, seq![0x0du8]), s.grid().row, 0),
        moved(
            s,
            after(s, seq![0x08u8]),
            s.grid().row,
            if s.grid().col > 0 { s.grid().col - 1 } else { 0 },
        ),
{
    lemma_one_byte(s, 0x0d);
    lemma_one_byte(s, 0x08);
}

/// A tab goes right to the nearest column that is a multiple of eight, or to the last one.
pub proof fn law_tabs_stop_at_every_eighth_column(s: ScreenModel)
    requires
        spacious(s),
    ensures
        ({
            let (col, cols) = (s.grid().col, s.grid().cols);
            let t = after(s, seq![0x09u8]);
            &&& moved(s, t, s.grid().row, t.grid().col)
            &&& col < cols - 1 ==> col < t.grid().col <= col + 8
            &&& t.grid().col == cols - 1 || t.grid().col % 8 == 0
            &&& forall|j: int| col < j < t.grid().col ==> #[trigger] (j % 8) != 0
        }),
{
    let (col, cols) = (s.grid().col, s.grid().cols);
    let stop = (col / 8 + 1) * 8;
    let to = if stop < cols { stop } else { cols - 1 };
    lemma_tab(s, to);
    lemma_next_stop(col, stop);
}

proof fn lemma_tab(s: ScreenModel, to: int)
    requires
        spacious(s),
        to == (if (s.grid().col / 8 + 1) * 8 < s.grid().cols {
            (s.grid().col / 8 + 1) * 8
        } else {
            s.grid().cols - 1
        }),
    ensures
        moved(s, after(s, seq![0x09u8]), s.grid().row, to),
{
    lemma_one_byte(s, 0x09);
}

proof fn lemma_next_stop(col: int, stop: int)
    requires
        0 <= col,
        stop == (col / 8 + 1) * 8,
    ensures
        col < stop <= col + 8,
        stop % 8 == 0,
        forall|j: int| col < j < stop ==> #[trigger] (j % 8) != 0,
{
}

pub proof fn lemma_one_byte(s: ScreenModel, byte: u8)
    ensures
        after(s, seq![byte]) == s.fed_byte(byte),
{
    reveal(after);
    assert(seq![byte].drop_last() =~= Seq::<u8>::empty());
    assert(s.fed(Seq::empty()) == s);
    assert(seq![byte].last() == byte);
}

} // verus!
