//! What the bytes of a client do to the cells: what is written, erased, inserted, deleted and
//! scrolled, and where.

use vstd::prelude::*;
use crate::grid::GridModel;
use crate::replay;
use crate::screen;
use crate::screen::{ScreenModel, State};

verus! {

// ---------------------------------------------------------------------------------------------
// Erasing
// ---------------------------------------------------------------------------------------------

/// Whether erasing a line in this mode reaches the column: those from the cursor on for zero, those
/// up to and with it for one, and all for any other.
pub open spec fn reached(mode: nat, cursor: int, j: int) -> bool {
    if mode == 0 {
        j >= cursor
    } else if mode == 1 {
        j <= cursor
    } else {
        true
    }
}

/// `ESC [ m K` blanks the cells of the cursor's line that the mode reaches, and nothing else.
pub proof fn law_erasing_a_line_blanks_its_cells(s: ScreenModel, mode: nat)
    requires
        replay::spacious(s),
        mode <= usize::MAX,
    ensures
        ({
            let t = replay::after(s, replay::csi(mode, 0x4b));
            &&& replay::repainted(s, t)
            &&& forall|i: int, j: int|
                0 <= i < s.grid().rows && 0 <= j < s.grid().cols ==> (
                #[trigger] t.grid().cells[i][j]) == if i == s.grid().row && reached(
                    mode,
                    s.grid().col,
                    j,
                ) {
                    ' '
                } else {
                    s.grid().cells[i][j]
                }
        }),
        replay::after(s, replay::csi_bare(0x4b)).grid() == replay::after(s, replay::csi(0, 0x4b)).grid(),
{
    replay::lemma_csi(s, mode, 0x4b);
    replay::lemma_csi(s, 0, 0x4b);
    replay::lemma_csi_bare(s, 0x4b);
    reveal(screen::csi_effect);
}

/// `ESC [ m J` blanks the cells of the screen that the mode reaches in reading order, and nothing
/// else.
pub proof fn law_erasing_the_screen_blanks_its_cells(s: ScreenModel, mode: nat)
    requires
        replay::spacious(s),
        mode <= usize::MAX,
    ensures
        ({
            let t = replay::after(s, replay::csi(mode, 0x4a));
            let row = s.grid().row;
            &&& replay::repainted(s, t)
            &&& forall|i: int, j: int|
                0 <= i < s.grid().rows && 0 <= j < s.grid().cols ==> (
                #[trigger] t.grid().cells[i][j]) == if (mode == 0 && i > row) || (mode == 1 && i
                    < row) || mode > 1 || (i == row && reached(mode, s.grid().col, j)) {
                    ' '
                } else {
                    s.grid().cells[i][j]
                }
        }),
        replay::after(s, replay::csi_bare(0x4a)).grid() == replay::after(s, replay::csi(0, 0x4a)).grid(),
{
    replay::lemma_csi(s, mode, 0x4a);
    replay::lemma_csi(s, 0, 0x4a);
    replay::lemma_csi_bare(s, 0x4a);
    reveal(screen::csi_effect);
}

/// `ESC [ n X` blanks `n` cells from the cursor on, as far as the line goes, and nothing else.
pub proof fn law_erasing_cells_leaves_the_rest(s: ScreenModel, n: nat)
    requires
        replay::spacious(s),
        1 <= n <= usize::MAX,
    ensures
        ({
            let t = replay::after(s, replay::csi(n, 0x58));
            &&& replay::repainted(s, t)
            &&& forall|i: int, j: int|
                0 <= i < s.grid().rows && 0 <= j < s.grid().cols ==> (
                #[trigger] t.grid().cells[i][j]) == if i == s.grid().row && s.grid().col <= j
                    < s.grid().col + n {
                    ' '
                } else {
                    s.grid().cells[i][j]
                }
        }),
{
    replay::lemma_csi(s, n, 0x58);
    reveal(screen::csi_effect);
}

// ---------------------------------------------------------------------------------------------
// Inserting and deleting
// ---------------------------------------------------------------------------------------------

/// The lines from `top` to `bottom` of the first screen stand `n` lines higher in the second, with
/// blank lines below them; all other lines are the same.
pub open spec fn lifted(s: ScreenModel, t: ScreenModel, top: int, bottom: int, n: nat) -> bool {
    forall|i: int|
        0 <= i < s.grid().rows ==> {
            let line = #[trigger] t.grid().cells[i];
            if i < top || i > bottom {
                line == s.grid().cells[i]
            } else if i + n <= bottom {
                line == s.grid().cells[i + n]
            } else {
                replay::is_blank(line)
            }
        }
}

/// The lines from `top` to `bottom` of the first screen stand `n` lines lower in the second, with
/// blank lines above them; all other lines are the same.
pub open spec fn lowered(s: ScreenModel, t: ScreenModel, top: int, bottom: int, n: nat) -> bool {
    forall|i: int|
        0 <= i < s.grid().rows ==> {
            let line = #[trigger] t.grid().cells[i];
            if i < top || i > bottom {
                line == s.grid().cells[i]
            } else if i - n >= top {
                line == s.grid().cells[i - n]
            } else {
                replay::is_blank(line)
            }
        }
}

/// `ESC [ n S` lifts the lines of the scroll region by `n`.
pub proof fn law_scrolling_up_lifts_the_region(s: ScreenModel, n: nat)
    requires
        replay::spacious(s),
        1 <= n <= usize::MAX,
    ensures
        replay::repainted(s, replay::after(s, replay::csi(n, 0x53))),
        lifted(s, replay::after(s, replay::csi(n, 0x53)), s.grid().scroll_top, s.grid().scroll_bottom, n),
{
    replay::lemma_csi(s, n, 0x53);
    reveal(screen::csi_effect);
}

/// `ESC [ n T` lowers the lines of the scroll region by `n`.
pub proof fn law_scrolling_down_lowers_the_region(s: ScreenModel, n: nat)
    requires
        replay::spacious(s),
        1 <= n <= usize::MAX,
    ensures
        replay::repainted(s, replay::after(s, replay::csi(n, 0x54))),
        lowered(s, replay::after(s, replay::csi(n, 0x54)), s.grid().scroll_top, s.grid().scroll_bottom, n),
{
    replay::lemma_csi(s, n, 0x54);
    reveal(screen::csi_effect);
}

/// `ESC [ n L` lowers the lines from the cursor to the end of the scroll region by `n`; outside the
/// region it does nothing.
pub proof fn law_inserting_lines_lowers_the_rest(s: ScreenModel, n: nat)
    requires
        replay::spacious(s),
        1 <= n <= usize::MAX,
    ensures
        ({
            let t = replay::after(s, replay::csi(n, 0x4c));
            let g = s.grid();
            &&& replay::repainted(s, t)
            &&& g.scroll_top <= g.row <= g.scroll_bottom ==> lowered(
                s,
                t,
                g.row,
                g.scroll_bottom,
                n,
            )
            &&& !(g.scroll_top <= g.row <= g.scroll_bottom) ==> t.grid().cells == g.cells
        }),
{
    replay::lemma_csi(s, n, 0x4c);
    reveal(screen::csi_effect);
}

/// `ESC [ n M` lifts the lines from the cursor to the end of the scroll region by `n`; outside the
/// region it does nothing.
pub proof fn law_deleting_lines_lifts_the_rest(s: ScreenModel, n: nat)
    requires
        replay::spacious(s),
        1 <= n <= usize::MAX,
    ensures
        ({
            let t = replay::after(s, replay::csi(n, 0x4d));
            let g = s.grid();
            &&& replay::repainted(s, t)
            &&& g.scroll_top <= g.row <= g.scroll_bottom ==> lifted(s, t, g.row, g.scroll_bottom, n)
            &&& !(g.scroll_top <= g.row <= g.scroll_bottom) ==> t.grid().cells == g.cells
        }),
{
    replay::lemma_csi(s, n, 0x4d);
    reveal(screen::csi_effect);
}

/// `ESC [ n @` moves the cells from the cursor on `n` to the right, with blanks before them, and
/// `ESC [ n P` moves them `n` to the left, with blanks after them. Other lines, and the cells before
/// the cursor, stay.
pub proof fn law_inserting_and_deleting_cells_moves_the_rest(s: ScreenModel, n: nat)
    requires
        replay::spacious(s),
        1 <= n <= usize::MAX,
    ensures
        ({
            let (t, u) = (replay::after(s, replay::csi(n, 0x40)), replay::after(s, replay::csi(n, 0x50)));
            let (row, col, cols) = (s.grid().row, s.grid().col, s.grid().cols);
            &&& replay::repainted(s, t)
            &&& replay::repainted(s, u)
            &&& forall|i: int, j: int|
                0 <= i < s.grid().rows && 0 <= j < cols ==> (#[trigger] t.grid().cells[i][j]) == if i
                    != row || j < col {
                    s.grid().cells[i][j]
                } else if j < col + n {
                    ' '
                } else {
                    s.grid().cells[i][j - n]
                }
            &&& forall|i: int, j: int|
                0 <= i < s.grid().rows && 0 <= j < cols ==> (#[trigger] u.grid().cells[i][j]) == if i
                    != row || j < col {
                    s.grid().cells[i][j]
                } else if j + n < cols {
                    s.grid().cells[i][j + n]
                } else {
                    ' '
                }
        }),
{
    replay::lemma_csi(s, n, 0x40);
    replay::lemma_csi(s, n, 0x50);
    reveal(screen::csi_effect);
}

// ---------------------------------------------------------------------------------------------
// Line feeds and the scroll region
// ---------------------------------------------------------------------------------------------

/// What a line feed does: on the last line of the scroll region its lines are lifted by one,
/// elsewhere the cursor goes one line down, as far as there is one.
pub open spec fn line_fed(s: ScreenModel, t: ScreenModel) -> bool {
    let (g, h) = (s.grid(), t.grid());
    &&& replay::undisturbed(s, t)
    &&& replay::same_region(s, t)
    &&& g.row == g.scroll_bottom ==> h.row == g.row && lifted(
        s,
        t,
        g.scroll_top,
        g.scroll_bottom,
        1,
    )
    &&& g.row != g.scroll_bottom ==> h.cells == g.cells && h.row == (if g.row + 1 < g.rows {
        g.row + 1
    } else {
        g.row
    })
}

/// A line feed, a vertical tab and a form feed go one line down and keep the column; so does
/// `ESC D`, and `ESC E` goes to the start of that line.
pub proof fn law_line_feeds_go_down(s: ScreenModel, byte: u8)
    requires
        replay::spacious(s),
        byte == 0x0a || byte == 0x0b || byte == 0x0c,
    ensures
        line_fed(s, replay::after(s, seq![byte])),
        replay::after(s, seq![byte]).grid().col == s.grid().col,
        line_fed(s, replay::after(s, seq![0x1bu8, 0x44u8])),
        replay::after(s, seq![0x1bu8, 0x44u8]).grid().col == s.grid().col,
        line_fed(s, replay::after(s, seq![0x1bu8, 0x45u8])),
        replay::after(s, seq![0x1bu8, 0x45u8]).grid().col == 0,
{
    replay::lemma_one_byte(s, byte);
    lemma_escaped(s, 0x44);
    lemma_escaped(s, 0x45);
}

/// The byte after an escape.
proof fn lemma_escaped(s: ScreenModel, byte: u8)
    requires
        replay::ready(s),
    ensures
        replay::after(s, seq![0x1bu8, byte]) == s.in_state(State::Escape).escape(byte),
{
    reveal(replay::after);
    screen::lemma_two_bytes(s, 0x1b, byte);
}

/// `ESC M` goes one line up, and on the first line of the scroll region lowers its lines by one.
pub proof fn law_reverse_index_goes_up(s: ScreenModel)
    requires
        replay::spacious(s),
    ensures
        ({
            let t = replay::after(s, seq![0x1bu8, 0x4du8]);
            let (g, h) = (s.grid(), t.grid());
            &&& replay::undisturbed(s, t)
            &&& replay::same_region(s, t)
            &&& h.col == g.col
            &&& g.row == g.scroll_top ==> h.row == g.row && lowered(
                s,
                t,
                g.scroll_top,
                g.scroll_bottom,
                1,
            )
            &&& g.row != g.scroll_top ==> h.cells == g.cells && h.row == (if g.row > 0 {
                g.row - 1
            } else {
                0
            })
        }),
{
    lemma_escaped(s, 0x4d);
}

/// `ESC [ t ; b r` makes the lines from `t` to `b`, counted from one, the scroll region where that
/// are at least two, and all lines else; a last line that is zero or outside the screen stands for
/// the last one. The cursor goes home, and no cell changes.
pub proof fn law_scroll_regions_are_set_from_one(s: ScreenModel, t: nat, b: nat)
    requires
        replay::spacious(s),
        1 <= t <= usize::MAX,
        b <= usize::MAX,
    ensures
        ({
            let u = replay::after(s, replay::csi_pair(t, b, 0x72));
            let (g, h) = (s.grid(), u.grid());
            let end = if 0 < b < g.rows { b } else { g.rows };
            &&& replay::undisturbed(s, u)
            &&& h.cells == g.cells
            &&& h.row == 0 && h.col == 0 && !h.pending_wrap
            &&& t < end ==> h.scroll_top == t - 1 && h.scroll_bottom == end - 1
            &&& t >= end ==> h.scroll_top == 0 && h.scroll_bottom == g.rows - 1
        }),
        ({
            let u = replay::after(s, replay::csi_bare(0x72));
            let (g, h) = (s.grid(), u.grid());
            &&& replay::undisturbed(s, u)
            &&& h.cells == g.cells
            &&& h.row == 0 && h.col == 0 && !h.pending_wrap
            &&& h.scroll_top == 0 && h.scroll_bottom == g.rows - 1
        }),
{
    replay::lemma_csi_pair(s, t, b, 0x72);
    replay::lemma_csi_bare(s, 0x72);
    reveal(screen::csi_effect);
}

// ---------------------------------------------------------------------------------------------
// The saved cursor
// ---------------------------------------------------------------------------------------------

/// The two bytes that save the cursor (`restore` false) or bring it back (true), and the sequences
/// that do the same.
pub open spec fn cursor_bytes(restore: bool, sequence: bool) -> Seq<u8> {
    if sequence {
        replay::csi_bare(if restore { 0x75 } else { 0x73 })
    } else {
        seq![0x1bu8, if restore { 0x38u8 } else { 0x37u8 }]
    }
}

/// `ESC 7` or `ESC [ s`, any move of the cursor, then `ESC 8` or `ESC [ u`: the cursor is where it
/// was, and no cell has changed.
pub proof fn law_saved_cursors_come_back(
    s: ScreenModel,
    row: nat,
    col: nat,
    first: bool,
    second: bool,
)
    requires
        replay::spacious(s),
        1 <= row <= usize::MAX,
        1 <= col <= usize::MAX,
    ensures
        ({
            let t = replay::after(s, cursor_bytes(false, first));
            let u = replay::after(t, replay::csi_pair(row, col, 0x48));
            let v = replay::after(u, cursor_bytes(true, second));
            &&& t.grid().cells == s.grid().cells
            &&& t.grid().row == s.grid().row && t.grid().col == s.grid().col
            &&& v.grid().cells == s.grid().cells
            &&& v.grid().row == s.grid().row && v.grid().col == s.grid().col
            &&& v.alternate_active == s.alternate_active
            &&& replay::same_region(s, v)
        }),
{
    let t = replay::after(s, cursor_bytes(false, first));
    lemma_saved(s, first);
    replay::lemma_fed_sound(s, cursor_bytes(false, first));
    let u = replay::after(t, replay::csi_pair(row, col, 0x48));
    replay::law_cursor_is_addressed_from_one(t, row, col, 0x48);
    replay::lemma_fed_sound(t, replay::csi_pair(row, col, 0x48));
    lemma_restored(u, second);
}

proof fn lemma_saved(s: ScreenModel, sequence: bool)
    requires
        replay::spacious(s),
    ensures
        ({
            let t = replay::after(s, cursor_bytes(false, sequence));
            &&& t.grid() == (GridModel {
                saved_cursor: Some((s.grid().row, s.grid().col)),
                ..s.grid()
            })
            &&& t.state == State::Ground
            &&& t.utf8.len() == 0
            &&& t.alternate_active == s.alternate_active
        }),
{
    if sequence {
        replay::lemma_csi_bare(s, 0x73);
        reveal(screen::csi_effect);
    } else {
        lemma_escaped(s, 0x37);
    }
}

proof fn lemma_restored(s: ScreenModel, sequence: bool)
    requires
        replay::spacious(s),
    ensures
        ({
            let t = replay::after(s, cursor_bytes(true, sequence));
            match s.grid().saved_cursor {
                Some(at) => replay::moved(
                    s,
                    t,
                    if at.0 < s.grid().rows { at.0 } else { s.grid().rows - 1 },
                    if at.1 < s.grid().cols { at.1 } else { s.grid().cols - 1 },
                ),
                None => t.grid() == s.grid() && t.alternate_active == s.alternate_active,
            }
        }),
{
    if sequence {
        replay::lemma_csi_bare(s, 0x75);
        reveal(screen::csi_effect);
    } else {
        lemma_escaped(s, 0x38);
    }
}

} // verus!
