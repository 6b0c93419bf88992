//! What printed characters do to the screen, and what a screen shows.

use vstd::prelude::*;
use crate::grid::GridModel;
use crate::replay;
use crate::screen;
use crate::screen::{ScreenModel, State};
use crate::text;

verus! {

/// The character stands in the cell under the cursor and no other cell has changed; the cursor is
/// one cell further, or waits at the end of the line.
pub open spec fn placed(s: ScreenModel, t: ScreenModel, ch: char) -> bool {
    let (g, h) = (s.grid(), t.grid());
    &&& replay::undisturbed(s, t)
    &&& replay::same_region(s, t)
    &&& h.row == g.row
    &&& h.cells.len() == g.cells.len()
    &&& forall|i: int| 0 <= i < g.rows ==> (#[trigger] h.cells[i]).len() == g.cols
    &&& h.cells[g.row][g.col] == ch
    &&& forall|i: int, j: int|
        0 <= i < g.rows && 0 <= j < g.cols && !(i == g.row && j == g.col) ==> (
        #[trigger] h.cells[i][j]) == g.cells[i][j]
    &&& g.col + 1 < g.cols ==> h.col == g.col + 1 && !h.pending_wrap
    &&& g.col + 1 == g.cols ==> h.col == g.col && h.pending_wrap
}

/// The byte is a printable ASCII character.
pub open spec fn printable(byte: u8) -> bool {
    0x20 <= byte <= 0x7e
}

/// A printable byte stands for itself.
pub proof fn law_printable_bytes_fill_a_cell(s: ScreenModel, byte: u8)
    requires
        replay::spacious(s),
        !s.grid().pending_wrap,
        printable(byte),
    ensures
        placed(s, replay::after(s, seq![byte]), byte as char),
{
    replay::lemma_one_byte(s, byte);
    lemma_placed(s, byte as char);
}

proof fn lemma_placed(s: ScreenModel, ch: char)
    requires
        replay::spacious(s),
        !s.grid().pending_wrap,
    ensures
        placed(s, s.put(ch), ch),
{
}

/// A line of printable bytes that fits is written where the cursor stands, byte for byte, and
/// changes no other cell.
pub proof fn law_texts_are_written_in_place(s: ScreenModel, bytes: Seq<u8>)
    requires
        replay::spacious(s),
        !s.grid().pending_wrap,
        s.grid().col + bytes.len() < s.grid().cols,
        forall|k: int| 0 <= k < bytes.len() ==> printable(#[trigger] bytes[k]),
    ensures
        ({
            let t = replay::after(s, bytes);
            let (g, h) = (s.grid(), t.grid());
            &&& replay::undisturbed(s, t)
            &&& replay::same_region(s, t)
            &&& !h.pending_wrap
            &&& h.row == g.row
            &&& h.col == g.col + bytes.len()
            &&& h.cells.len() == g.rows
            &&& forall|i: int, j: int|
                0 <= i < g.rows && 0 <= j < g.cols ==> (#[trigger] h.cells[i][j]) == if i == g.row
                    && g.col <= j < g.col + bytes.len() {
                    bytes[j - g.col] as char
                } else {
                    g.cells[i][j]
                }
        }),
    decreases bytes.len(),
{
    if bytes.len() == 0 {
        reveal(replay::after);
    } else {
        let front = bytes.drop_last();
        let last = bytes.last();
        assert forall|k: int| 0 <= k < front.len() implies printable(#[trigger] front[k]) by {
            assert(front[k] == bytes[k]);
        }
        assert(printable(bytes[bytes.len() - 1]));
        law_texts_are_written_in_place(s, front);
        replay::lemma_fed_sound(s, front);
        let mid = replay::after(s, front);
        law_printable_bytes_fill_a_cell(mid, last);
        assert(bytes =~= front + seq![last]);
        replay::lemma_after_both(s, front, seq![last]);
    }
}

/// A character behind the end of the line goes to the start of the next one, as after a carriage
/// return and a line feed.
pub proof fn law_full_lines_wrap(s: ScreenModel, byte: u8)
    requires
        replay::spacious(s),
        s.grid().pending_wrap,
        printable(byte),
    ensures
        replay::after(s, seq![byte]).grid() == replay::after(
            s,
            seq![0x0du8, 0x0au8, byte],
        ).grid(),
{
    replay::lemma_one_byte(s, byte);
    let (a, b) = (seq![0x0du8], seq![0x0au8]);
    replay::lemma_one_byte(s, 0x0d);
    let t = replay::after(s, a);
    replay::lemma_one_byte(t, 0x0a);
    let u = replay::after(t, b);
    replay::lemma_one_byte(u, byte);
    replay::lemma_after_both(s, a, b);
    replay::lemma_after_both(s, a + b, seq![byte]);
    assert(a + b + seq![byte] =~= seq![0x0du8, 0x0au8, byte]);
    assert(!t.grid().pending_wrap);
    assert(u.grid() == s.grid().unwrapped());
}

/// Every character beyond ASCII fills one cell, however many bytes it takes.
pub proof fn law_encoded_characters_fill_a_cell(s: ScreenModel, c: char)
    requires
        replay::spacious(s),
        !s.grid().pending_wrap,
        c as u32 >= 0x80,
    ensures
        placed(s, replay::after(s, vstd::utf8::encode_utf8(seq![c])), c),
{
    let bytes = vstd::utf8::encode_utf8(seq![c]);
    vstd::utf8::encode_utf8_first_scalar(seq![c]);
    vstd::utf8::encode_utf8_valid_utf8(seq![c]);
    vstd::utf8::encode_utf8_decode_utf8(seq![c]);
    vstd::utf8::char_is_scalar(c);
    assert(seq![c].drop_first() =~= Seq::<char>::empty());
    assert(vstd::utf8::encode_utf8(Seq::<char>::empty()) =~= Seq::<u8>::empty());
    assert(bytes =~= vstd::utf8::encode_scalar(c as u32));
    lemma_shape(bytes);
    if vstd::utf8::is_leading_byte_width_1(bytes[0]) {
        assert(bytes.len() == 1);
        assert(vstd::utf8::has_width_1_encoding(c as u32));
    }
    lemma_encoded(s, bytes, bytes.len() as int);
    assert(bytes.take(bytes.len() as int) =~= bytes);
    assert(screen::decoded(bytes) == c);
    assert(s == (ScreenModel { utf8: Seq::empty(), ..s })) by {
        assert(s.utf8 =~= Seq::empty());
    }
    lemma_placed(s, c);
}

proof fn lemma_shape(bytes: Seq<u8>)
    requires
        vstd::utf8::valid_first_scalar(bytes),
        vstd::utf8::length_of_first_scalar(bytes) == bytes.len(),
    ensures
        screen::encoded_length(bytes[0]) == bytes.len(),
        forall|i: int| 1 <= i < bytes.len() ==> 0x80 <= #[trigger] bytes[i] < 0xc0,
{
}

/// The bytes of a character, one by one.
proof fn lemma_encoded(s: ScreenModel, bytes: Seq<u8>, upto: int)
    requires
        replay::ready(s),
        1 <= upto <= bytes.len(),
        bytes[0] >= 0xc0,
        bytes.len() == screen::encoded_length(bytes[0]),
        bytes.len() > 1,
        forall|i: int| 1 <= i < bytes.len() ==> 0x80 <= #[trigger] bytes[i] < 0xc0,
    ensures
        upto < bytes.len() ==> replay::after(s, bytes.take(upto)) == (ScreenModel {
            utf8: bytes.take(upto),
            ..s
        }),
        upto == bytes.len() ==> replay::after(s, bytes.take(upto)) == (ScreenModel {
            utf8: Seq::empty(),
            ..s
        }).put(screen::decoded(bytes)),
    decreases upto,
{
    let front = bytes.take(upto - 1);
    let last = bytes[upto - 1];
    assert(bytes.take(upto) =~= front + seq![last]);
    replay::lemma_after_both(s, front, seq![last]);
    if upto == 1 {
        reveal(replay::after);
        assert(front =~= Seq::empty());
        replay::lemma_one_byte(s, last);
        assert(s.utf8.push(last) =~= bytes.take(1));
    } else {
        lemma_encoded(s, bytes, upto - 1);
        let mid = replay::after(s, front);
        replay::lemma_one_byte(mid, last);
        assert(mid.utf8.push(last) =~= bytes.take(upto));
        assert(bytes.take(upto)[0] == bytes[0]);
        assert(bytes.take(bytes.len() as int) =~= bytes);
    }
}

/// A byte that cannot start a character shows the replacement character.
pub proof fn law_stray_bytes_show_a_replacement(s: ScreenModel, byte: u8)
    requires
        replay::spacious(s),
        !s.grid().pending_wrap,
        0x80 <= byte < 0xc0 || byte >= 0xf8,
    ensures
        placed(s, replay::after(s, seq![byte]), '\u{fffd}'),
{
    replay::lemma_one_byte(s, byte);
    lemma_placed(s, '\u{fffd}');
}

/// A character that is cut off by a printable byte shows the replacement character, and the byte
/// after it counts as usual.
pub proof fn law_unfinished_characters_show_a_replacement(s: ScreenModel, lead: u8, byte: u8)
    requires
        replay::spacious(s),
        !s.grid().pending_wrap,
        0xc0 <= lead < 0xf8,
        printable(byte),
    ensures
        replay::after(s, seq![lead, byte]).grid() == replay::after(s, seq![0x80u8, byte]).grid(),
        placed(s, replay::after(s, seq![0x80u8]), '\u{fffd}'),
{
    law_stray_bytes_show_a_replacement(s, 0x80);
    replay::lemma_one_byte(s, lead);
    replay::lemma_one_byte(s, 0x80);
    let (t, u) = (replay::after(s, seq![lead]), replay::after(s, seq![0x80u8]));
    replay::lemma_one_byte(t, byte);
    replay::lemma_one_byte(u, byte);
    replay::lemma_after_both(s, seq![lead], seq![byte]);
    replay::lemma_after_both(s, seq![0x80u8], seq![byte]);
    assert(seq![lead] + seq![byte] =~= seq![lead, byte]);
    assert(seq![0x80u8] + seq![byte] =~= seq![0x80u8, byte]);
    assert(s == (ScreenModel { utf8: Seq::empty(), ..s })) by {
        assert(s.utf8 =~= Seq::empty());
    }
    assert((ScreenModel { utf8: Seq::empty(), ..t }) == s);
    assert(u == s.put('\u{fffd}'));
}

/// All other control bytes, and a deletion, have no effect.
pub proof fn law_other_control_bytes_have_no_effect(s: ScreenModel, byte: u8)
    requires
        replay::ready(s),
        byte < 0x08 || 0x0d < byte < 0x20 || byte == 0x7f,
        byte != 0x1b,
    ensures
        replay::after(s, seq![byte]) == s,
{
    replay::lemma_one_byte(s, byte);
}

/// The modes 47, 1047 and 1049 show the alternate screen, blank, and their reset leaves it. No other
/// mode has an effect on either screen.
pub proof fn law_three_modes_switch_screens(s: ScreenModel, mode: nat, enable: bool)
    requires
        replay::ready(s),
        mode <= usize::MAX,
    ensures
        ({
            let t = replay::after(s, screen::mode_sequence(mode, enable));
            let switches = mode == 47 || mode == 1047 || mode == 1049;
            &&& t.state == State::Ground && t.utf8.len() == 0
            &&& switches ==> t.alternate_active == enable
            &&& switches && enable && !s.alternate_active ==> t.grid().row == 0 && t.grid().col == 0
                && t.grid().cells.len() == s.grid().rows && forall|i: int|
                0 <= i < s.grid().rows ==> (#[trigger] t.grid().cells[i]).len() == s.grid().cols
                    && replay::is_blank(t.grid().cells[i])
            &&& !switches || enable == s.alternate_active ==> t.primary == s.primary && t.alternate
                == s.alternate && t.alternate_active == s.alternate_active
        }),
{
    reveal(replay::after);
    screen::lemma_mode_sequence(s, mode, enable);
}

/// A new screen is blank, with the cursor in its first cell and every line in the scroll region.
pub proof fn law_new_screens_are_blank(cols: nat, rows: nat)
    requires
        0 < cols <= u16::MAX,
        0 < rows <= u16::MAX,
    ensures
        ({
            let s = ScreenModel::blank(cols, rows);
            &&& replay::spacious(s)
            &&& !s.alternate_active
            &&& s.grid().cols == cols && s.grid().rows == rows
            &&& s.grid().row == 0 && s.grid().col == 0 && !s.grid().pending_wrap
            &&& s.grid().scroll_top == 0 && s.grid().scroll_bottom == rows - 1
            &&& forall|i: int|
                0 <= i < rows ==> (#[trigger] s.grid().cells[i]).len() == cols && replay::is_blank(
                    s.grid().cells[i],
                )
        }),
{
}

/// Resizing keeps the cells of the corner that both sizes share and blanks the others; a cursor
/// outside goes to the nearest cell, and every line is in the scroll region.
pub proof fn law_resizing_keeps_the_corner(s: ScreenModel, cols: nat, rows: nat)
    requires
        s.wf(),
        0 < cols <= u16::MAX,
        0 < rows <= u16::MAX,
    ensures
        ({
            let t = s.resized(cols, rows);
            let (g, h) = (s.grid(), t.grid());
            &&& t.wf()
            &&& t.alternate_active == s.alternate_active
            &&& h.cols == cols && h.rows == rows
            &&& t.primary.cols == cols && t.primary.rows == rows
            &&& t.alternate.cols == cols && t.alternate.rows == rows
            &&& h.row == (if g.row < rows { g.row } else { rows - 1 })
            &&& h.col == (if g.col < cols { g.col } else { cols - 1 })
            &&& h.scroll_top == 0 && h.scroll_bottom == rows - 1
            &&& forall|i: int, j: int|
                0 <= i < rows && 0 <= j < cols ==> (#[trigger] h.cells[i][j]) == if i < g.rows && j
                    < g.cols {
                    g.cells[i][j]
                } else {
                    ' '
                }
        }),
{
}

/// The rows that a screen gives are its lines, each without the white space at its end: the text
/// stands at the start of the line, only white space follows it, and it does not end in any.
pub proof fn law_rows_lose_trailing_white_space_only(g: GridModel, i: int)
    requires
        0 <= i < g.cells.len(),
    ensures
        ({
            let (line, row) = (g.cells[i], screen::trimmed_rows(g)[i]);
            &&& screen::trimmed_rows(g).len() == g.cells.len()
            &&& row.len() <= line.len()
            &&& line.take(row.len() as int) == row
            &&& forall|j: int| row.len() <= j < line.len() ==> text::white(#[trigger] line[j])
            &&& row.len() > 0 ==> !text::white(row.last())
        }),
{
    lemma_trimmed(g.cells[i]);
}

/// Trimming the end takes away white space, all of it, and nothing else.
pub proof fn lemma_trimmed(s: Seq<char>)
    ensures
        text::trim_end(s).len() <= s.len(),
        s.take(text::trim_end(s).len() as int) == text::trim_end(s),
        forall|j: int| text::trim_end(s).len() <= j < s.len() ==> text::white(#[trigger] s[j]),
        text::trim_end(s).len() > 0 ==> !text::white(text::trim_end(s).last()),
    decreases s.len(),
{
    if s.len() > 0 && text::white(s.last()) {
        let front = s.drop_last();
        lemma_trimmed(front);
        let kept = text::trim_end(front);
        assert(s.take(kept.len() as int) =~= front.take(kept.len() as int));
        assert forall|j: int| kept.len() <= j < s.len() implies text::white(#[trigger] s[j]) by {
            if j < front.len() {
                assert(front[j] == s[j]);
            }
        }
    } else {
        assert(s.take(s.len() as int) =~= s);
    }
}

/// White space is what Unicode says: the blank, the tab and the line ends are, and no printable ASCII
/// character is.
pub proof fn law_printable_characters_are_not_white(c: char)
    ensures
        c == ' ' || c == '\t' || c == '\n' || c == '\r' ==> text::white(c),
        '!' <= c <= '~' ==> !text::white(c),
{
}

} // verus!
