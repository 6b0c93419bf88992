//! A small VT100/xterm screen model used as a correctness oracle.
//!
//! It replays the bytes a client writes to its terminal into a character grid, so that scenarios
//! can assert what a user would see: the new marker is present, the previous marker is gone, and
//! the tail of an output burst is intact and in order.
//!
//! Only the sequences needed for those assertions have an effect (cursor movement, erase, scroll
//! regions, insert/delete, alternate screen, save/restore). Colors and attributes are ignored,
//! wide characters occupy one cell, and unsupported sequences are consumed without effect. It is
//! a deliberately conservative oracle, not a terminal emulator.

use crate::decimal;
use crate::grid;
use crate::grid::{Grid, GridModel};
use crate::text;
use vstd::prelude::*;

verus! {

/// `std::str::from_utf8` accepts exactly the well-formed UTF-8 sequences, and the text it gives
/// is the one that they encode.
#[verifier::external_body]
fn utf8_text(bytes: &[u8]) -> (r: Option<&str>)
    ensures
        match r {
            Some(t) => vstd::utf8::valid_utf8(bytes@) && t@ == vstd::utf8::decode_utf8(bytes@),
            None => !vstd::utf8::valid_utf8(bytes@),
        },
{
    std::str::from_utf8(bytes).ok()
}

/// Where in a sequence the next byte stands.
#[derive(Debug, Clone, Copy, PartialEq, Eq, Structural)]
pub enum State {
    Ground,
    Escape,
    EscapeIntermediate,
    Csi,
    StringBody,
    StringEscape,
}

/// The replacement character.
pub const REPLACEMENT: char = '\u{fffd}';

/// A screen as values: both grids, which of them is shown, and what is left of an unfinished
/// sequence or character.
#[verifier::ext_equal]
pub struct ScreenModel {
    pub primary: GridModel,
    pub alternate: GridModel,
    pub alternate_active: bool,
    pub state: State,
    pub params: Seq<char>,
    pub private: bool,
    pub utf8: Seq<u8>,
}

/// The number of bytes of the character that `lead` starts.
pub open spec fn encoded_length(lead: u8) -> nat {
    if 0xc0 <= lead <= 0xdf {
        2
    } else if 0xe0 <= lead <= 0xef {
        3
    } else if 0xf0 <= lead <= 0xf7 {
        4
    } else {
        1
    }
}

/// The character that the bytes encode, or the replacement character.
pub open spec fn decoded(bytes: Seq<u8>) -> char {
    if vstd::utf8::valid_utf8(bytes) && bytes.len() > 0 {
        vstd::utf8::decode_utf8(bytes)[0]
    } else {
        REPLACEMENT
    }
}

/// One parameter of a control sequence: the numeral before its first colon; zero where there is
/// none or where it is too large.
pub open spec fn param(field: Seq<char>) -> nat {
    match decimal::numeral_within(text::fields(field, ':')[0], usize::MAX as nat) {
        Some(n) => n,
        None => 0,
    }
}

/// The parameters of a control sequence.
pub open spec fn params_of(s: Seq<char>) -> Seq<nat> {
    text::fields(s, ';').map_values(|f: Seq<char>| param(f))
}

pub open spec fn at_least_one(n: nat) -> nat {
    if n == 0 {
        1
    } else {
        n
    }
}

/// The mode numbers that show and leave the alternate screen.
pub open spec fn alternate_mode(mode: nat) -> bool {
    mode == 47 || mode == 1047 || mode == 1049
}

/// The second parameter; zero where there is none.
pub open spec fn second_of(ps: Seq<nat>) -> nat {
    if ps.len() > 1 {
        ps[1]
    } else {
        0
    }
}

/// What a control sequence with these first two parameters and this final byte does to the
/// shown grid.
#[verifier::opaque]
pub open spec fn csi_effect(g: GridModel, first: nat, second: nat, byte: u8) -> GridModel {
    let one = at_least_one(first) as int;
    if byte == 0x41 {  // A
        g.moved_to(if g.row >= one { g.row - one } else { 0 }, g.col)
    } else if byte == 0x42 {  // B
        g.moved_to(g.row + one, g.col)
    } else if byte == 0x43 {  // C
        g.moved_to(g.row, g.col + one)
    } else if byte == 0x44 {  // D
        g.moved_to(g.row, if g.col >= one { g.col - one } else { 0 })
    } else if byte == 0x45 {  // E
        g.moved_to(g.row + one, 0)
    } else if byte == 0x46 {  // F
        g.moved_to(if g.row >= one { g.row - one } else { 0 }, 0)
    } else if byte == 0x47 || byte == 0x60 {  // G `
        g.moved_to(g.row, one - 1)
    } else if byte == 0x64 {  // d
        g.moved_to(one - 1, g.col)
    } else if byte == 0x48 || byte == 0x66 {  // H f
        g.moved_to(one - 1, at_least_one(second) - 1)
    } else if byte == 0x4a {  // J
        g.display_erased(first)
    } else if byte == 0x4b {  // K
        g.line_erased(first)
    } else if byte == 0x4c {  // L
        g.lines_inserted(one)
    } else if byte == 0x4d {  // M
        g.lines_deleted(one)
    } else if byte == 0x40 {  // @
        g.chars_inserted(one)
    } else if byte == 0x50 {  // P
        g.chars_deleted(one)
    } else if byte == 0x58 {  // X
        g.chars_erased(one)
    } else if byte == 0x53 {  // S
        g.scrolled_up(one)
    } else if byte == 0x54 {  // T
        g.scrolled_down(one)
    } else if byte == 0x72 {  // r
        g.with_region(
            one - 1,
            grid::last_index(
                if second > 0 && second < g.rows {
                    second
                } else {
                    g.rows
                },
            ),
        )
    } else if byte == 0x73 {  // s
        g.saved()
    } else if byte == 0x75 {  // u
        g.restored()
    } else {
        g
    }
}

impl ScreenModel {
    pub open spec fn blank(cols: nat, rows: nat) -> ScreenModel {
        ScreenModel {
            primary: GridModel::blank(cols, rows),
            alternate: GridModel::blank(cols, rows),
            alternate_active: false,
            state: State::Ground,
            params: Seq::empty(),
            private: false,
            utf8: Seq::empty(),
        }
    }

    /// Both grids are sound and of one size.
    pub open spec fn wf(self) -> bool {
        &&& self.primary.wf()
        &&& self.alternate.wf()
        &&& self.primary.cols == self.alternate.cols
        &&& self.primary.rows == self.alternate.rows
        &&& self.utf8.len() <= 4
        &&& self.utf8.len() > 0 ==> self.utf8.len() < encoded_length(self.utf8[0])
    }

    /// The grid that is shown.
    pub open spec fn grid(self) -> GridModel {
        if self.alternate_active {
            self.alternate
        } else {
            self.primary
        }
    }

    /// The screen with another shown grid.
    pub open spec fn showing(self, g: GridModel) -> ScreenModel {
        if self.alternate_active {
            ScreenModel { alternate: g, ..self }
        } else {
            ScreenModel { primary: g, ..self }
        }
    }

    pub open spec fn in_state(self, state: State) -> ScreenModel {
        ScreenModel { state, ..self }
    }

    pub open spec fn resized(self, cols: nat, rows: nat) -> ScreenModel {
        ScreenModel {
            primary: self.primary.resized(cols, rows),
            alternate: self.alternate.resized(cols, rows),
            ..self
        }
    }

    pub open spec fn put(self, ch: char) -> ScreenModel {
        self.showing(self.grid().with_char(ch))
    }

    /// The screen after all of `bytes`.
    pub open spec fn fed(self, bytes: Seq<u8>) -> ScreenModel
        decreases bytes.len(),
    {
        if bytes.len() == 0 {
            self
        } else {
            self.fed(bytes.drop_last()).fed_byte(bytes.last())
        }
    }

    pub open spec fn fed_byte(self, byte: u8) -> ScreenModel {
        match self.state {
            State::Ground => self.ground(byte),
            State::Escape => self.escape(byte),
            State::EscapeIntermediate => self.in_state(State::Ground),
            State::Csi => self.csi(byte),
            State::StringBody => self.in_state(
                if byte == 0x07 {
                    State::Ground
                } else if byte == 0x1b {
                    State::StringEscape
                } else {
                    State::StringBody
                },
            ),
            State::StringEscape => self.in_state(
                if byte == 0x5c {
                    State::Ground
                } else if byte == 0x1b {
                    State::StringEscape
                } else {
                    State::StringBody
                },
            ),
        }
    }

    /// A byte outside any sequence: it continues an unfinished character, or ends it unfinished.
    pub open spec fn ground(self, byte: u8) -> ScreenModel {
        if self.utf8.len() > 0 {
            if 0x80 <= byte < 0xc0 {
                let bytes = self.utf8.push(byte);
                if bytes.len() >= encoded_length(bytes[0]) {
                    ScreenModel { utf8: Seq::empty(), ..self }.put(decoded(bytes))
                } else {
                    ScreenModel { utf8: bytes, ..self }
                }
            } else {
                ScreenModel { utf8: Seq::empty(), ..self }.put(REPLACEMENT).plain(byte)
            }
        } else {
            self.plain(byte)
        }
    }

    /// A byte that stands for itself.
    pub open spec fn plain(self, byte: u8) -> ScreenModel {
        let g = self.grid();
        if byte == 0x1b {
            self.in_state(State::Escape)
        } else if byte == 0x0a || byte == 0x0b || byte == 0x0c {
            self.showing(g.fed_line())
        } else if byte == 0x0d {
            self.showing(g.carriage_returned())
        } else if byte == 0x08 {
            self.showing(g.moved_to(g.row, if g.col > 0 { g.col - 1 } else { 0 }))
        } else if byte == 0x09 {
            self.showing(g.moved_to(g.row, (g.col / 8 + 1) * 8))
        } else if byte <= 0x1f || byte == 0x7f {
            self
        } else if byte >= 0x80 {
            if encoded_length(byte) > 1 {
                ScreenModel { utf8: self.utf8.push(byte), ..self }
            } else {
                self.put(REPLACEMENT)
            }
        } else {
            self.put(byte as char)
        }
    }

    /// The byte after an escape.
    pub open spec fn escape(self, byte: u8) -> ScreenModel {
        let s = self.in_state(State::Ground);
        let g = s.grid();
        if byte == 0x5b {  // [
            ScreenModel { state: State::Csi, params: Seq::empty(), private: false, ..s }
        } else if byte == 0x5d || byte == 0x50 || byte == 0x5f || byte == 0x5e || byte == 0x58 {
            s.in_state(State::StringBody)
        } else if byte == 0x28 || byte == 0x29 || byte == 0x2a || byte == 0x2b || byte == 0x23
            || byte == 0x25 {
            s.in_state(State::EscapeIntermediate)
        } else if byte == 0x37 {  // 7
            s.showing(g.saved())
        } else if byte == 0x38 {  // 8
            s.showing(g.restored())
        } else if byte == 0x44 {  // D
            s.showing(g.fed_line())
        } else if byte == 0x45 {  // E
            s.showing((GridModel { col: 0, ..g }).fed_line())
        } else if byte == 0x4d {  // M
            s.showing(g.reverse_indexed())
        } else if byte == 0x63 {  // c
            ScreenModel::blank(g.cols, g.rows)
        } else {
            s
        }
    }

    /// A byte of a control sequence.
    pub open spec fn csi(self, byte: u8) -> ScreenModel {
        if 0x30 <= byte <= 0x39 || byte == 0x3b || byte == 0x3a {
            ScreenModel { params: self.params.push(byte as char), ..self }
        } else if 0x3c <= byte <= 0x3f {
            ScreenModel { private: true, ..self }
        } else if 0x20 <= byte <= 0x2f {
            self
        } else if 0x40 <= byte <= 0x7e {
            self.in_state(State::Ground).controlled(byte)
        } else {
            self.in_state(State::Ground)
        }
    }

    /// The final byte of a control sequence.
    #[verifier::opaque]
    pub open spec fn controlled(self, byte: u8) -> ScreenModel {
        let ps = params_of(self.params);
        if self.private {
            if byte == 0x68 || byte == 0x6c {
                self.modes_set(ps, byte == 0x68)
            } else {
                self
            }
        } else {
            self.showing(csi_effect(self.grid(), ps[0], second_of(ps), byte))
        }
    }

    /// The screen after all of these modes have been set or reset, in order.
    pub open spec fn modes_set(self, modes: Seq<nat>, enable: bool) -> ScreenModel
        decreases modes.len(),
    {
        if modes.len() == 0 {
            self
        } else {
            self.modes_set(modes.drop_last(), enable).mode_set(modes.last(), enable)
        }
    }

    /// Setting an alternate-screen mode shows a blank alternate grid; resetting it goes back to
    /// the primary one. Mode 1049 also saves and restores the cursor.
    pub open spec fn mode_set(self, mode: nat, enable: bool) -> ScreenModel {
        if !alternate_mode(mode) {
            self
        } else if enable && !self.alternate_active {
            ScreenModel {
                primary: if mode == 1049 {
                    self.primary.saved()
                } else {
                    self.primary
                },
                alternate: GridModel::blank(self.primary.cols, self.primary.rows),
                alternate_active: true,
                ..self
            }
        } else if !enable && self.alternate_active {
            ScreenModel {
                primary: if mode == 1049 {
                    self.primary.restored()
                } else {
                    self.primary
                },
                alternate_active: false,
                ..self
            }
        } else {
            self
        }
    }
}

#[derive(Debug, Clone)]
pub struct Screen {
    pub primary: Grid,
    pub alternate: Grid,
    pub alternate_active: bool,
    pub state: State,
    pub params: String,
    pub private: bool,
    pub utf8: Vec<u8>,
}

impl View for Screen {
    type V = ScreenModel;

    open spec fn view(&self) -> ScreenModel {
        ScreenModel {
            primary: self.primary@,
            alternate: self.alternate@,
            alternate_active: self.alternate_active,
            state: self.state,
            params: self.params@,
            private: self.private,
            utf8: self.utf8@,
        }
    }
}

pub fn utf8_length(lead: u8) -> (r: usize)
    ensures
        r == encoded_length(lead),
{
    if 0xc0 <= lead && lead <= 0xdf {
        2
    } else if 0xe0 <= lead && lead <= 0xef {
        3
    } else if 0xf0 <= lead && lead <= 0xf7 {
        4
    } else {
        1
    }
}

/// The character that the bytes encode, or the replacement character.
fn decode(bytes: &Vec<u8>) -> (r: char)
    ensures
        r == decoded(bytes@),
{
    if bytes.len() == 0 {
        return REPLACEMENT;
    }
    match utf8_text(bytes.as_slice()) {
        Some(t) => {
            let chars: Vec<char> = text::chars_of(t);
            assert(chars@ == vstd::utf8::decode_utf8(bytes@));
            assert(chars@.len() > 0);
            chars[0]
        },
        None => REPLACEMENT,
    }
}

/// The parameters of a control sequence.
fn parse_params(s: &String) -> (r: Vec<usize>)
    ensures
        r@.len() == params_of(s@).len(),
        r@.len() >= 1,
        forall|i: int| 0 <= i < r@.len() ==> r@[i] as nat == #[trigger] params_of(s@)[i],
{
    let fields: Vec<String> = text::fields_of(s.as_str(), ';');
    let mut out: Vec<usize> = Vec::new();
    let mut i: usize = 0;
    while i < fields.len()
        invariant
            i <= fields@.len(),
            text::texts(fields@) == text::fields(s@, ';'),
            out@.len() == i,
            forall|k: int| 0 <= k < i ==> out@[k] as nat == #[trigger] params_of(s@)[k],
        decreases fields@.len() - i,
    {
        assert(text::texts(fields@)[i as int] == fields@[i as int]@);
        let parts: Vec<String> = text::fields_of(fields[i].as_str(), ':');
        assert(text::texts(parts@)[0] == parts@[0]@);
        let value: usize = match decimal::parse_usize(parts[0].as_str()) {
            Some(n) => n,
            None => 0,
        };
        assert(params_of(s@)[i as int] == param(fields@[i as int]@));
        out.push(value);
        i = i + 1;
    }
    out
}

/// `a` plus `b`, or the largest number where that is too large.
fn plus(a: usize, b: usize) -> (r: usize)
    ensures
        r == grid::least(a + b, usize::MAX as int),
{
    if b <= usize::MAX - a {
        a + b
    } else {
        usize::MAX
    }
}

/// `a` less `b`, or zero.
fn less(a: usize, b: usize) -> (r: usize)
    ensures
        r == (if a >= b {
            a - b
        } else {
            0
        }),
{
    if a >= b {
        a - b
    } else {
        0
    }
}

/// Carries out a control sequence on the grid.
fn control(g: &mut Grid, byte: u8, first: usize, second: usize)
    requires
        old(g)@.wf(),
    ensures
        final(g)@ == csi_effect(old(g)@, first as nat, second as nat, byte),
        final(g)@.wf(),
{
    let one: usize = if first == 0 {
        1
    } else {
        first
    };
    proof {
        reveal(csi_effect);
    }
    let row: usize = g.row;
    let col: usize = g.col;
    if byte == 0x41 {
        g.move_to(less(row, one), col);
    } else if byte == 0x42 {
        g.move_to(plus(row, one), col);
    } else if byte == 0x43 {
        g.move_to(row, plus(col, one));
    } else if byte == 0x44 {
        g.move_to(row, less(col, one));
    } else if byte == 0x45 {
        g.move_to(plus(row, one), 0);
    } else if byte == 0x46 {
        g.move_to(less(row, one), 0);
    } else if byte == 0x47 || byte == 0x60 {
        g.move_to(row, one - 1);
    } else if byte == 0x64 {
        g.move_to(one - 1, col);
    } else if byte == 0x48 || byte == 0x66 {
        let column: usize = if second == 0 {
            1
        } else {
            second
        };
        g.move_to(one - 1, column - 1);
    } else if byte == 0x4a {
        g.erase_display(first);
    } else if byte == 0x4b {
        g.erase_line(first);
    } else if byte == 0x4c {
        g.insert_lines(one);
    } else if byte == 0x4d {
        g.delete_lines(one);
    } else if byte == 0x40 {
        g.insert_chars(one);
    } else if byte == 0x50 {
        g.delete_chars(one);
    } else if byte == 0x58 {
        g.erase_chars(one);
    } else if byte == 0x53 {
        g.scroll_up(one);
    } else if byte == 0x54 {
        g.scroll_down(one);
    } else if byte == 0x72 {
        let end: usize = if second > 0 && second < g.rows {
            second
        } else {
            g.rows
        };
        g.set_region(one - 1, less(end, 1));
    } else if byte == 0x73 {
        g.save();
    } else if byte == 0x75 {
        g.restore();
    }
}

impl Screen {
    pub fn new(cols: u16, rows: u16) -> (r: Screen)
        ensures
            r@ == ScreenModel::blank(cols as nat, rows as nat),
            r@.wf(),
    {
        Screen {
            primary: Grid::new(cols as usize, rows as usize),
            alternate: Grid::new(cols as usize, rows as usize),
            alternate_active: false,
            state: State::Ground,
            params: String::new(),
            private: false,
            utf8: Vec::new(),
        }
    }

    pub fn resize(&mut self, cols: u16, rows: u16)
        requires
            old(self)@.wf(),
        ensures
            final(self)@ == old(self)@.resized(cols as nat, rows as nat),
            final(self)@.wf(),
    {
        self.primary.resize(cols as usize, rows as usize);
        self.alternate.resize(cols as usize, rows as usize);
    }

    /// The columns and rows of the screen.
    pub fn size(&self) -> (r: (u16, u16))
        requires
            self@.wf(),
        ensures
            r.0 == self@.grid().cols,
            r.1 == self@.grid().rows,
    {
        let g: &Grid = self.grid();
        (g.cols as u16, g.rows as u16)
    }

    pub fn grid(&self) -> (r: &Grid)
        ensures
            r@ == self@.grid(),
    {
        if self.alternate_active {
            &self.alternate
        } else {
            &self.primary
        }
    }

    fn grid_mut(&mut self) -> (r: &mut Grid)
        ensures
            r@ == old(self)@.grid(),
            final(self)@ == old(self)@.showing(final(r)@),
    {
        if self.alternate_active {
            &mut self.alternate
        } else {
            &mut self.primary
        }
    }

    /// Replays the bytes.
    pub fn feed(&mut self, bytes: &[u8])
        requires
            old(self)@.wf(),
        ensures
            final(self)@ == old(self)@.fed(bytes@),
            final(self)@.wf(),
    {
        let ghost start = self@;
        let mut i: usize = 0;
        while i < bytes.len()
            invariant
                i <= bytes@.len(),
                self@.wf(),
                self@ == start.fed(bytes@.take(i as int)),
            decreases bytes@.len() - i,
        {
            self.feed_byte(bytes[i]);
            i = i + 1;
            assert(bytes@.take(i as int).drop_last() =~= bytes@.take(i - 1));
        }
        assert(bytes@.take(i as int) =~= bytes@);
    }

    fn feed_byte(&mut self, byte: u8)
        requires
            old(self)@.wf(),
        ensures
            final(self)@ == old(self)@.fed_byte(byte),
            final(self)@.wf(),
    {
        match self.state {
            State::Ground => self.ground(byte),
            State::Escape => self.escape(byte),
            State::EscapeIntermediate => {
                self.state = State::Ground;
            },
            State::Csi => self.csi(byte),
            State::StringBody => {
                if byte == 0x07 {
                    self.state = State::Ground;
                } else if byte == 0x1b {
                    self.state = State::StringEscape;
                }
            },
            State::StringEscape => {
                self.state = if byte == 0x5c {
                    State::Ground
                } else if byte == 0x1b {
                    State::StringEscape
                } else {
                    State::StringBody
                };
            },
        }
    }

    fn put(&mut self, ch: char)
        requires
            old(self)@.wf(),
        ensures
            final(self)@ == old(self)@.put(ch),
            final(self)@.wf(),
    {
        self.grid_mut().put(ch);
    }

    fn ground(&mut self, byte: u8)
        requires
            old(self)@.wf(),
        ensures
            final(self)@ == old(self)@.ground(byte),
            final(self)@.wf(),
    {
        if self.utf8.len() > 0 {
            if 0x80 <= byte && byte < 0xc0 {
                self.utf8.push(byte);
                let needed: usize = utf8_length(self.utf8[0]);
                if self.utf8.len() >= needed {
                    let ch: char = decode(&self.utf8);
                    self.utf8 = Vec::new();
                    assert(self.utf8@ =~= Seq::empty());
                    self.put(ch);
                }
                return;
            }
            self.utf8 = Vec::new();
            assert(self.utf8@ =~= Seq::empty());
            self.put(REPLACEMENT);
        }
        self.plain(byte);
    }

    fn plain(&mut self, byte: u8)
        requires
            old(self)@.wf(),
            old(self)@.utf8.len() == 0,
        ensures
            final(self)@ == old(self)@.plain(byte),
            final(self)@.wf(),
    {
        if byte == 0x1b {
            self.state = State::Escape;
        } else if byte == 0x0a || byte == 0x0b || byte == 0x0c {
            self.grid_mut().line_feed();
        } else if byte == 0x0d {
            let g: &mut Grid = self.grid_mut();
            g.col = 0;
            g.pending_wrap = false;
        } else if byte == 0x08 {
            let g: &mut Grid = self.grid_mut();
            let row: usize = g.row;
            let col: usize = if g.col > 0 {
                g.col - 1
            } else {
                0
            };
            g.move_to(row, col);
        } else if byte == 0x09 {
            let g: &mut Grid = self.grid_mut();
            let row: usize = g.row;
            let next: usize = (g.col / 8 + 1) * 8;
            g.move_to(row, next);
        } else if byte <= 0x1f || byte == 0x7f {
        } else if byte >= 0x80 {
            if utf8_length(byte) > 1 {
                self.utf8.push(byte);
            } else {
                self.put(REPLACEMENT);
            }
        } else {
            self.put(byte as char);
        }
    }

    fn escape(&mut self, byte: u8)
        requires
            old(self)@.wf(),
        ensures
            final(self)@ == old(self)@.escape(byte),
            final(self)@.wf(),
    {
        self.state = State::Ground;
        if byte == 0x5b {
            self.state = State::Csi;
            self.params = String::new();
            self.private = false;
        } else if byte == 0x5d || byte == 0x50 || byte == 0x5f || byte == 0x5e || byte == 0x58 {
            self.state = State::StringBody;
        } else if byte == 0x28 || byte == 0x29 || byte == 0x2a || byte == 0x2b || byte == 0x23
            || byte == 0x25 {
            self.state = State::EscapeIntermediate;
        } else if byte == 0x37 {
            self.grid_mut().save();
        } else if byte == 0x38 {
            self.grid_mut().restore();
        } else if byte == 0x44 {
            self.grid_mut().line_feed();
        } else if byte == 0x45 {
            let g: &mut Grid = self.grid_mut();
            g.col = 0;
            g.line_feed();
        } else if byte == 0x4d {
            self.grid_mut().reverse_index();
        } else if byte == 0x63 {
            let (cols, rows): (u16, u16) = self.size();
            *self = Screen::new(cols, rows);
        }
    }

    fn csi(&mut self, byte: u8)
        requires
            old(self)@.wf(),
        ensures
            final(self)@ == old(self)@.csi(byte),
            final(self)@.wf(),
    {
        if (0x30 <= byte && byte <= 0x39) || byte == 0x3b || byte == 0x3a {
            self.params.push(byte as char);
        } else if 0x3c <= byte && byte <= 0x3f {
            self.private = true;
        } else if 0x20 <= byte && byte <= 0x2f {
        } else if 0x40 <= byte && byte <= 0x7e {
            self.state = State::Ground;
            assert(self@ =~= old(self)@.in_state(State::Ground));
            self.control_sequence(byte);
        } else {
            self.state = State::Ground;
        }
    }

    fn control_sequence(&mut self, byte: u8)
        requires
            old(self)@.wf(),
        ensures
            final(self)@ == old(self)@.controlled(byte),
            final(self)@.wf(),
    {
        proof {
            reveal(ScreenModel::controlled);
        }
        let params: Vec<usize> = parse_params(&self.params);
        if self.private {
            self.private_mode(byte, &params);
        } else {
            let first: usize = params[0];
            let second: usize = if params.len() > 1 {
                params[1]
            } else {
                0
            };
            assert(params_of(self@.params)[0] == first as nat);
            assert(params@.len() > 1 ==> params_of(self@.params)[1] == second as nat);
            proof {
                lemma_control_sound(self@.grid(), first as nat, second as nat, byte);
            }
            control(self.grid_mut(), byte, first, second);
        }
    }

    fn private_mode(&mut self, byte: u8, params: &Vec<usize>)
        requires
            old(self)@.wf(),
            params@.len() == params_of(old(self)@.params).len(),
            forall|i: int|
                0 <= i < params@.len() ==> params@[i] as nat == #[trigger] params_of(
                    old(self)@.params,
                )[i],
        ensures
            final(self)@ == (if byte == 0x68 || byte == 0x6c {
                old(self)@.modes_set(params_of(old(self)@.params), byte == 0x68)
            } else {
                old(self)@
            }),
            final(self)@.wf(),
    {
        if byte != 0x68 && byte != 0x6c {
            return;
        }
        let enable: bool = byte == 0x68;
        let ghost start = self@;
        let ghost ps = params_of(start.params);
        let mut i: usize = 0;
        while i < params.len()
            invariant
                i <= params@.len(),
                ps.len() == params@.len(),
                forall|k: int| 0 <= k < params@.len() ==> params@[k] as nat == #[trigger] ps[k],
                self@ == start.modes_set(ps.take(i as int), enable),
                self@.wf(),
            decreases params@.len() - i,
        {
            self.set_mode(params[i], enable);
            i = i + 1;
            assert(ps.take(i as int).drop_last() =~= ps.take(i - 1));
            assert(ps.take(i as int).last() == ps[i - 1]);
        }
        assert(ps.take(i as int) =~= ps);
    }

    fn set_mode(&mut self, mode: usize, enable: bool)
        requires
            old(self)@.wf(),
        ensures
            final(self)@ == old(self)@.mode_set(mode as nat, enable),
            final(self)@.wf(),
    {
        if mode == 47 || mode == 1047 || mode == 1049 {
            if enable && !self.alternate_active {
                if mode == 1049 {
                    self.primary.save();
                }
                let cols: usize = self.primary.cols;
                let rows: usize = self.primary.rows;
                self.alternate = Grid::new(cols, rows);
                self.alternate_active = true;
            } else if !enable && self.alternate_active {
                self.alternate_active = false;
                if mode == 1049 {
                    self.primary.restore();
                }
            }
        }
    }

    /// Visible rows with trailing whitespace trimmed.
    pub fn rows(&self) -> (r: Vec<String>)
        requires
            self@.wf(),
        ensures
            text::texts(r@) == trimmed_rows(self@.grid()),
    {
        let g: &Grid = self.grid();
        let mut out: Vec<String> = Vec::new();
        let mut i: usize = 0;
        while i < g.cells.len()
            invariant
                i <= g.cells@.len(),
                g@ == self@.grid(),
                text::texts(out@) =~= trimmed_rows(self@.grid()).take(i as int),
            decreases g.cells@.len() - i,
        {
            let line: &Vec<char> = &g.cells[i];
            assert(g@.cells[i as int] == line@);
            assert(line@.subrange(0, line@.len() as int) =~= line@);
            let ghost before = text::texts(out@);
            out.push(text::trimmed_range(line, 0, line.len()));
            assert(text::texts(out@) =~= before.push(text::trim_end(line@)));
            i = i + 1;
        }
        out
    }

    /// The untrimmed text of one visible row, or an empty string outside the grid.
    pub fn row_text(&self, row: usize) -> (r: String)
        requires
            self@.wf(),
        ensures
            r@ == (if row < self@.grid().rows {
                self@.grid().cells[row as int]
            } else {
                Seq::empty()
            }),
    {
        let g: &Grid = self.grid();
        if row < g.rows {
            assert(g@.cells[row as int] == g.cells@[row as int]@);
            text::text_of(&g.cells[row])
        } else {
            String::new()
        }
    }

    /// Positions (row, column) where `text` starts on the visible screen.
    pub fn find(&self, text: &str) -> (r: Vec<(usize, usize)>)
        requires
            self@.wf(),
        ensures
            places(r@) == found(self@.grid().cells, text@),
    {
        let needle: Vec<char> = text::chars_of(text);
        let mut out: Vec<(usize, usize)> = Vec::new();
        if needle.len() == 0 {
            assert(places(out@) =~= Seq::empty());
            return out;
        }
        let g: &Grid = self.grid();
        let ghost cells = g@.cells;
        let mut row: usize = 0;
        assert(places(out@) =~= found_in(cells, needle@, 0));
        while row < g.cells.len()
            invariant
                row <= g.cells@.len(),
                g@.cells == cells,
                places(out@) == found_in(cells, needle@, row as nat),
            decreases g.cells@.len() - row,
        {
            let line: &Vec<char> = &g.cells[row];
            assert(cells[row as int] == line@);
            let ghost above = places(out@);
            let mut col: usize = 0;
            assert(above + line_found(line@, needle@, row as int, 0) =~= above);
            while col < line.len()
                invariant
                    col <= line@.len(),
                    places(out@) == above + line_found(line@, needle@, row as int, col as nat),
                decreases line@.len() - col,
            {
                let ghost before = places(out@);
                if text::is_at(line, &needle, col) {
                    out.push((row, col));
                    assert(places(out@) =~= before.push((row as int, col as int)));
                }
                col = col + 1;
                assert(places(out@) =~= above + line_found(
                    line@,
                    needle@,
                    row as int,
                    col as nat,
                ));
            }
            row = row + 1;
        }
        out
    }

    /// The number of places where `text` starts on the visible screen.
    pub fn count(&self, text: &str) -> (r: usize)
        requires
            self@.wf(),
        ensures
            r == found(self@.grid().cells, text@).len(),
    {
        let all: Vec<(usize, usize)> = self.find(text);
        assert(places(all@).len() == all@.len());
        all.len()
    }

    /// Text in `row` starting at `col` for `width` cells, trimmed at the end.
    pub fn slice(&self, row: usize, col: usize, width: usize) -> (r: String)
        requires
            self@.wf(),
        ensures
            r@ == sliced(self@.grid(), row as int, col as int, width as int),
    {
        let g: &Grid = self.grid();
        if row >= g.rows {
            return String::new();
        }
        assert(g@.cells[row as int] == g.cells@[row as int]@);
        let line: &Vec<char> = &g.cells[row];
        let sum: usize = plus(col, width);
        let end: usize = if sum < line.len() {
            sum
        } else {
            line.len()
        };
        if col >= end {
            return String::new();
        }
        text::trimmed_range(line, col, end)
    }

    /// A compact dump for error messages: non-empty rows only.
    pub fn dump(&self) -> (r: String)
        requires
            self@.wf(),
        ensures
            r@ == dumped(self@.grid()),
    {
        let rows: Vec<String> = self.rows();
        let ghost views = trimmed_rows(self@.grid());
        assert(rows@.len() == text::texts(rows@).len());
        let mut out: Vec<String> = Vec::new();
        let mut i: usize = 0;
        assert(text::texts(out@) =~= numbered(views, 0));
        while i < rows.len()
            invariant
                i <= rows@.len(),
                text::texts(rows@) == views,
                text::texts(out@) == numbered(views, i as nat),
            decreases rows@.len() - i,
        {
            assert(text::texts(rows@)[i as int] == rows@[i as int]@);
            if !rows[i].as_str().is_empty() {
                let ghost before = text::texts(out@);
                let mut line: String = decimal::decimal_padded(i as u64, 3, ' ');
                line.append("| ");
                line.append(rows[i].as_str());
                out.push(line);
                assert(text::texts(out@) =~= before.push(numbered_line(views[i as int], i as nat)));
            }
            i = i + 1;
        }
        text::joined(&out, "\n")
    }
}

// ---------------------------------------------------------------------------------------------
// What is visible
// ---------------------------------------------------------------------------------------------

/// The lines of the grid without trailing white space.
pub open spec fn trimmed_rows(g: GridModel) -> Seq<Seq<char>> {
    g.cells.map_values(|line: Seq<char>| text::trim_end(line))
}

/// Positions as numbers.
pub open spec fn places(list: Seq<(usize, usize)>) -> Seq<(int, int)> {
    list.map_values(|p: (usize, usize)| (p.0 as int, p.1 as int))
}

/// The places below column `upto` of one line where `needle` starts, from left to right.
pub open spec fn line_found(line: Seq<char>, needle: Seq<char>, row: int, upto: nat) -> Seq<
    (int, int),
>
    decreases upto,
{
    if upto == 0 {
        Seq::empty()
    } else {
        let left = line_found(line, needle, row, (upto - 1) as nat);
        if text::at(line, needle, upto - 1) {
            left.push((row, upto - 1))
        } else {
            left
        }
    }
}

/// The places in the first `upto` lines where `needle` starts, in reading order.
pub open spec fn found_in(cells: Seq<Seq<char>>, needle: Seq<char>, upto: nat) -> Seq<(int, int)>
    decreases upto,
{
    if upto == 0 {
        Seq::empty()
    } else {
        found_in(cells, needle, (upto - 1) as nat) + line_found(
            cells[upto - 1],
            needle,
            upto - 1,
            cells[upto - 1].len(),
        )
    }
}

/// The places where `needle` starts, in reading order. The empty text is nowhere.
pub open spec fn found(cells: Seq<Seq<char>>, needle: Seq<char>) -> Seq<(int, int)> {
    if needle.len() == 0 {
        Seq::empty()
    } else {
        found_in(cells, needle, cells.len())
    }
}

/// The cells `col..col + width` of the row, as far as there are any, without trailing white
/// space.
pub open spec fn sliced(g: GridModel, row: int, col: int, width: int) -> Seq<char> {
    if row < g.rows && col < grid::least(col + width, g.cols as int) {
        text::trim_end(g.cells[row].subrange(col, grid::least(col + width, g.cols as int)))
    } else {
        Seq::empty()
    }
}

/// A row with its number in front.
pub open spec fn numbered_line(line: Seq<char>, i: nat) -> Seq<char> {
    text::pad_left(decimal::decimal(i), 3, ' ') + "| "@ + line
}

/// The rows below `upto` that are not empty, each with its number.
pub open spec fn numbered(rows: Seq<Seq<char>>, upto: nat) -> Seq<Seq<char>>
    decreases upto,
{
    if upto == 0 {
        Seq::empty()
    } else {
        let above = numbered(rows, (upto - 1) as nat);
        if rows[upto - 1].len() > 0 {
            above.push(numbered_line(rows[upto - 1], (upto - 1) as nat))
        } else {
            above
        }
    }
}

/// The rows that are not empty, each with its number, one to a line.
pub open spec fn dumped(g: GridModel) -> Seq<char> {
    text::join(numbered(trimmed_rows(g), g.cells.len()), "\n"@)
}

// ---------------------------------------------------------------------------------------------
// Laws
// ---------------------------------------------------------------------------------------------

/// How the stream is cut into reads does not matter: two feeds do what one feed of both does.
pub proof fn law_feed_in_chunks(s: ScreenModel, first: Seq<u8>, second: Seq<u8>)
    ensures
        s.fed(first + second) == s.fed(first).fed(second),
    decreases second.len(),
{
    if second.len() == 0 {
        assert(first + second =~= first);
    } else {
        law_feed_in_chunks(s, first, second.drop_last());
        assert((first + second).drop_last() =~= first + second.drop_last());
    }
}

/// Every byte keeps the screen sound: the cursor stays on the grid, the scroll region in it and
/// both grids at the size they had.
pub proof fn law_bytes_keep_the_screen_sound(s: ScreenModel, byte: u8)
    requires
        s.wf(),
    ensures
        s.fed_byte(byte).wf(),
        s.fed_byte(byte).grid().cols == s.grid().cols,
        s.fed_byte(byte).grid().rows == s.grid().rows,
{
    if s.state == State::Csi {
        lemma_controlled_sound(s.in_state(State::Ground), byte);
    } else if s.state == State::Escape {
        lemma_escape_sound(s, byte);
    } else if s.state == State::Ground {
        lemma_ground_sound(s, byte);
    }
}

proof fn lemma_controlled_sound(s: ScreenModel, byte: u8)
    requires
        s.wf(),
    ensures
        s.controlled(byte).wf(),
        s.controlled(byte).grid().cols == s.grid().cols,
        s.controlled(byte).grid().rows == s.grid().rows,
{
    reveal(ScreenModel::controlled);
    let ps = params_of(s.params);
    lemma_modes_keep(s, ps, byte == 0x68);
    lemma_control_sound(s.grid(), ps[0], second_of(ps), byte);
}

/// The grid is sound and has the size of `g`.
spec fn sound_as(h: GridModel, g: GridModel) -> bool {
    h.wf() && h.cols == g.cols && h.rows == g.rows
}

proof fn lemma_lines_sound(g: GridModel)
    requires
        g.wf(),
    ensures
        sound_as(g.fed_line(), g),
        sound_as((GridModel { col: 0, ..g }).fed_line(), g),
        sound_as(g.reverse_indexed(), g),
        sound_as(g.restored(), g),
        sound_as(g.saved(), g),
{
}

proof fn lemma_char_sound(g: GridModel, ch: char)
    requires
        g.wf(),
    ensures
        sound_as(g.with_char(ch), g),
{
    lemma_lines_sound(g);
    if g.cols > 0 && g.rows > 0 {
        assert(sound_as(g.unwrapped(), g));
    }
}

proof fn lemma_escape_sound(s: ScreenModel, byte: u8)
    requires
        s.wf(),
    ensures
        s.escape(byte).wf(),
        s.escape(byte).grid().cols == s.grid().cols,
        s.escape(byte).grid().rows == s.grid().rows,
{
    lemma_lines_sound(s.grid());
}

proof fn lemma_plain_sound(s: ScreenModel, byte: u8)
    requires
        s.wf(),
        s.utf8.len() == 0,
    ensures
        s.plain(byte).wf(),
        s.plain(byte).grid().cols == s.grid().cols,
        s.plain(byte).grid().rows == s.grid().rows,
{
    lemma_lines_sound(s.grid());
    lemma_char_sound(s.grid(), REPLACEMENT);
    lemma_char_sound(s.grid(), byte as char);
}

proof fn lemma_ground_sound(s: ScreenModel, byte: u8)
    requires
        s.wf(),
    ensures
        s.ground(byte).wf(),
        s.ground(byte).grid().cols == s.grid().cols,
        s.ground(byte).grid().rows == s.grid().rows,
{
    lemma_char_sound(s.grid(), REPLACEMENT);
    if s.utf8.len() > 0 {
        lemma_char_sound(s.grid(), decoded(s.utf8.push(byte)));
        let ended = ScreenModel { utf8: Seq::empty(), ..s }.put(REPLACEMENT);
        assert(ended.wf());
        lemma_plain_sound(ended, byte);
    } else {
        lemma_plain_sound(s, byte);
    }
}

proof fn lemma_erased_sound(g: GridModel, mode: nat)
    requires
        g.wf(),
    ensures
        sound_as(g.line_erased(mode), g),
        sound_as(g.display_erased(mode), g),
{
    assert(sound_as(g.line_erased(mode), g));
    assert(g.line_erased(mode).row == g.row);
}

proof fn lemma_moved_lines_sound(g: GridModel, count: int)
    requires
        g.wf(),
        count > 0,
    ensures
        sound_as(g.lines_inserted(count), g),
        sound_as(g.lines_deleted(count), g),
        sound_as(g.scrolled_up(count), g),
        sound_as(g.scrolled_down(count), g),
{
}

proof fn lemma_moved_chars_sound(g: GridModel, count: int)
    requires
        g.wf(),
        count > 0,
    ensures
        sound_as(g.chars_inserted(count), g),
        sound_as(g.chars_deleted(count), g),
        sound_as(g.chars_erased(count), g),
{
}

proof fn lemma_region_sound(g: GridModel, top: int, bottom: int)
    requires
        g.wf(),
        top >= 0,
        bottom <= grid::last_index(g.rows),
    ensures
        sound_as(g.with_region(top, bottom), g),
{
}

proof fn lemma_control_sound(g: GridModel, first: nat, second: nat, byte: u8)
    requires
        g.wf(),
    ensures
        sound_as(csi_effect(g, first, second, byte), g),
{
    reveal(csi_effect);
    let one = at_least_one(first) as int;
    if byte == 0x4a || byte == 0x4b {
        lemma_erased_sound(g, first);
    } else if byte == 0x4c || byte == 0x4d || byte == 0x53 || byte == 0x54 {
        lemma_moved_lines_sound(g, one);
    } else if byte == 0x40 || byte == 0x50 || byte == 0x58 {
        lemma_moved_chars_sound(g, one);
    } else if byte == 0x72 {
        lemma_region_sound(
            g,
            one - 1,
            grid::last_index(
                if second > 0 && second < g.rows {
                    second
                } else {
                    g.rows
                },
            ),
        );
    } else if byte == 0x73 || byte == 0x75 {
        lemma_lines_sound(g);
    }
}

proof fn lemma_modes_keep(s: ScreenModel, modes: Seq<nat>, enable: bool)
    requires
        s.wf(),
    ensures
        s.modes_set(modes, enable).wf(),
        s.modes_set(modes, enable).grid().cols == s.grid().cols,
        s.modes_set(modes, enable).grid().rows == s.grid().rows,
    decreases modes.len(),
{
    if modes.len() > 0 {
        lemma_modes_keep(s, modes.drop_last(), enable);
    }
}

/// A grid is never changed behind the other one: while the alternate screen stays shown, no byte
/// touches the primary grid.
pub proof fn law_alternate_screen_leaves_the_primary_alone(s: ScreenModel, byte: u8)
    requires
        s.alternate_active,
        s.fed_byte(byte).alternate_active,
    ensures
        s.fed_byte(byte).primary == s.primary,
{
    reveal(ScreenModel::controlled);
    lemma_modes_while_alternate(s.in_state(State::Ground), params_of(s.params), byte == 0x68);
}

proof fn lemma_modes_while_alternate(s: ScreenModel, modes: Seq<nat>, enable: bool)
    requires
        s.alternate_active,
    ensures
        enable ==> s.modes_set(modes, enable) == s,
        !enable && s.modes_set(modes, enable).alternate_active ==> s.modes_set(modes, enable) == s,
    decreases modes.len(),
{
    if modes.len() > 0 {
        lemma_modes_while_alternate(s, modes.drop_last(), enable);
    }
}

/// Showing the alternate screen and leaving it again brings the primary screen back: its text
/// and its cursor, whatever happened on the alternate grid meanwhile.
pub proof fn law_leaving_the_alternate_screen_restores_the_primary(
    s: ScreenModel,
    mode: nat,
    alternate: GridModel,
)
    requires
        s.wf(),
        !s.alternate_active,
        alternate_mode(mode),
    ensures
        ({
            let entered = s.mode_set(mode, true);
            let left = (ScreenModel { alternate, ..entered }).mode_set(mode, false);
            &&& entered.grid() == GridModel::blank(s.primary.cols, s.primary.rows)
            &&& left.grid().cells == s.grid().cells
            &&& left.grid().row == s.grid().row
            &&& left.grid().col == s.grid().col
        }),
{
}

/// The bytes that set or reset a private mode.
pub open spec fn mode_sequence(mode: nat, enable: bool) -> Seq<u8> {
    let digits = decimal::decimal(mode).map_values(|c: char| c as u8);
    seq![0x1bu8, 0x5bu8, 0x3fu8] + digits + seq![if enable { 0x68u8 } else { 0x6cu8 }]
}

/// Whatever bytes arrive between showing the alternate screen and leaving it, the primary screen
/// comes back as it was, text and cursor: provided that nothing among them leaves the alternate
/// screen, and that they end outside any sequence and any unfinished character.
pub proof fn law_primary_screen_outlives_the_alternate_one(
    s: ScreenModel,
    mode: nat,
    bytes: Seq<u8>,
)
    requires
        s.wf(),
        s.state == State::Ground,
        s.utf8.len() == 0,
        !s.alternate_active,
        alternate_mode(mode),
        forall|n: int|
            0 <= n <= bytes.len() ==> s.fed(
                mode_sequence(mode, true) + #[trigger] bytes.take(n),
            ).alternate_active,
        s.fed(mode_sequence(mode, true) + bytes).state == State::Ground,
        s.fed(mode_sequence(mode, true) + bytes).utf8.len() == 0,
    ensures
        s.fed(mode_sequence(mode, true)).grid() == GridModel::blank(s.grid().cols, s.grid().rows),
        ({
            let after = s.fed(mode_sequence(mode, true) + bytes + mode_sequence(mode, false));
            &&& !after.alternate_active
            &&& after.state == State::Ground
            &&& after.utf8.len() == 0
            &&& after.grid().cells == s.grid().cells
            &&& after.grid().row == s.grid().row
            &&& after.grid().col == s.grid().col
        }),
{
    let entered = s.fed(mode_sequence(mode, true));
    let during = s.fed(mode_sequence(mode, true) + bytes);
    lemma_mode_sequence(s, mode, true);
    law_feed_in_chunks(s, mode_sequence(mode, true), bytes);
    assert forall|n: int| 0 <= n <= bytes.len() implies entered.fed(
        #[trigger] bytes.take(n),
    ).alternate_active by {
        law_feed_in_chunks(s, mode_sequence(mode, true), bytes.take(n));
    }
    lemma_primary_kept(entered, bytes);
    law_feed_in_chunks(s, mode_sequence(mode, true) + bytes, mode_sequence(mode, false));
    assert(bytes.take(bytes.len() as int) =~= bytes);
    lemma_mode_sequence(during, mode, false);
    law_leaving_the_alternate_screen_restores_the_primary(s, mode, during.alternate);
}

proof fn lemma_primary_kept(s: ScreenModel, bytes: Seq<u8>)
    requires
        forall|n: int|
            0 <= n <= bytes.len() ==> s.fed(#[trigger] bytes.take(n)).alternate_active,
    ensures
        s.fed(bytes).primary == s.primary,
    decreases bytes.len(),
{
    assert(bytes.take(bytes.len() as int) =~= bytes);
    if bytes.len() > 0 {
        let front = bytes.drop_last();
        assert(bytes.take(bytes.len() - 1) =~= front);
        assert forall|n: int| 0 <= n <= front.len() implies s.fed(
            #[trigger] front.take(n),
        ).alternate_active by {
            assert(bytes.take(n) =~= front.take(n));
        }
        lemma_primary_kept(s, front);
        assert(s.fed(bytes).alternate_active);
        law_alternate_screen_leaves_the_primary_alone(s.fed(front), bytes.last());
    }
}

/// The bytes of a private mode set or reset it, and leave nothing unfinished.
pub proof fn lemma_mode_sequence(s: ScreenModel, mode: nat, enable: bool)
    requires
        s.state == State::Ground,
        s.utf8.len() == 0,
        mode <= usize::MAX,
    ensures
        s.fed(mode_sequence(mode, enable)) == (ScreenModel {
            params: decimal::decimal(mode),
            private: true,
            ..s
        }).mode_set(mode, enable),
{
    let digits = decimal::decimal(mode);
    let last = if enable { 0x68u8 } else { 0x6cu8 };
    let opened = seq![0x1bu8, 0x5bu8, 0x3fu8] + digits.map_values(|c: char| c as u8);
    decimal::lemma_decimal(mode);
    lemma_private_params(s, digits);
    assert(mode_sequence(mode, enable).drop_last() =~= opened);
    assert(mode_sequence(mode, enable).last() == last);
    let read = ScreenModel { params: digits, private: true, ..s };
    assert(s.fed(opened) == read.in_state(State::Csi));
    assert(read.in_state(State::Csi).in_state(State::Ground) == read);
    reveal(ScreenModel::controlled);
    lemma_single_param(digits, mode);
    assert(read.modes_set(seq![mode], enable) == read.mode_set(mode, enable)) by {
        assert(seq![mode].drop_last() =~= Seq::<nat>::empty());
        assert(read.modes_set(Seq::<nat>::empty(), enable) == read);
        assert(seq![mode].last() == mode);
    }
}

pub proof fn lemma_single_param(digits: Seq<char>, n: nat)
    requires
        text::all_digits(digits),
        decimal::numeral(digits) == Some(n),
        n <= usize::MAX,
    ensures
        params_of(digits) == seq![n],
{
    lemma_one_field(digits, ';');
    lemma_one_field(digits, ':');
    assert(params_of(digits) =~= seq![n]);
}

pub proof fn lemma_one_field(s: Seq<char>, sep: char)
    requires
        text::all_digits(s),
        !text::digit(sep),
    ensures
        text::fields(s, sep) == seq![s],
{
    text::lemma_run_len_is(s, text::other_than(sep), s.len());
}

proof fn lemma_private_params(s: ScreenModel, digits: Seq<char>)
    requires
        s.state == State::Ground,
        s.utf8.len() == 0,
        text::all_digits(digits),
    ensures
        s.fed(
            seq![0x1bu8, 0x5bu8, 0x3fu8] + digits.map_values(|c: char| c as u8),
        ) == (ScreenModel { state: State::Csi, params: digits, private: true, ..s }),
    decreases digits.len(),
{
    let start = seq![0x1bu8, 0x5bu8, 0x3fu8];
    let opened = start + digits.map_values(|c: char| c as u8);
    if digits.len() == 0 {
        lemma_two_bytes(s, 0x1b, 0x5b);
        assert(opened =~= start);
        assert(start.drop_last() =~= seq![0x1bu8, 0x5bu8]);
        assert(digits =~= Seq::empty());
    } else {
        let front = digits.drop_last();
        let c = digits.last();
        assert(text::digit(digits[digits.len() - 1]));
        lemma_private_params(s, front);
        assert(opened.drop_last() =~= start + front.map_values(|c: char| c as u8));
        assert(opened.last() == c as u8);
        assert((c as u8) as char == c);
        assert(front.push(c) =~= digits);
    }
}

pub proof fn lemma_two_bytes(s: ScreenModel, a: u8, b: u8)
    ensures
        s.fed(seq![a, b]) == s.fed_byte(a).fed_byte(b),
{
    assert(seq![a, b].drop_last() =~= seq![a]);
    assert(seq![a].drop_last() =~= Seq::<u8>::empty());
    assert(s.fed(Seq::empty()) == s);
    assert(s.fed(seq![a]) == s.fed_byte(a));
}

/// A reset gives the screen of the same size that nothing was written to.
pub proof fn law_reset_gives_a_blank_screen(s: ScreenModel)
    requires
        s.state == State::Ground,
        s.utf8.len() == 0,
    ensures
        s.fed(seq![0x1bu8, 0x63u8]) == ScreenModel::blank(s.grid().cols, s.grid().rows),
{
    lemma_two_bytes(s, 0x1b, 0x63);
}

/// Saving the cursor and restoring it puts it back where it was.
pub proof fn law_restoring_returns_to_the_saved_cursor(g: GridModel, row: int, col: int)
    requires
        g.wf(),
    ensures
        g.saved().moved_to(row, col).restored().row == g.row,
        g.saved().moved_to(row, col).restored().col == g.col,
{
}

/// A control string (OSC, DCS, APC, PM, SOS) up to its bell has no effect on the screen.
pub proof fn law_control_strings_have_no_effect(s: ScreenModel, kind: u8, body: Seq<u8>)
    requires
        s.state == State::Ground,
        s.utf8.len() == 0,
        kind == 0x5d || kind == 0x50 || kind == 0x5f || kind == 0x5e || kind == 0x58,
        forall|i: int| 0 <= i < body.len() ==> body[i] != 0x07 && body[i] != 0x1b,
    ensures
        s.fed(seq![0x1bu8, kind] + body + seq![0x07u8]) == s,
{
    let opened = seq![0x1bu8, kind] + body;
    lemma_string_body(s, kind, body);
    assert((opened + seq![0x07u8]).drop_last() =~= opened);
    lemma_string_end(s);
}

proof fn lemma_string_end(s: ScreenModel)
    requires
        s.state == State::Ground,
    ensures
        s.in_state(State::StringBody).fed_byte(0x07) == s,
{
}

proof fn lemma_string_byte(s: ScreenModel, byte: u8)
    requires
        s.state == State::StringBody,
        byte != 0x07,
        byte != 0x1b,
    ensures
        s.fed_byte(byte) == s,
{
}

proof fn lemma_string_opened(s: ScreenModel, kind: u8)
    requires
        s.state == State::Ground,
        s.utf8.len() == 0,
        kind == 0x5d || kind == 0x50 || kind == 0x5f || kind == 0x5e || kind == 0x58,
    ensures
        s.fed_byte(0x1b).fed_byte(kind) == s.in_state(State::StringBody),
{
    assert(s.fed_byte(0x1b) == s.in_state(State::Escape));
}

proof fn lemma_string_body(s: ScreenModel, kind: u8, body: Seq<u8>)
    requires
        s.state == State::Ground,
        s.utf8.len() == 0,
        kind == 0x5d || kind == 0x50 || kind == 0x5f || kind == 0x5e || kind == 0x58,
        forall|i: int| 0 <= i < body.len() ==> body[i] != 0x07 && body[i] != 0x1b,
    ensures
        s.fed(seq![0x1bu8, kind] + body) == s.in_state(State::StringBody),
    decreases body.len(),
{
    let opened = seq![0x1bu8, kind] + body;
    if body.len() == 0 {
        assert(opened =~= seq![0x1bu8, kind]);
        lemma_two_bytes(s, 0x1b, kind);
        lemma_string_opened(s, kind);
    } else {
        lemma_string_body(s, kind, body.drop_last());
        assert(opened.drop_last() =~= seq![0x1bu8, kind] + body.drop_last());
        assert(opened.last() == body.last());
        lemma_string_byte(s.in_state(State::StringBody), body.last());
    }
}

/// Whether the byte belongs to the parameters of a control sequence.
pub open spec fn param_byte(byte: u8) -> bool {
    0x30 <= byte <= 0x3b
}

/// Whether the final byte of a control sequence is one that has an effect.
pub open spec fn effective(byte: u8) -> bool {
    ||| 0x40 <= byte <= 0x48
    ||| 0x4a <= byte <= 0x4d
    ||| byte == 0x50
    ||| byte == 0x53
    ||| byte == 0x54
    ||| byte == 0x58
    ||| byte == 0x60
    ||| byte == 0x64
    ||| byte == 0x66
    ||| byte == 0x72
    ||| byte == 0x73
    ||| byte == 0x75
}

/// An unsupported control sequence, such as one that sets colors and attributes, is consumed
/// without effect on either grid.
pub proof fn law_unsupported_sequences_are_consumed(s: ScreenModel, params: Seq<u8>, last: u8)
    requires
        s.state == State::Ground,
        s.utf8.len() == 0,
        forall|i: int| 0 <= i < params.len() ==> param_byte(#[trigger] params[i]),
        0x40 <= last <= 0x7e,
        !effective(last),
    ensures
        ({
            let after = s.fed(seq![0x1bu8, 0x5bu8] + params + seq![last]);
            &&& after.primary == s.primary
            &&& after.alternate == s.alternate
            &&& after.alternate_active == s.alternate_active
            &&& after.state == State::Ground
        }),
{
    let opened = seq![0x1bu8, 0x5bu8] + params;
    lemma_params_collected(s, params);
    assert((opened + seq![last]).drop_last() =~= opened);
    reveal(ScreenModel::controlled);
    reveal(csi_effect);
}

proof fn lemma_params_collected(s: ScreenModel, params: Seq<u8>)
    requires
        s.state == State::Ground,
        s.utf8.len() == 0,
        forall|i: int| 0 <= i < params.len() ==> param_byte(#[trigger] params[i]),
    ensures
        ({
            let after = s.fed(seq![0x1bu8, 0x5bu8] + params);
            &&& after.primary == s.primary
            &&& after.alternate == s.alternate
            &&& after.alternate_active == s.alternate_active
            &&& after.state == State::Csi
            &&& !after.private
        }),
    decreases params.len(),
{
    let opened = seq![0x1bu8, 0x5bu8] + params;
    if params.len() == 0 {
        assert(opened =~= seq![0x1bu8, 0x5bu8]);
        lemma_two_bytes(s, 0x1b, 0x5b);
    } else {
        assert(param_byte(params[params.len() - 1]));
        lemma_params_collected(s, params.drop_last());
        assert(opened.drop_last() =~= seq![0x1bu8, 0x5bu8] + params.drop_last());
        assert(opened.last() == params.last());
    }
}

/// `a` comes before `b` in reading order.
pub open spec fn reads_before(a: (int, int), b: (int, int)) -> bool {
    a.0 < b.0 || a.0 == b.0 && a.1 < b.1
}

/// The places found are exactly those where the text stands, each once and in reading order.
pub proof fn law_found_is_exact(cells: Seq<Seq<char>>, needle: Seq<char>)
    requires
        needle.len() > 0,
    ensures
        forall|row: int, col: int| #[trigger]
            found(cells, needle).contains((row, col)) <==> 0 <= row < cells.len() && text::at(
                cells[row],
                needle,
                col,
            ),
        forall|i: int, j: int|
            0 <= i < j < found(cells, needle).len() ==> reads_before(
                #[trigger] found(cells, needle)[i],
                #[trigger] found(cells, needle)[j],
            ),
{
    lemma_found_in(cells, needle, cells.len());
}

/// Every place has room for the text on its row.
pub proof fn lemma_found_fits(g: GridModel, needle: Seq<char>, i: int)
    requires
        g.wf(),
        0 <= i < found(g.cells, needle).len(),
    ensures
        0 <= found(g.cells, needle)[i].0 < g.rows,
        0 <= found(g.cells, needle)[i].1,
        found(g.cells, needle)[i].1 + needle.len() <= g.cols,
{
    let list = found(g.cells, needle);
    let (row, col) = list[i];
    law_found_is_exact(g.cells, needle);
    assert(list.contains((row, col)));
    assert(text::at(g.cells[row], needle, col));
}

proof fn lemma_line_found(line: Seq<char>, needle: Seq<char>, row: int, upto: nat)
    ensures
        forall|p: (int, int)| #[trigger]
            line_found(line, needle, row, upto).contains(p) <==> p.0 == row && p.1 < upto
                && text::at(line, needle, p.1),
        forall|i: int, j: int|
            0 <= i < j < line_found(line, needle, row, upto).len() ==> reads_before(
                #[trigger] line_found(line, needle, row, upto)[i],
                #[trigger] line_found(line, needle, row, upto)[j],
            ),
    decreases upto,
{
    let all = line_found(line, needle, row, upto);
    if upto > 0 {
        let left = line_found(line, needle, row, (upto - 1) as nat);
        lemma_line_found(line, needle, row, (upto - 1) as nat);
        assert forall|i: int| 0 <= i < left.len() implies (#[trigger] left[i]).0 == row
            && left[i].1 < upto - 1 by {
            assert(left.contains(left[i]));
        }
        assert forall|p: (int, int)| #[trigger] all.contains(p) <==> p.0 == row && p.1 < upto
            && text::at(line, needle, p.1) by {
            if all.contains(p) {
                let i = choose|i: int| 0 <= i < all.len() && all[i] == p;
                if i < left.len() {
                    assert(left[i] == p);
                    assert(left.contains(p));
                }
            }
            if p.0 == row && p.1 < upto && text::at(line, needle, p.1) {
                if p.1 < upto - 1 {
                    assert(left.contains(p));
                    let i = choose|i: int| 0 <= i < left.len() && left[i] == p;
                    assert(all[i] == p);
                } else {
                    assert(all[all.len() - 1] == p);
                }
            }
        }
    }
}

proof fn lemma_found_in(cells: Seq<Seq<char>>, needle: Seq<char>, upto: nat)
    requires
        upto <= cells.len(),
        needle.len() > 0,
    ensures
        forall|p: (int, int)| #[trigger]
            found_in(cells, needle, upto).contains(p) <==> 0 <= p.0 < upto && text::at(
                cells[p.0],
                needle,
                p.1,
            ),
        forall|i: int, j: int|
            0 <= i < j < found_in(cells, needle, upto).len() ==> reads_before(
                #[trigger] found_in(cells, needle, upto)[i],
                #[trigger] found_in(cells, needle, upto)[j],
            ),
    decreases upto,
{
    let all = found_in(cells, needle, upto);
    if upto > 0 {
        let row = upto - 1;
        let above = found_in(cells, needle, (upto - 1) as nat);
        let here = line_found(cells[row], needle, row, cells[row].len());
        lemma_found_in(cells, needle, (upto - 1) as nat);
        lemma_line_found(cells[row], needle, row, cells[row].len());
        assert(all =~= above + here);
        assert forall|i: int| 0 <= i < above.len() implies (#[trigger] above[i]).0 < row by {
            assert(above.contains(above[i]));
        }
        assert forall|i: int| 0 <= i < here.len() implies (#[trigger] here[i]).0 == row by {
            assert(here.contains(here[i]));
        }
        assert forall|p: (int, int)| #[trigger] all.contains(p) <==> 0 <= p.0 < upto && text::at(
            cells[p.0],
            needle,
            p.1,
        ) by {
            if all.contains(p) {
                let i = choose|i: int| 0 <= i < all.len() && all[i] == p;
                if i < above.len() {
                    assert(above[i] == p);
                    assert(above.contains(p));
                } else {
                    assert(here[i - above.len()] == p);
                    assert(here.contains(p));
                }
            }
            if 0 <= p.0 < upto && text::at(cells[p.0], needle, p.1) {
                if p.0 < row {
                    assert(above.contains(p));
                    let i = choose|i: int| 0 <= i < above.len() && above[i] == p;
                    assert(all[i] == p);
                } else {
                    assert(here.contains(p));
                    let i = choose|i: int| 0 <= i < here.len() && here[i] == p;
                    assert(all[above.len() + i] == p);
                }
            }
        }
        assert forall|i: int, j: int| 0 <= i < j < all.len() implies reads_before(
            #[trigger] all[i],
            #[trigger] all[j],
        ) by {
            if j < above.len() {
                assert(all[i] == above[i] && all[j] == above[j]);
            } else if i >= above.len() {
                assert(all[i] == here[i - above.len()] && all[j] == here[j - above.len()]);
            } else {
                assert(all[i] == above[i] && all[j] == here[j - above.len()]);
            }
        }
    }
}

} // verus!
