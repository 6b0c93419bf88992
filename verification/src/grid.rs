//! The character grid of the screen model: cells, cursor and scroll region.

use vstd::prelude::*;

verus! {

/// One grid as values: `rows` lines of `cols` cells, the cursor, the scroll region (both ends
/// belong to it) and the saved cursor.
#[verifier::ext_equal]
pub struct GridModel {
    pub cols: nat,
    pub rows: nat,
    pub cells: Seq<Seq<char>>,
    pub row: int,
    pub col: int,
    pub pending_wrap: bool,
    pub scroll_top: int,
    pub scroll_bottom: int,
    pub saved_cursor: Option<(int, int)>,
}

/// The last index of a row or column range; zero where the range is empty.
pub open spec fn last_index(count: nat) -> int {
    if count == 0 {
        0
    } else {
        count - 1
    }
}

/// The smaller of two numbers.
pub open spec fn least(a: int, b: int) -> int {
    if a <= b {
        a
    } else {
        b
    }
}

/// A line of `cols` blanks.
pub open spec fn blank_line(cols: nat) -> Seq<char> {
    Seq::new(cols, |j: int| ' ')
}

/// `list` with the part `top..=bottom` moved `count` places towards the front; `fill` comes in
/// at the end of that part.
pub open spec fn moved_up<T>(list: Seq<T>, top: int, bottom: int, count: int, fill: T) -> Seq<T> {
    Seq::new(
        list.len(),
        |i: int|
            if top <= i <= bottom {
                if i + count <= bottom {
                    list[i + count]
                } else {
                    fill
                }
            } else {
                list[i]
            },
    )
}

/// `list` with the part `top..=bottom` moved `count` places towards the end; `fill` comes in at
/// the start of that part.
pub open spec fn moved_down<T>(list: Seq<T>, top: int, bottom: int, count: int, fill: T) -> Seq<T> {
    Seq::new(
        list.len(),
        |i: int|
            if top <= i <= bottom {
                if i - count >= top {
                    list[i - count]
                } else {
                    fill
                }
            } else {
                list[i]
            },
    )
}

/// `list` with `fill` in the places `from..to`.
pub open spec fn filled<T>(list: Seq<T>, from: int, to: int, fill: T) -> Seq<T> {
    Seq::new(
        list.len(),
        |i: int|
            if from <= i < to {
                fill
            } else {
                list[i]
            },
    )
}

impl GridModel {
    /// A blank grid with the cursor at home and the whole height as scroll region.
    pub open spec fn blank(cols: nat, rows: nat) -> GridModel {
        GridModel {
            cols,
            rows,
            cells: Seq::new(rows, |i: int| blank_line(cols)),
            row: 0,
            col: 0,
            pending_wrap: false,
            scroll_top: 0,
            scroll_bottom: last_index(rows),
            saved_cursor: None,
        }
    }

    /// The lines and cells are as many as the size says; the cursor stands on the grid and the
    /// scroll region lies in it.
    pub open spec fn wf(self) -> bool {
        &&& self.cells.len() == self.rows
        &&& forall|i: int| 0 <= i < self.rows ==> (#[trigger] self.cells[i]).len() == self.cols
        &&& 0 <= self.row <= last_index(self.rows)
        &&& 0 <= self.col <= last_index(self.cols)
        &&& 0 <= self.scroll_top <= self.scroll_bottom <= last_index(self.rows)
        &&& self.cols <= u16::MAX
        &&& self.rows <= u16::MAX
        &&& self.saved_cursor matches Some(at) ==> 0 <= at.0 <= u16::MAX && 0 <= at.1 <= u16::MAX
    }

    /// The same corner of the grid at another size; new cells are blank.
    pub open spec fn resized(self, cols: nat, rows: nat) -> GridModel {
        GridModel {
            cols,
            rows,
            cells: Seq::new(
                rows,
                |i: int|
                    Seq::new(
                        cols,
                        |j: int|
                            if i < self.rows && j < self.cols {
                                self.cells[i][j]
                            } else {
                                ' '
                            },
                    ),
            ),
            row: least(self.row, last_index(rows)),
            col: least(self.col, last_index(cols)),
            pending_wrap: false,
            scroll_top: 0,
            scroll_bottom: last_index(rows),
            saved_cursor: self.saved_cursor,
        }
    }

    /// The cursor at the nearest cell of the grid.
    pub open spec fn moved_to(self, row: int, col: int) -> GridModel {
        GridModel {
            row: least(row, last_index(self.rows)),
            col: least(col, last_index(self.cols)),
            pending_wrap: false,
            ..self
        }
    }

    pub open spec fn scrolled_up(self, count: int) -> GridModel {
        GridModel {
            cells: moved_up(
                self.cells,
                self.scroll_top,
                self.scroll_bottom,
                count,
                blank_line(self.cols),
            ),
            ..self
        }
    }

    pub open spec fn scrolled_down(self, count: int) -> GridModel {
        GridModel {
            cells: moved_down(
                self.cells,
                self.scroll_top,
                self.scroll_bottom,
                count,
                blank_line(self.cols),
            ),
            ..self
        }
    }

    /// One line down: at the end of the scroll region its lines move up instead.
    pub open spec fn fed_line(self) -> GridModel {
        if self.row == self.scroll_bottom {
            self.scrolled_up(1)
        } else if self.row + 1 < self.rows {
            GridModel { row: self.row + 1, ..self }
        } else {
            self
        }
    }

    /// One line up: at the start of the scroll region its lines move down instead.
    pub open spec fn reverse_indexed(self) -> GridModel {
        if self.row == self.scroll_top {
            self.scrolled_down(1)
        } else if self.row > 0 {
            GridModel { row: self.row - 1, ..self }
        } else {
            self
        }
    }

    /// The line that a pending wrap moves to before the next character.
    pub open spec fn unwrapped(self) -> GridModel {
        if self.pending_wrap {
            GridModel { pending_wrap: false, ..(GridModel { col: 0, ..self }).fed_line() }
        } else {
            self
        }
    }

    /// `ch` in the cell under the cursor, which then moves on or waits for a wrap.
    pub open spec fn with_char(self, ch: char) -> GridModel {
        if self.cols == 0 || self.rows == 0 {
            self
        } else {
            let at = self.unwrapped();
            GridModel {
                cells: at.cells.update(at.row, at.cells[at.row].update(at.col, ch)),
                pending_wrap: at.col + 1 >= at.cols,
                col: if at.col + 1 >= at.cols {
                    at.col
                } else {
                    at.col + 1
                },
                ..at
            }
        }
    }

    /// The cursor's line with another text.
    pub open spec fn with_line(self, line: Seq<char>) -> GridModel {
        GridModel { cells: self.cells.update(self.row, line), ..self }
    }

    /// The cursor's line blanked: from the cursor on (mode 0), up to and with it (1), or all.
    pub open spec fn line_erased(self, mode: nat) -> GridModel {
        if self.rows == 0 {
            self
        } else {
            let line = self.cells[self.row];
            self.with_line(
                if mode == 0 {
                    filled(line, self.col, self.cols as int, ' ')
                } else if mode == 1 {
                    filled(line, 0, self.col + 1, ' ')
                } else {
                    blank_line(self.cols)
                },
            )
        }
    }

    /// The screen blanked: from the cursor on (mode 0), up to and with it (1), or all.
    pub open spec fn display_erased(self, mode: nat) -> GridModel {
        let blank = blank_line(self.cols);
        if mode == 0 {
            let g = self.line_erased(0);
            GridModel { cells: filled(g.cells, self.row + 1, self.rows as int, blank), ..g }
        } else if mode == 1 {
            let g = self.line_erased(1);
            GridModel { cells: filled(g.cells, 0, self.row, blank), ..g }
        } else {
            GridModel { cells: filled(self.cells, 0, self.rows as int, blank), ..self }
        }
    }

    /// `count` blank lines at the cursor; the lines below move down within the scroll region.
    pub open spec fn lines_inserted(self, count: int) -> GridModel {
        if self.row < self.scroll_top || self.row > self.scroll_bottom {
            self
        } else {
            GridModel {
                cells: moved_down(
                    self.cells,
                    self.row,
                    self.scroll_bottom,
                    count,
                    blank_line(self.cols),
                ),
                ..self
            }
        }
    }

    /// `count` lines taken out at the cursor; the lines below move up within the scroll region.
    pub open spec fn lines_deleted(self, count: int) -> GridModel {
        if self.row < self.scroll_top || self.row > self.scroll_bottom {
            self
        } else {
            GridModel {
                cells: moved_up(
                    self.cells,
                    self.row,
                    self.scroll_bottom,
                    count,
                    blank_line(self.cols),
                ),
                ..self
            }
        }
    }

    /// `count` blanks at the cursor; the rest of the line moves right.
    pub open spec fn chars_inserted(self, count: int) -> GridModel {
        if self.rows == 0 {
            self
        } else {
            self.with_line(moved_down(self.cells[self.row], self.col, self.cols - 1, count, ' '))
        }
    }

    /// `count` cells taken out at the cursor; the rest of the line moves left.
    pub open spec fn chars_deleted(self, count: int) -> GridModel {
        if self.rows == 0 {
            self
        } else {
            self.with_line(moved_up(self.cells[self.row], self.col, self.cols - 1, count, ' '))
        }
    }

    /// `count` cells from the cursor on blanked in place.
    pub open spec fn chars_erased(self, count: int) -> GridModel {
        if self.rows == 0 {
            self
        } else {
            self.with_line(filled(self.cells[self.row], self.col, self.col + count, ' '))
        }
    }

    pub open spec fn saved(self) -> GridModel {
        GridModel { saved_cursor: Some((self.row, self.col)), ..self }
    }

    pub open spec fn restored(self) -> GridModel {
        match self.saved_cursor {
            Some(at) => self.moved_to(at.0, at.1),
            None => self,
        }
    }

    pub open spec fn carriage_returned(self) -> GridModel {
        GridModel { col: 0, pending_wrap: false, ..self }
    }

    /// The scroll region set to `top..=bottom` where that is a range, else to the whole height;
    /// the cursor goes home.
    pub open spec fn with_region(self, top: int, bottom: int) -> GridModel {
        let g = if top < bottom {
            GridModel { scroll_top: top, scroll_bottom: bottom, ..self }
        } else {
            GridModel { scroll_top: 0, scroll_bottom: last_index(self.rows), ..self }
        };
        g.moved_to(0, 0)
    }
}

/// The views of the lines.
pub open spec fn lines_view(lines: Seq<Vec<char>>) -> Seq<Seq<char>> {
    lines.map_values(|l: Vec<char>| l@)
}

#[derive(Debug, Clone)]
pub struct Grid {
    pub cols: usize,
    pub rows: usize,
    pub cells: Vec<Vec<char>>,
    pub row: usize,
    pub col: usize,
    pub pending_wrap: bool,
    pub scroll_top: usize,
    pub scroll_bottom: usize,
    pub saved_cursor: Option<(usize, usize)>,
}

impl View for Grid {
    type V = GridModel;

    open spec fn view(&self) -> GridModel {
        GridModel {
            cols: self.cols as nat,
            rows: self.rows as nat,
            cells: lines_view(self.cells@),
            row: self.row as int,
            col: self.col as int,
            pending_wrap: self.pending_wrap,
            scroll_top: self.scroll_top as int,
            scroll_bottom: self.scroll_bottom as int,
            saved_cursor: match self.saved_cursor {
                Some(at) => Some((at.0 as int, at.1 as int)),
                None => None,
            },
        }
    }
}

fn last_of(count: usize) -> (r: usize)
    ensures
        r == last_index(count as nat),
{
    if count == 0 {
        0
    } else {
        count - 1
    }
}

fn min_of(a: usize, b: usize) -> (r: usize)
    ensures
        r == least(a as int, b as int),
{
    if a <= b {
        a
    } else {
        b
    }
}

/// A line of `cols` blanks.
fn blanks(cols: usize) -> (r: Vec<char>)
    ensures
        r@ == blank_line(cols as nat),
{
    let mut out: Vec<char> = Vec::new();
    let mut i: usize = 0;
    while i < cols
        invariant
            i <= cols,
            out@ =~= blank_line(i as nat),
        decreases cols - i,
    {
        out.push(' ');
        i = i + 1;
    }
    out
}

impl Grid {
    pub fn new(cols: usize, rows: usize) -> (r: Grid)
        requires
            cols <= u16::MAX,
            rows <= u16::MAX,
        ensures
            r@ == GridModel::blank(cols as nat, rows as nat),
            r@.wf(),
    {
        let mut cells: Vec<Vec<char>> = Vec::new();
        let mut i: usize = 0;
        while i < rows
            invariant
                i <= rows,
                lines_view(cells@) =~= Seq::new(i as nat, |k: int| blank_line(cols as nat)),
            decreases rows - i,
        {
            let ghost before = lines_view(cells@);
            cells.push(blanks(cols));
            i = i + 1;
            assert(lines_view(cells@) =~= before.push(blank_line(cols as nat)));
        }
        Grid {
            cols,
            rows,
            cells,
            row: 0,
            col: 0,
            pending_wrap: false,
            scroll_top: 0,
            scroll_bottom: last_of(rows),
            saved_cursor: None,
        }
    }

    pub fn move_to(&mut self, row: usize, col: usize)
        requires
            old(self)@.wf(),
        ensures
            final(self)@ == old(self)@.moved_to(row as int, col as int),
            final(self)@.wf(),
    {
        self.row = min_of(row, last_of(self.rows));
        self.col = min_of(col, last_of(self.cols));
        self.pending_wrap = false;
    }

    pub fn scroll_up(&mut self, count: usize)
        requires
            old(self)@.wf(),
        ensures
            final(self)@ == old(self)@.scrolled_up(count as int),
            final(self)@.wf(),
    {
        let top: usize = self.scroll_top;
        let bottom: usize = self.scroll_bottom;
        self.remove_lines(top, bottom, count);
    }

    /// Moves the lines `top..=bottom` up by `count`.
    fn remove_lines(&mut self, top: usize, bottom: usize, count: usize)
        requires
            old(self)@.wf(),
            top <= bottom <= last_index(old(self)@.rows),
        ensures
            final(self)@ == (GridModel {
                cells: moved_up(
                    old(self)@.cells,
                    top as int,
                    bottom as int,
                    count as int,
                    blank_line(old(self)@.cols),
                ),
                ..old(self)@
            }),
            final(self)@.wf(),
    {
        if self.rows == 0 {
            assert(self@ =~= (GridModel {
                cells: moved_up(
                    old(self)@.cells,
                    top as int,
                    bottom as int,
                    count as int,
                    blank_line(old(self)@.cols),
                ),
                ..old(self)@
            }));
            return;
        }
        let cols: usize = self.cols;
        let steps: usize = min_of(count, bottom - top + 1);
        let ghost start = self@;
        let ghost blank = blank_line(self@.cols);
        let mut k: usize = 0;
        while k < steps
            invariant
                k <= steps <= bottom - top + 1,
                start.wf(),
                cols == start.cols,
                start.rows > 0,
                top <= bottom < start.rows,
                blank == blank_line(start.cols),
                self@ =~= (GridModel {
                    cells: moved_up(start.cells, top as int, bottom as int, k as int, blank),
                    ..start
                }),
            decreases steps - k,
        {
            let ghost mid = self@.cells;
            assert(self@.cells.len() == start.cells.len());
            assert(self.cells@.len() == self@.cells.len());
            let _gone: Vec<char> = self.cells.remove(top);
            assert(lines_view(self.cells@) =~= mid.remove(top as int));
            self.cells.insert(bottom, blanks(cols));
            assert(lines_view(self.cells@) =~= mid.remove(top as int).insert(bottom as int, blank));
            k = k + 1;
            assert(self@.cells =~= moved_up(
                start.cells,
                top as int,
                bottom as int,
                k as int,
                blank,
            ));
        }
        assert(self@.cells =~= moved_up(
            start.cells,
            top as int,
            bottom as int,
            count as int,
            blank,
        ));
    }

    pub fn scroll_down(&mut self, count: usize)
        requires
            old(self)@.wf(),
        ensures
            final(self)@ == old(self)@.scrolled_down(count as int),
            final(self)@.wf(),
    {
        let top: usize = self.scroll_top;
        let bottom: usize = self.scroll_bottom;
        self.open_lines(top, bottom, count);
    }

    /// Moves the lines `top..=bottom` down by `count`.
    fn open_lines(&mut self, top: usize, bottom: usize, count: usize)
        requires
            old(self)@.wf(),
            top <= bottom <= last_index(old(self)@.rows),
        ensures
            final(self)@ == (GridModel {
                cells: moved_down(
                    old(self)@.cells,
                    top as int,
                    bottom as int,
                    count as int,
                    blank_line(old(self)@.cols),
                ),
                ..old(self)@
            }),
            final(self)@.wf(),
    {
        if self.rows == 0 {
            assert(self@ =~= (GridModel {
                cells: moved_down(
                    old(self)@.cells,
                    top as int,
                    bottom as int,
                    count as int,
                    blank_line(old(self)@.cols),
                ),
                ..old(self)@
            }));
            return;
        }
        let cols: usize = self.cols;
        let steps: usize = min_of(count, bottom - top + 1);
        let ghost start = self@;
        let ghost blank = blank_line(self@.cols);
        let mut k: usize = 0;
        while k < steps
            invariant
                k <= steps <= bottom - top + 1,
                start.wf(),
                cols == start.cols,
                start.rows > 0,
                top <= bottom < start.rows,
                blank == blank_line(start.cols),
                self@ =~= (GridModel {
                    cells: moved_down(start.cells, top as int, bottom as int, k as int, blank),
                    ..start
                }),
            decreases steps - k,
        {
            let ghost mid = self@.cells;
            assert(self@.cells.len() == start.cells.len());
            assert(self.cells@.len() == self@.cells.len());
            let _gone: Vec<char> = self.cells.remove(bottom);
            assert(lines_view(self.cells@) =~= mid.remove(bottom as int));
            self.cells.insert(top, blanks(cols));
            assert(lines_view(self.cells@) =~= mid.remove(bottom as int).insert(top as int, blank));
            k = k + 1;
            assert(self@.cells =~= moved_down(
                start.cells,
                top as int,
                bottom as int,
                k as int,
                blank,
            ));
        }
        assert(self@.cells =~= moved_down(
            start.cells,
            top as int,
            bottom as int,
            count as int,
            blank,
        ));
    }

    pub fn line_feed(&mut self)
        requires
            old(self)@.wf(),
        ensures
            final(self)@ == old(self)@.fed_line(),
            final(self)@.wf(),
    {
        if self.row == self.scroll_bottom {
            self.scroll_up(1);
        } else if self.row + 1 < self.rows {
            self.row = self.row + 1;
        }
    }

    pub fn reverse_index(&mut self)
        requires
            old(self)@.wf(),
        ensures
            final(self)@ == old(self)@.reverse_indexed(),
            final(self)@.wf(),
    {
        if self.row == self.scroll_top {
            self.scroll_down(1);
        } else if self.row > 0 {
            self.row = self.row - 1;
        }
    }

    pub fn put(&mut self, ch: char)
        requires
            old(self)@.wf(),
        ensures
            final(self)@ == old(self)@.with_char(ch),
            final(self)@.wf(),
    {
        if self.cols == 0 || self.rows == 0 {
            return;
        }
        if self.pending_wrap {
            self.col = 0;
            self.line_feed();
            self.pending_wrap = false;
        }
        let ghost at = self@;
        assert(at.wf());
        assert(self.cells@.len() == at.cells.len());
        assert(at.cells[at.row] == self.cells@[self.row as int]@);
        self.cells[self.row][self.col] = ch;
        assert(self@.cells =~= at.cells.update(at.row, at.cells[at.row].update(at.col, ch)));
        if self.col + 1 >= self.cols {
            self.pending_wrap = true;
        } else {
            self.col = self.col + 1;
        }
    }

    /// Blanks the cells `from..to` of the cursor's line.
    fn fill_cells(&mut self, from: usize, to: usize)
        requires
            old(self)@.wf(),
            old(self)@.rows > 0,
            to <= old(self)@.cols,
        ensures
            final(self)@ == old(self)@.with_line(
                filled(old(self)@.cells[old(self)@.row], from as int, to as int, ' '),
            ),
            final(self)@.wf(),
    {
        let ghost start = self@;
        let ghost line = start.cells[start.row];
        let mut j: usize = from;
        assert(filled(line, from as int, j as int, ' ') =~= line);
        assert(start.cells.update(start.row, line) =~= start.cells);
        assert(self@ =~= start.with_line(filled(line, from as int, j as int, ' ')));
        while j < to
            invariant
                from <= j,
                j <= to || j == from,
                start.wf(),
                start.rows > 0,
                to <= start.cols,
                line == start.cells[start.row],
                self@ =~= start.with_line(filled(line, from as int, j as int, ' ')),
            decreases to - j,
        {
            let ghost mid = self@;
            assert(self.cells@.len() == mid.cells.len());
            assert(mid.cells[mid.row] == self.cells@[self.row as int]@);
            self.cells[self.row][j] = ' ';
            assert(self@.cells =~= mid.cells.update(
                mid.row,
                mid.cells[mid.row].update(j as int, ' '),
            ));
            j = j + 1;
            assert(mid.cells[mid.row].update(j - 1, ' ') =~= filled(
                line,
                from as int,
                j as int,
                ' ',
            ));
            assert(self@.cells =~= start.cells.update(
                start.row,
                filled(line, from as int, j as int, ' '),
            ));
        }
        assert(filled(line, from as int, j as int, ' ') =~= filled(line, from as int, to as int, ' '));
    }

    pub fn erase_line(&mut self, mode: usize)
        requires
            old(self)@.wf(),
        ensures
            final(self)@ == old(self)@.line_erased(mode as nat),
            final(self)@.wf(),
    {
        if self.rows == 0 {
            return;
        }
        let cols: usize = self.cols;
        let col: usize = self.col;
        let ghost line = self@.cells[self@.row];
        if mode == 0 {
            self.fill_cells(col, cols);
        } else if mode == 1 {
            let to: usize = min_of(col + 1, cols);
            self.fill_cells(0, to);
            assert(filled(line, 0, to as int, ' ') =~= filled(line, 0, col + 1, ' '));
        } else {
            self.fill_cells(0, cols);
            assert(filled(line, 0, cols as int, ' ') =~= blank_line(cols as nat));
        }
    }

    /// Blanks the lines `from..to`.
    fn fill_lines(&mut self, from: usize, to: usize)
        requires
            old(self)@.wf(),
            to <= old(self)@.rows,
        ensures
            final(self)@ == (GridModel {
                cells: filled(
                    old(self)@.cells,
                    from as int,
                    to as int,
                    blank_line(old(self)@.cols),
                ),
                ..old(self)@
            }),
            final(self)@.wf(),
    {
        let ghost start = self@;
        let ghost blank = blank_line(start.cols);
        let cols: usize = self.cols;
        let mut i: usize = from;
        assert(self@.cells =~= filled(start.cells, from as int, i as int, blank));
        while i < to
            invariant
                from <= i,
                i <= to || i == from,
                start.wf(),
                to <= start.rows,
                cols == start.cols,
                blank == blank_line(start.cols),
                self@ =~= (GridModel {
                    cells: filled(start.cells, from as int, i as int, blank),
                    ..start
                }),
            decreases to - i,
        {
            let ghost mid = self@;
            assert(self.cells@.len() == mid.cells.len());
            self.cells[i] = blanks(cols);
            assert(self@.cells =~= mid.cells.update(i as int, blank));
            i = i + 1;
            assert(self@.cells =~= filled(start.cells, from as int, i as int, blank));
        }
        assert(filled(start.cells, from as int, i as int, blank) =~= filled(
            start.cells,
            from as int,
            to as int,
            blank,
        ));
    }

    pub fn erase_display(&mut self, mode: usize)
        requires
            old(self)@.wf(),
        ensures
            final(self)@ == old(self)@.display_erased(mode as nat),
            final(self)@.wf(),
    {
        let rows: usize = self.rows;
        if mode == 0 {
            self.erase_line(0);
            let from: usize = self.row + 1;
            self.fill_lines(from, rows);
        } else if mode == 1 {
            self.erase_line(1);
            let to: usize = self.row;
            self.fill_lines(0, to);
        } else {
            self.fill_lines(0, rows);
        }
    }

    pub fn insert_lines(&mut self, count: usize)
        requires
            old(self)@.wf(),
        ensures
            final(self)@ == old(self)@.lines_inserted(count as int),
            final(self)@.wf(),
    {
        if self.row < self.scroll_top || self.row > self.scroll_bottom {
            return;
        }
        let row: usize = self.row;
        let bottom: usize = self.scroll_bottom;
        self.open_lines(row, bottom, count);
    }

    pub fn delete_lines(&mut self, count: usize)
        requires
            old(self)@.wf(),
        ensures
            final(self)@ == old(self)@.lines_deleted(count as int),
            final(self)@.wf(),
    {
        if self.row < self.scroll_top || self.row > self.scroll_bottom {
            return;
        }
        let row: usize = self.row;
        let bottom: usize = self.scroll_bottom;
        self.remove_lines(row, bottom, count);
    }

    pub fn insert_chars(&mut self, count: usize)
        requires
            old(self)@.wf(),
        ensures
            final(self)@ == old(self)@.chars_inserted(count as int),
            final(self)@.wf(),
    {
        if self.rows == 0 {
            return;
        }
        let ghost start = self@;
        let ghost line = start.cells[start.row];
        let cols: usize = self.cols;
        let col: usize = self.col;
        let steps: usize = min_of(count, cols - col);
        let mut k: usize = 0;
        assert(moved_down(line, col as int, cols - 1, 0, ' ') =~= line);
        assert(start.cells.update(start.row, line) =~= start.cells);
        assert(self@ =~= start.with_line(moved_down(line, col as int, cols - 1, 0, ' ')));
        while k < steps
            invariant
                k <= steps <= cols - col,
                start.wf(),
                start.rows > 0,
                cols == start.cols,
                col == start.col,
                line == start.cells[start.row],
                self@ =~= start.with_line(moved_down(line, col as int, cols - 1, k as int, ' ')),
            decreases steps - k,
        {
            let ghost mid = self@;
            assert(self.cells@.len() == mid.cells.len());
            assert(mid.cells[mid.row] == self.cells@[self.row as int]@);
            let _gone: char = self.cells[self.row].remove(cols - 1);
            self.cells[self.row].insert(col, ' ');
            assert(self@.cells =~= mid.cells.update(
                mid.row,
                mid.cells[mid.row].remove(cols - 1).insert(col as int, ' '),
            ));
            k = k + 1;
            assert(mid.cells[mid.row].remove(cols - 1).insert(col as int, ' ') =~= moved_down(
                line,
                col as int,
                cols - 1,
                k as int,
                ' ',
            ));
            assert(self@.cells =~= start.cells.update(
                start.row,
                moved_down(line, col as int, cols - 1, k as int, ' '),
            ));
        }
        assert(moved_down(line, col as int, cols - 1, k as int, ' ') =~= moved_down(
            line,
            col as int,
            cols - 1,
            count as int,
            ' ',
        ));
    }

    pub fn delete_chars(&mut self, count: usize)
        requires
            old(self)@.wf(),
        ensures
            final(self)@ == old(self)@.chars_deleted(count as int),
            final(self)@.wf(),
    {
        if self.rows == 0 {
            return;
        }
        let ghost start = self@;
        let ghost line = start.cells[start.row];
        let cols: usize = self.cols;
        let col: usize = self.col;
        let steps: usize = min_of(count, cols - col);
        let mut k: usize = 0;
        assert(moved_up(line, col as int, cols - 1, 0, ' ') =~= line);
        assert(start.cells.update(start.row, line) =~= start.cells);
        assert(self@ =~= start.with_line(moved_up(line, col as int, cols - 1, 0, ' ')));
        while k < steps
            invariant
                k <= steps <= cols - col,
                start.wf(),
                start.rows > 0,
                cols == start.cols,
                col == start.col,
                line == start.cells[start.row],
                self@ =~= start.with_line(moved_up(line, col as int, cols - 1, k as int, ' ')),
            decreases steps - k,
        {
            let ghost mid = self@;
            assert(self.cells@.len() == mid.cells.len());
            assert(mid.cells[mid.row] == self.cells@[self.row as int]@);
            let _gone: char = self.cells[self.row].remove(col);
            self.cells[self.row].push(' ');
            assert(self@.cells =~= mid.cells.update(
                mid.row,
                mid.cells[mid.row].remove(col as int).push(' '),
            ));
            k = k + 1;
            assert(mid.cells[mid.row].remove(col as int).push(' ') =~= moved_up(
                line,
                col as int,
                cols - 1,
                k as int,
                ' ',
            ));
            assert(self@.cells =~= start.cells.update(
                start.row,
                moved_up(line, col as int, cols - 1, k as int, ' '),
            ));
        }
        assert(moved_up(line, col as int, cols - 1, k as int, ' ') =~= moved_up(
            line,
            col as int,
            cols - 1,
            count as int,
            ' ',
        ));
    }

    pub fn erase_chars(&mut self, count: usize)
        requires
            old(self)@.wf(),
        ensures
            final(self)@ == old(self)@.chars_erased(count as int),
            final(self)@.wf(),
    {
        if self.rows == 0 {
            return;
        }
        let ghost line = self@.cells[self@.row];
        let cols: usize = self.cols;
        let col: usize = self.col;
        let to: usize = if count < cols - col {
            col + count
        } else {
            cols
        };
        self.fill_cells(col, to);
        assert(filled(line, col as int, to as int, ' ') =~= filled(line, col as int, col + count, ' '));
    }

    pub fn resize(&mut self, cols: usize, rows: usize)
        requires
            old(self)@.wf(),
            cols <= u16::MAX,
            rows <= u16::MAX,
        ensures
            final(self)@ == old(self)@.resized(cols as nat, rows as nat),
            final(self)@.wf(),
    {
        let ghost start = self@;
        let ghost target = start.resized(cols as nat, rows as nat);
        let old_rows: usize = self.rows;
        let mut cells: Vec<Vec<char>> = Vec::new();
        let mut i: usize = 0;
        while i < rows
            invariant
                i <= rows,
                self@ == start,
                start.wf(),
                old_rows == start.rows,
                target == start.resized(cols as nat, rows as nat),
                lines_view(cells@) =~= target.cells.take(i as int),
            decreases rows - i,
        {
            let mut line: Vec<char> = Vec::new();
            let mut j: usize = 0;
            while j < cols
                invariant
                    j <= cols,
                    i < rows,
                    self@ == start,
                    start.wf(),
                    old_rows == start.rows,
                    target == start.resized(cols as nat, rows as nat),
                    line@ =~= target.cells[i as int].take(j as int),
                decreases cols - j,
            {
                let mut ch: char = ' ';
                if i < old_rows {
                    assert(start.cells[i as int] == self.cells@[i as int]@);
                    if j < self.cols {
                        ch = self.cells[i][j];
                    }
                }
                line.push(ch);
                j = j + 1;
            }
            assert(line@ =~= target.cells[i as int]);
            let ghost before = lines_view(cells@);
            cells.push(line);
            assert(lines_view(cells@) =~= before.push(target.cells[i as int]));
            i = i + 1;
        }
        self.cells = cells;
        self.cols = cols;
        self.rows = rows;
        self.scroll_top = 0;
        self.scroll_bottom = last_of(rows);
        self.row = min_of(self.row, last_of(rows));
        self.col = min_of(self.col, last_of(cols));
        self.pending_wrap = false;
        assert(self@.cells =~= target.cells);
    }

    pub fn save(&mut self)
        requires
            old(self)@.wf(),
        ensures
            final(self)@ == old(self)@.saved(),
            final(self)@.wf(),
    {
        self.saved_cursor = Some((self.row, self.col));
    }

    pub fn restore(&mut self)
        requires
            old(self)@.wf(),
        ensures
            final(self)@ == old(self)@.restored(),
            final(self)@.wf(),
    {
        if let Some((row, col)) = self.saved_cursor {
            self.move_to(row, col);
        }
    }

    pub fn set_region(&mut self, top: usize, bottom: usize)
        requires
            old(self)@.wf(),
            bottom <= last_index(old(self)@.rows),
        ensures
            final(self)@ == old(self)@.with_region(top as int, bottom as int),
            final(self)@.wf(),
    {
        if top < bottom {
            self.scroll_top = top;
            self.scroll_bottom = bottom;
        } else {
            self.scroll_top = 0;
            self.scroll_bottom = last_of(self.rows);
        }
        self.move_to(0, 0);
    }
}

} // verus!
