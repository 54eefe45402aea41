//! Terminal grids as the emulator leaves them, read by the host into a
//! [`ScreenCells`] (scrollback rows first, then the screen), and what the
//! terminal makes of them: the body of a block (which screen rows are in
//! use, how many rows it spans, its snapshot), the snapshot of the scrolled
//! viewport, the snapshot of a range of grid lines, and the mode bits the
//! host reads.

use vstd::prelude::*;
use crate::palette::{Palette, TermColor, color_to_rgba, spec_color_rgba};
use crate::snapshot::{CellSnapshot, GridSnapshot};

verus! {

/// What the grid holds in one cell.
#[derive(Clone, Copy, Debug)]
pub struct CellRead {
    pub c: char,
    pub fg: TermColor,
    pub bg: TermColor,
    pub bold: bool,
    /// Any underline style.
    pub underline: bool,
    pub inverse: bool,
    pub italic: bool,
    /// Leading half of a wide character.
    pub wide: bool,
    /// Trailing half of a wide character.
    pub wide_spacer: bool,
    /// Any attribute at all is set (wrapped line, dim, hidden and the like
    /// included).
    pub flagged: bool,
}

/// The cells of a grid: `history` scrollback rows above `rows` screen
/// rows, `cols` cells each, row-major from the top of scrollback; and the
/// cursor, its line counted from the top of the screen.
pub struct ScreenCells {
    cols: u16,
    rows: u16,
    history: u16,
    cursor_line: i32,
    cursor_col: usize,
    cells: Vec<CellRead>,
}

pub struct ScreenView {
    pub cols: nat,
    pub rows: nat,
    pub history: nat,
    pub cursor_line: int,
    pub cursor_col: nat,
    pub cells: Seq<CellRead>,
}

impl View for ScreenCells {
    type V = ScreenView;

    closed spec fn view(&self) -> ScreenView {
        ScreenView {
            cols: self.cols as nat,
            rows: self.rows as nat,
            history: self.history as nat,
            cursor_line: self.cursor_line as int,
            cursor_col: self.cursor_col as nat,
            cells: self.cells@,
        }
    }
}

/// At least one screen row, and one cell for each of the
/// `(history + rows) × cols` positions.
pub open spec fn screen_wf(v: ScreenView) -> bool {
    &&& 1 <= v.rows < 0x10000
    &&& v.cols < 0x10000
    &&& v.history < 0x10000
    &&& v.cells.len() == (v.history + v.rows) * v.cols
}

/// The cell at column `col` of `line` (negative lines are scrollback).
pub open spec fn cell_at(v: ScreenView, line: int, col: int) -> CellRead {
    v.cells[(v.history + line) * v.cols + col]
}

/// A space with no attribute.
pub open spec fn blank(c: CellRead) -> bool {
    c.c == ' ' && !c.flagged
}

pub open spec fn row_has_content(v: ScreenView, r: int) -> bool {
    exists|k: int| 0 <= k < v.cols && !blank(#[trigger] cell_at(v, r, k))
}

/// A screen row is in use when the cursor is on it or a cell of it is not
/// blank.
pub open spec fn is_used_row(v: ScreenView, r: int) -> bool {
    r == v.cursor_line || row_has_content(v, r)
}

/// The lowest used screen row below row `n`.
pub open spec fn last_used_below(v: ScreenView, n: int) -> Option<int>
    decreases n,
{
    if n <= 0 {
        None
    } else if is_used_row(v, n - 1) {
        Some(n - 1)
    } else {
        last_used_below(v, n - 1)
    }
}

pub open spec fn spec_last_content_row(v: ScreenView) -> Option<int> {
    last_used_below(v, v.rows as int)
}

pub open spec fn clamp_rows(x: int, rows: int) -> int {
    if x < 1 { 1 } else if x > rows { rows } else { x }
}

/// Screen rows the body takes: down to the last used row, or, with none,
/// down to the cursor's row kept within the screen.
pub open spec fn spec_visible_used(v: ScreenView) -> int {
    match spec_last_content_row(v) {
        Some(r) => r + 1,
        None => clamp_rows(v.cursor_line + 1, v.rows as int),
    }
}

pub open spec fn spec_used_rows(v: ScreenView) -> int {
    v.history + spec_visible_used(v)
}

pub open spec fn flag_bits(c: CellRead) -> int {
    (if c.bold { 1int } else { 0 }) + (if c.underline { 2int } else { 0 }) + (if c.inverse { 4int } else { 0 })
        + (if c.italic { 8int } else { 0 }) + (if c.wide { 16int } else { 0 }) + (if c.wide_spacer {
        32int
    } else {
        0
    })
}

/// A cell as the renderer takes it: blanks and trailing halves of wide
/// characters carry character 0.
pub open spec fn encode_cell(c: CellRead, p: Palette) -> CellSnapshot {
    CellSnapshot {
        ch: if c.wide_spacer || blank(c) { 0 } else { c.c as u32 },
        fg_rgba: spec_color_rgba(c.fg, p),
        bg_rgba: spec_color_rgba(c.bg, p),
        flags: flag_bits(c) as u16,
    }
}

/// The snapshot of the body: every scrollback row and the used screen
/// rows, the cursor's row counted from the top of scrollback (one past the
/// last row when the cursor is below the used rows or above the screen).
pub open spec fn spec_body_snapshot(v: ScreenView, p: Palette, g: GridSnapshot) -> bool {
    let vis = spec_visible_used(v);
    let total = v.history + vis;
    &&& g.cols == v.cols
    &&& g.rows == total as u16
    &&& g.cursor_col == v.cursor_col as u16
    &&& g.cursor_row == (if 0 <= v.cursor_line < vis { (v.history + v.cursor_line) as u16 } else {
        total as u16
    })
    &&& g.display_offset == 0
    &&& g.cells@ == Seq::new((total * v.cols) as nat, |i: int| encode_cell(v.cells[i], p))
}

/// The snapshot of the viewport scrolled `offset` rows into scrollback:
/// visible row `r` shows grid line `r - offset`; the cursor's visible row
/// is its line plus `offset`, or `rows` when that is off the viewport.
pub open spec fn spec_viewport_snapshot(v: ScreenView, offset: int, p: Palette, g: GridSnapshot) -> bool {
    let cv = v.cursor_line + offset;
    &&& g.cols == v.cols
    &&& g.rows == v.rows
    &&& g.cursor_col == v.cursor_col as u16
    &&& g.cursor_row == (if 0 <= cv < v.rows { cv } else { v.rows as int })
    &&& g.display_offset == offset
    &&& g.cells@ == Seq::new(v.rows * v.cols, |i: int| encode_cell(v.cells[(v.history - offset) * v.cols + i], p))
}

/// Grid lines `start_line..end_line` counted from the top of scrollback,
/// as screen-relative lines clamped to the grid: `(start, end)` with
/// `-history <= start <= end <= rows`.
pub open spec fn range_bounds(v: ScreenView, start_line: int, end_line: int) -> (int, int) {
    let lo = -(v.history as int);
    let hi = v.rows as int;
    let rs = start_line - v.history;
    let re = end_line - v.history;
    let start = if rs < lo { lo } else if rs > hi { hi } else { rs };
    let end = if re < start { start } else if re > hi { hi } else { re };
    (start, end)
}

/// The snapshot of grid lines `start_line..end_line` (counted from the top
/// of scrollback; the part outside the grid is dropped), without a cursor.
pub open spec fn spec_range_snapshot(v: ScreenView, start_line: int, end_line: int, p: Palette, g: GridSnapshot) -> bool {
    let (start, end) = range_bounds(v, start_line, end_line);
    let count = (end - start) as u16;
    &&& g.cols == v.cols
    &&& g.rows == count
    &&& g.cursor_col == 0
    &&& g.cursor_row == count
    &&& g.display_offset == 0
    &&& g.cells@ == Seq::new(((end - start) * v.cols) as nat, |i: int| encode_cell(v.cells[(v.history + start) * v.cols + i], p))
}

/// The rows a block's body spans are the rows of its snapshot, and the
/// snapshot holds a full row of cells for each.
pub proof fn law_used_rows_match_snapshot(v: ScreenView, p: Palette, g: GridSnapshot)
    requires
        screen_wf(v),
        spec_used_rows(v) <= u16::MAX,
        spec_body_snapshot(v, p, g),
    ensures
        g.rows == spec_used_rows(v),
        g.cells@.len() == g.rows * v.cols,
{
    lemma_last_below_range(v, v.rows as int);
    assert(0 <= spec_used_rows(v));
}

proof fn lemma_cell_index(h: int, r: int, rows: int, cols: int, k: int)
    requires
        0 <= h,
        0 <= r < rows,
        0 <= k < cols,
    ensures
        0 <= (h + r) * cols + k < (h + rows) * cols,
        (h + r) * cols + k + 1 <= (h + r + 1) * cols,
{
    assert((h + r) * cols + k < (h + r + 1) * cols) by (nonlinear_arith)
        requires
            k < cols;
    assert((h + r + 1) * cols <= (h + rows) * cols) by (nonlinear_arith)
        requires
            r + 1 <= rows,
            0 <= cols;
    assert(0 <= (h + r) * cols) by (nonlinear_arith)
        requires
            0 <= h + r,
            0 <= cols;
}

proof fn lemma_none_above(v: ScreenView, n: int, m: int)
    requires
        0 <= n <= m,
        forall|r: int| n <= r < m ==> !is_used_row(v, r),
    ensures
        last_used_below(v, m) == last_used_below(v, n),
    decreases m - n,
{
    if m > n {
        lemma_none_above(v, n, m - 1);
    }
}

proof fn lemma_nothing_used(v: ScreenView, m: int)
    requires
        0 <= m,
        forall|r: int| 0 <= r < m ==> !is_used_row(v, r),
    ensures
        last_used_below(v, m) is None,
{
    lemma_none_above(v, 0, m);
}

impl ScreenCells {
    #[verifier::type_invariant]
    spec fn inv(&self) -> bool {
        screen_wf(self@)
    }

    /// The grid's cells, when there are exactly `(history + rows) × cols`
    /// of them and at least one screen row.
    pub fn new(cols: u16, rows: u16, history: u16, cursor_line: i32, cursor_col: usize, cells: Vec<CellRead>) -> (r:
        Option<ScreenCells>)
        ensures
            r is Some <==> rows >= 1 && cells@.len() == (history + rows) * cols,
            r matches Some(s) ==> s@ == (ScreenView {
                cols: cols as nat,
                rows: rows as nat,
                history: history as nat,
                cursor_line: cursor_line as int,
                cursor_col: cursor_col as nat,
                cells: cells@,
            }),
    {
        let len = cells.len();
        if rows == 0 {
            return None;
        }
        let lines: usize = history as usize + rows as usize;
        match lines.checked_mul(cols as usize) {
            Some(n) => {
                if n == len {
                    Some(ScreenCells { cols, rows, history, cursor_line, cursor_col, cells })
                } else {
                    None
                }
            },
            None => None,
        }
    }

    /// Whether screen row `row` holds a non-blank cell.
    fn row_has_content_exec(&self, row: i32) -> (b: bool)
        requires
            0 <= row < self@.rows,
        ensures
            b == row_has_content(self@, row as int),
    {
        proof { use_type_invariant(self); }
        let ghost v = self@;
        let cols = self.cols as usize;
        let len = self.cells.len();
        proof {
            assert((v.history + row) * v.cols <= (v.history + v.rows) * v.cols) by (nonlinear_arith)
                requires
                    row < v.rows,
                    0 <= v.cols;
        }
        let base: usize = (self.history as usize + row as usize) * cols;
        let mut col: usize = 0;
        while col < cols
            invariant
                v == self@,
                screen_wf(v),
                0 <= row < v.rows,
                cols == v.cols,
                base == (v.history + row) * v.cols,
                len == v.cells.len(),
                col <= cols,
                forall|k: int| 0 <= k < col ==> blank(#[trigger] cell_at(v, row as int, k)),
            decreases cols - col,
        {
            proof { lemma_cell_index(v.history as int, row as int, v.rows as int, v.cols as int, col as int); }
            let cell = self.cells[base + col];
            assert(cell == cell_at(v, row as int, col as int));
            if cell.c != ' ' || cell.flagged {
                return true;
            }
            col = col + 1;
        }
        assert(!row_has_content(v, row as int));
        false
    }

    /// The lowest screen row in use: the cursor's row or the lowest row
    /// holding a non-blank cell, whichever is lower on the screen; `None`
    /// when the cursor is off the screen and every screen cell is blank.
    pub fn last_content_row(&self) -> (r: Option<i32>)
        ensures
            match r {
                Some(x) => spec_last_content_row(self@) == Some(x as int),
                None => spec_last_content_row(self@) is None,
            },
    {
        proof { use_type_invariant(self); }
        let ghost v = self@;
        let rows = self.rows as i32;
        let cursor = self.cursor_line;
        let best: Option<i32> = if 0 <= cursor && cursor < rows { Some(cursor) } else { None };
        let mut row: i32 = rows - 1;
        while row >= 0
            invariant
                v == self@,
                screen_wf(v),
                rows == v.rows,
                cursor == v.cursor_line,
                -1 <= row < rows,
                best == (if 0 <= cursor < rows { Some(cursor) } else { None::<i32> }),
                forall|r: int| row < r < rows ==> !is_used_row(v, r),
            decreases row + 1,
        {
            if let Some(b) = best {
                if b >= row {
                    proof {
                        assert(is_used_row(v, b as int));
                        lemma_none_above(v, row as int + 1, v.rows as int);
                        assert(b == row);
                    }
                    return Some(row);
                }
            }
            if self.row_has_content_exec(row) {
                proof { lemma_none_above(v, row as int + 1, v.rows as int); }
                return Some(row);
            }
            row = row - 1;
        }
        proof {
            lemma_nothing_used(v, v.rows as int);
        }
        None
    }

    fn visible_used(&self) -> (n: i32)
        requires
            spec_last_content_row(self@) is None ==> self@.cursor_line < i32::MAX,
        ensures
            n == spec_visible_used(self@),
            1 <= n <= self@.rows,
    {
        proof { use_type_invariant(self); }
        match self.last_content_row() {
            Some(r) => {
                proof { self.lemma_last_in_range(); }
                r + 1
            },
            None => {
                let x = self.cursor_line + 1;
                let rows = self.rows as i32;
                if x < 1 {
                    1
                } else if x > rows {
                    rows
                } else {
                    x
                }
            },
        }
    }

    proof fn lemma_last_in_range(&self)
        ensures
            spec_last_content_row(self@) matches Some(r) ==> 0 <= r < self@.rows,
    {
        let v = self@;
        lemma_last_below_range(v, v.rows as int);
    }

    /// Rows the body spans: all scrollback rows and the screen rows down to
    /// the last one in use.
    pub fn used_rows(&self) -> (n: u16)
        requires
            spec_last_content_row(self@) is None ==> self@.cursor_line < i32::MAX,
            spec_used_rows(self@) <= u16::MAX,
        ensures
            n == spec_used_rows(self@),
    {
        let vis = self.visible_used();
        self.history + vis as u16
    }

    /// The body's snapshot with colours resolved under `palette`.
    pub fn snapshot(&self, palette: &Palette) -> (g: GridSnapshot)
        requires
            spec_last_content_row(self@) is None ==> self@.cursor_line < i32::MAX,
        ensures
            spec_body_snapshot(self@, *palette, g),
    {
        proof { use_type_invariant(self); }
        let ghost v = self@;
        let vis = self.visible_used();
        let history = self.history as i32;
        let total: i32 = history + vis;
        let cols = self.cols as usize;
        let len = self.cells.len();
        proof {
            assert(total as int * v.cols <= (v.history + v.rows) * v.cols) by (nonlinear_arith)
                requires
                    total <= v.history + v.rows,
                    0 <= v.cols;
        }
        let n: usize = total as usize * cols;
        let cells = self.encode_span(0, n, palette);
        proof {
            assert(cells@ =~= Seq::new((total * v.cols) as nat, |i: int| encode_cell(v.cells[i], *palette)));
        }
        let cursor = self.cursor_line;
        let cursor_row: u16 = if 0 <= cursor && cursor < vis {
            (#[verifier::truncate] ((history + cursor) as u16))
        } else {
            (#[verifier::truncate] (total as u16))
        };
        GridSnapshot {
            cols: self.cols,
            rows: (#[verifier::truncate] (total as u16)),
            cursor_col: (#[verifier::truncate] (self.cursor_col as u16)),
            cursor_row,
            display_offset: 0,
            cells,
        }
    }
    /// The cells `from..from + n`, encoded under `palette`.
    fn encode_span(&self, from: usize, n: usize, palette: &Palette) -> (r: Vec<CellSnapshot>)
        requires
            from + n <= self@.cells.len(),
        ensures
            r@ == Seq::new(n as nat, |i: int| encode_cell(self@.cells[from + i], *palette)),
    {
        let ghost v = self@;
        let len = self.cells.len();
        let mut cells: Vec<CellSnapshot> = Vec::new();
        let mut i: usize = 0;
        while i < n
            invariant
                v == self@,
                len == v.cells.len(),
                from + n <= v.cells.len(),
                i <= n,
                cells@ =~= Seq::new(i as nat, |j: int| encode_cell(v.cells[from + j], *palette)),
            decreases n - i,
        {
            let c = self.cells[from + i];
            cells.push(encode(c, palette));
            i = i + 1;
        }
        cells
    }

    /// The viewport scrolled `display_offset` rows into scrollback, with
    /// colours resolved under `palette`.
    pub fn viewport_snapshot(&self, display_offset: u16, palette: &Palette) -> (g: GridSnapshot)
        requires
            display_offset <= self@.history,
            self@.cursor_line + display_offset <= i32::MAX,
        ensures
            spec_viewport_snapshot(self@, display_offset as int, *palette, g),
    {
        proof { use_type_invariant(self); }
        let ghost v = self@;
        let cols = self.cols as usize;
        let len = self.cells.len();
        proof {
            assert((v.history - display_offset) * v.cols + v.rows * v.cols == (v.history - display_offset + v.rows) * v.cols)
                by (nonlinear_arith);
            assert((v.history - display_offset + v.rows) * v.cols <= (v.history + v.rows) * v.cols) by (nonlinear_arith)
                requires
                    0 <= display_offset,
                    0 <= v.cols;
            assert(0 <= (v.history - display_offset) * v.cols) by (nonlinear_arith)
                requires
                    display_offset <= v.history,
                    0 <= v.cols;
            assert(0 <= v.rows * v.cols) by (nonlinear_arith)
                requires
                    0 <= v.rows,
                    0 <= v.cols;
        }
        let from: usize = (self.history - display_offset) as usize * cols;
        let n: usize = self.rows as usize * cols;
        let cells = self.encode_span(from, n, palette);
        let cv: i32 = self.cursor_line + display_offset as i32;
        let rows = self.rows;
        let cursor_row: u16 = if 0 <= cv && cv < rows as i32 { cv as u16 } else { rows };
        proof {
            assert(cells@ =~= Seq::new(v.rows * v.cols, |i: int| encode_cell(v.cells[(v.history - display_offset) * v.cols + i], *palette)));
        }
        GridSnapshot {
            cols: self.cols,
            rows,
            cursor_col: (#[verifier::truncate] (self.cursor_col as u16)),
            cursor_row,
            display_offset: display_offset as u32,
            cells,
        }
    }

    /// Grid lines `start_line..end_line`, counted from the top of
    /// scrollback, with colours resolved under `palette` and no cursor.
    pub fn range_snapshot(&self, start_line: i32, end_line: i32, palette: &Palette) -> (g: GridSnapshot)
        requires
            start_line - self@.history >= i32::MIN,
            end_line - self@.history >= i32::MIN,
        ensures
            spec_range_snapshot(self@, start_line as int, end_line as int, *palette, g),
    {
        proof { use_type_invariant(self); }
        let ghost v = self@;
        let history = self.history as i32;
        let rs = start_line - history;
        let re = end_line - history;
        let lo = -history;
        let hi = self.rows as i32;
        let start: i32 = if rs < lo { lo } else if rs > hi { hi } else { rs };
        let end: i32 = if re < start { start } else if re > hi { hi } else { re };
        let cols = self.cols as usize;
        let len = self.cells.len();
        proof {
            assert((v.history + start) * v.cols + (end - start) * v.cols == (v.history + end) * v.cols)
                by (nonlinear_arith);
            assert((v.history + end) * v.cols <= (v.history + v.rows) * v.cols) by (nonlinear_arith)
                requires
                    end <= v.rows,
                    0 <= v.cols;
            assert(0 <= (v.history + start) * v.cols) by (nonlinear_arith)
                requires
                    0 <= v.history + start,
                    0 <= v.cols;
            assert(0 <= (end - start) * v.cols) by (nonlinear_arith)
                requires
                    0 <= end - start,
                    0 <= v.cols;
        }
        let from: usize = (history + start) as usize * cols;
        let n: usize = (end - start) as usize * cols;
        let cells = self.encode_span(from, n, palette);
        let count: u16 = #[verifier::truncate] ((end - start) as u16);
        GridSnapshot { cols: self.cols, rows: count, cursor_col: 0, cursor_row: count, display_offset: 0, cells }
    }

    /// The cursor's line counted from the top of scrollback.
    pub fn current_line(&self) -> (l: i32)
        requires
            self@.history + self@.cursor_line <= i32::MAX,
        ensures
            l == self@.history + self@.cursor_line,
    {
        self.history as i32 + self.cursor_line
    }

    /// The screen's bottom row counted from the top of scrollback.
    pub fn screen_bottom_line(&self) -> (l: i32)
        ensures
            l == self@.history + self@.rows - 1,
    {
        self.history as i32 + self.rows as i32 - 1
    }
}

proof fn lemma_last_below_range(v: ScreenView, n: int)
    ensures
        last_used_below(v, n) matches Some(r) ==> 0 <= r < n,
    decreases n,
{
    if n > 0 {
        lemma_last_below_range(v, n - 1);
    }
}

fn encode(c: CellRead, palette: &Palette) -> (s: CellSnapshot)
    ensures
        s == encode_cell(c, *palette),
{
    let mut flags: u16 = 0;
    if c.bold {
        flags = flags + 1;
    }
    if c.underline {
        flags = flags + 2;
    }
    if c.inverse {
        flags = flags + 4;
    }
    if c.italic {
        flags = flags + 8;
    }
    if c.wide {
        flags = flags + 16;
    }
    if c.wide_spacer {
        flags = flags + 32;
    }
    let ch: u32 = if c.wide_spacer || (c.c == ' ' && !c.flagged) { 0 } else { c.c as u32 };
    CellSnapshot { ch, fg_rgba: color_to_rgba(c.fg, palette), bg_rgba: color_to_rgba(c.bg, palette), flags }
}

pub const BT_MODE_ALT_SCREEN: u32 = 1;
pub const BT_MODE_BRACKETED_PASTE: u32 = 2;
pub const BT_MODE_MOUSE_REPORT: u32 = 4;
pub const BT_MODE_APP_CURSOR: u32 = 8;
pub const BT_MODE_APP_KEYPAD: u32 = 16;
pub const BT_MODE_FOCUS_IN_OUT: u32 = 32;

/// The terminal modes the host acts on.
#[derive(Clone, Copy, Debug, PartialEq, Eq, Structural)]
pub struct TermModes {
    pub alt_screen: bool,
    pub bracketed_paste: bool,
    /// Any mouse-reporting mode.
    pub mouse_report: bool,
    pub app_cursor: bool,
    pub app_keypad: bool,
    pub focus_in_out: bool,
}

/// A mode is on when it is on in either.
pub open spec fn union_modes(a: TermModes, b: TermModes) -> TermModes {
    TermModes {
        alt_screen: a.alt_screen || b.alt_screen,
        bracketed_paste: a.bracketed_paste || b.bracketed_paste,
        mouse_report: a.mouse_report || b.mouse_report,
        app_cursor: a.app_cursor || b.app_cursor,
        app_keypad: a.app_keypad || b.app_keypad,
        focus_in_out: a.focus_in_out || b.focus_in_out,
    }
}

pub open spec fn spec_mode_bits(m: TermModes) -> int {
    (if m.alt_screen { BT_MODE_ALT_SCREEN as int } else { 0 })
        + (if m.bracketed_paste { BT_MODE_BRACKETED_PASTE as int } else { 0 })
        + (if m.mouse_report { BT_MODE_MOUSE_REPORT as int } else { 0 })
        + (if m.app_cursor { BT_MODE_APP_CURSOR as int } else { 0 })
        + (if m.app_keypad { BT_MODE_APP_KEYPAD as int } else { 0 })
        + (if m.focus_in_out { BT_MODE_FOCUS_IN_OUT as int } else { 0 })
}

/// The mode bits of the terminal: its own modes joined with those of the
/// running block's grid, where a full-screen program sets them.
pub fn mode_bits(global: TermModes, running_block: Option<TermModes>) -> (bits: u32)
    ensures
        bits == spec_mode_bits(
            match running_block {
                Some(b) => union_modes(global, b),
                None => global,
            },
        ),
{
    let m = match running_block {
        Some(b) => TermModes {
            alt_screen: global.alt_screen || b.alt_screen,
            bracketed_paste: global.bracketed_paste || b.bracketed_paste,
            mouse_report: global.mouse_report || b.mouse_report,
            app_cursor: global.app_cursor || b.app_cursor,
            app_keypad: global.app_keypad || b.app_keypad,
            focus_in_out: global.focus_in_out || b.focus_in_out,
        },
        None => global,
    };
    let mut out: u32 = 0;
    if m.alt_screen {
        out = out + BT_MODE_ALT_SCREEN;
    }
    if m.bracketed_paste {
        out = out + BT_MODE_BRACKETED_PASTE;
    }
    if m.mouse_report {
        out = out + BT_MODE_MOUSE_REPORT;
    }
    if m.app_cursor {
        out = out + BT_MODE_APP_CURSOR;
    }
    if m.app_keypad {
        out = out + BT_MODE_APP_KEYPAD;
    }
    if m.focus_in_out {
        out = out + BT_MODE_FOCUS_IN_OUT;
    }
    out
}

} // verus!
