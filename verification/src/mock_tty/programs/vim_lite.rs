//! A tiny modal editor: NORMAL, INSERT and COMMAND modes over a buffer of
//! ASCII lines, redrawn in full after every key.

use vstd::prelude::*;
use vstd::string::StringSliceAdditionalSpecFns;
use crate::bytes::{bytes_eq, dec_digits, push_all, push_decimal, push_decimal_succ};
use crate::mock_tty::program::{Program, ProgramKind, ProgramModel, Signal, TermiosMode};

verus! {

/// Editing mode.
#[derive(Clone, Copy, Debug, PartialEq, Eq, Structural)]
pub enum VimMode {
    Normal,
    Insert,
    Command,
}

/// Mathematical state of the editor.
pub struct VimView {
    pub mode: VimMode,
    pub buffer: Seq<Seq<u8>>,
    pub row: int,
    pub col: int,
    pub cmd: Seq<u8>,
    pub status: Seq<u8>,
    pub last: Option<u8>,
    pub cols: u16,
    pub rows: u16,
    pub exit: bool,
}

/// The cursor sits on an existing line, at most one past its end.
pub open spec fn vim_wf(v: VimView) -> bool {
    &&& v.buffer.len() > 0
    &&& 0 <= v.row < v.buffer.len()
    &&& 0 <= v.col <= v.buffer[v.row].len()
}

pub open spec fn line_len(v: VimView, r: int) -> int {
    if 0 <= r < v.buffer.len() { v.buffer[r].len() as int } else { 0 }
}

pub open spec fn sat_dec(n: int) -> int {
    if n > 0 { n - 1 } else { 0 }
}

/// Keep the cursor on an existing line and on a character of it.
pub open spec fn spec_clamp(v: VimView) -> VimView {
    let buf = if v.buffer.len() == 0 { seq![Seq::<u8>::empty()] } else { v.buffer };
    let row = if v.row < buf.len() - 1 { v.row } else { buf.len() - 1 };
    let max = buf[row].len() as int;
    let col = if v.col >= max { sat_dec(max) } else { v.col };
    VimView { buffer: buf, row, col, ..v }
}

pub open spec fn welcome() -> Seq<Seq<u8>> {
    seq![
        "BedTerm vim-lite".spec_bytes(),
        "----------------".spec_bytes(),
        "NORMAL: h j k l 0 $ x dd gg G i a o :".spec_bytes(),
        "INSERT: <typed text>  ESC to NORMAL".spec_bytes(),
        "COMMAND: :q :w :wq  ESC to abort".spec_bytes(),
        Seq::<u8>::empty(),
    ]
}

/// The editor as it starts: the welcome text, cursor at the top left,
/// an 80x24 screen.
pub open spec fn vim_initial() -> VimView {
    VimView {
        mode: VimMode::Normal,
        buffer: welcome(),
        row: 0,
        col: 0,
        cmd: Seq::empty(),
        status: Seq::empty(),
        last: None,
        cols: 80,
        rows: 24,
        exit: false,
    }
}

/// One key in NORMAL mode.
pub open spec fn spec_normal(v: VimView, b: u8) -> VimView {
    let w = VimView { status: Seq::empty(), last: None, ..v };
    let len = line_len(w, w.row);
    if v.last == Some(0x67u8) && b == 0x67 {
        VimView { row: 0, col: 0, ..w }
    } else if v.last == Some(0x64u8) && b == 0x64 {
        spec_clamp(VimView { buffer: w.buffer.remove(w.row), ..w })
    } else if b == 0x67 {
        VimView { last: Some(0x67u8), ..w }
    } else if b == 0x64 {
        VimView { last: Some(0x64u8), ..w }
    } else if b == 0x68 {
        if w.col > 0 { VimView { col: w.col - 1, ..w } } else { w }
    } else if b == 0x6C {
        if w.col + 1 < len { VimView { col: w.col + 1, ..w } } else { w }
    } else if b == 0x6A {
        if w.row + 1 < w.buffer.len() { spec_clamp(VimView { row: w.row + 1, ..w }) } else { w }
    } else if b == 0x6B {
        if w.row > 0 { spec_clamp(VimView { row: w.row - 1, ..w }) } else { w }
    } else if b == 0x30 {
        VimView { col: 0, ..w }
    } else if b == 0x24 {
        VimView { col: sat_dec(len), ..w }
    } else if b == 0x47 {
        VimView { row: sat_dec(w.buffer.len() as int), col: 0, ..w }
    } else if b == 0x78 {
        if w.col < len {
            spec_clamp(VimView { buffer: w.buffer.update(w.row, w.buffer[w.row].remove(w.col)), ..w })
        } else {
            w
        }
    } else if b == 0x69 {
        VimView { mode: VimMode::Insert, ..w }
    } else if b == 0x61 {
        VimView { col: if w.col + 1 < len { w.col + 1 } else { len }, mode: VimMode::Insert, ..w }
    } else if b == 0x6F {
        VimView {
            buffer: w.buffer.insert(w.row + 1, Seq::empty()),
            row: w.row + 1,
            col: 0,
            mode: VimMode::Insert,
            ..w
        }
    } else if b == 0x3A {
        VimView { cmd: Seq::empty(), mode: VimMode::Command, ..w }
    } else {
        w
    }
}

/// A NORMAL-mode key keeps the editor well-formed: the buffer keeps a
/// line (deleting the only line leaves one empty line) and the cursor stays
/// on a line, at most one past its last character.
pub proof fn law_normal_keeps_wf(v: VimView, b: u8)
    requires
        vim_wf(v),
    ensures
        vim_wf(spec_normal(v, b)),
{
}


pub open spec fn is_printable(b: u8) -> bool {
    0x20 <= b <= 0x7E
}

/// One key in INSERT mode.
pub open spec fn spec_insert(v: VimView, b: u8) -> VimView {
    let line = v.buffer[v.row];
    if b == 0x1B {
        VimView { mode: VimMode::Normal, ..v }
    } else if b == 0x7F || b == 0x08 {
        if v.col > 0 {
            VimView { buffer: v.buffer.update(v.row, line.remove(v.col - 1)), col: v.col - 1, ..v }
        } else {
            v
        }
    } else if b == 0x0D || b == 0x0A {
        VimView {
            buffer: v.buffer.update(v.row, line.subrange(0, v.col)).insert(
                v.row + 1,
                line.subrange(v.col, line.len() as int),
            ),
            row: v.row + 1,
            col: 0,
            ..v
        }
    } else if is_printable(b) {
        VimView { buffer: v.buffer.update(v.row, line.insert(v.col, b)), col: v.col + 1, ..v }
    } else {
        v
    }
}

/// `ESC [ ? 1049 h ESC [ ? 25 h`
pub open spec fn enter_alt() -> Seq<u8> {
    "\x1B[?1049h\x1B[?25h".spec_bytes()
}

/// `ESC [ ? 1049 l ESC [ 0 SP q`
pub open spec fn leave_alt() -> Seq<u8> {
    "\x1B[?1049l\x1B[0 q".spec_bytes()
}

/// One key in COMMAND mode, with the output it writes.
pub open spec fn spec_command(v: VimView, b: u8) -> (VimView, Seq<u8>) {
    if b == 0x1B {
        (VimView { mode: VimMode::Normal, cmd: Seq::empty(), ..v }, Seq::empty())
    } else if b == 0x0D || b == 0x0A {
        let c = v.cmd;
        let w = VimView { cmd: Seq::empty(), ..v };
        if c == "q".spec_bytes() || c == "q!".spec_bytes() {
            (VimView { exit: true, ..w }, leave_alt())
        } else if c == "w".spec_bytes() {
            (VimView { status: "written".spec_bytes(), mode: VimMode::Normal, ..w }, Seq::empty())
        } else if c == "wq".spec_bytes() {
            (VimView { status: "written".spec_bytes(), exit: true, ..w }, leave_alt())
        } else {
            (VimView { status: "E:".spec_bytes() + c, mode: VimMode::Normal, ..w }, Seq::empty())
        }
    } else if b == 0x7F || b == 0x08 {
        (VimView { cmd: if v.cmd.len() > 0 { v.cmd.drop_last() } else { v.cmd }, ..v }, Seq::empty())
    } else if is_printable(b) {
        (VimView { cmd: v.cmd.push(b), ..v }, Seq::empty())
    } else {
        (v, Seq::empty())
    }
}

/// The text of the status bar.
pub open spec fn status_line(v: VimView) -> Seq<u8> {
    match v.mode {
        VimMode::Normal => "-- NORMAL --  ".spec_bytes() + v.status,
        VimMode::Insert => "-- INSERT --".spec_bytes(),
        VimMode::Command => seq![0x3Au8] + v.cmd,
    }
}

/// `s` padded on the right with spaces to at least `w` bytes.
pub open spec fn pad_right(s: Seq<u8>, w: int) -> Seq<u8> {
    if s.len() < w { s + Seq::new((w - s.len()) as nat, |i: int| 0x20u8) } else { s }
}

/// The first `k` lines, each followed by CR LF.
pub open spec fn spec_lines(buf: Seq<Seq<u8>>, k: int) -> Seq<u8>
    decreases k,
{
    if k <= 0 {
        Seq::empty()
    } else {
        spec_lines(buf, k - 1) + buf[k - 1] + seq![0x0Du8, 0x0A]
    }
}

/// How many buffer lines fit above the status bar.
pub open spec fn shown_lines(v: VimView) -> int {
    if v.rows == 0 {
        0
    } else if v.buffer.len() < v.rows - 1 {
        v.buffer.len() as int
    } else {
        v.rows - 1
    }
}

pub open spec fn csi() -> Seq<u8> {
    seq![0x1Bu8, 0x5B]
}

/// The status bar: reverse video on the last row, padded to the width.
pub open spec fn status_bar(rows: u16, cols: u16, text: Seq<u8>) -> Seq<u8> {
    csi() + dec_digits(rows as nat) + ";1H\x1B[7m".spec_bytes() + pad_right(text, cols as int)
        + "\x1B[0m".spec_bytes()
}

/// Cursor placement and shape (bar in INSERT, block otherwise).
pub open spec fn cursor_tail(row: int, col: int, insert: bool) -> Seq<u8> {
    csi() + dec_digits((row + 1) as nat) + seq![0x3Bu8] + dec_digits((col + 1) as nat) + seq![0x48u8]
        + if insert { "\x1B[6 q".spec_bytes() } else { "\x1B[2 q".spec_bytes() }
}

/// The full screen for state `v`.
pub open spec fn spec_redraw(v: VimView) -> Seq<u8> {
    "\x1B[2J\x1B[H".spec_bytes() + spec_lines(v.buffer, shown_lines(v))
        + status_bar(v.rows, v.cols, status_line(v))
        + cursor_tail(v.row, v.col, v.mode == VimMode::Insert)
}

/// Backspace in INSERT mode deletes the byte before the cursor: the
/// cursor's line loses exactly that byte (one byte shorter, the rest in
/// place), the cursor steps back one column, every other line stays, and
/// the editor stays in INSERT mode; at the start of a line nothing changes.
pub proof fn law_insert_backspace_deletes(v: VimView, b: u8)
    requires
        vim_wf(v),
        !v.exit,
        v.mode == VimMode::Insert,
        b == 0x7F || b == 0x08,
    ensures
        ({
            let w = spec_vim_byte(v, b).0;
            let line = v.buffer[v.row];
            &&& w.mode == VimMode::Insert
            &&& w.row == v.row
            &&& w.buffer.len() == v.buffer.len()
            &&& forall|r: int| 0 <= r < v.buffer.len() && r != v.row ==> #[trigger] w.buffer[r] == v.buffer[r]
            &&& v.col > 0 ==> {
                &&& w.buffer[v.row] == line.subrange(0, v.col - 1) + line.subrange(v.col, line.len() as int)
                &&& w.buffer[v.row].len() == line.len() - 1
                &&& w.col == v.col - 1
            }
            &&& v.col == 0 ==> w.buffer == v.buffer && w.col == 0
        }),
{
    let line = v.buffer[v.row];
    if v.col > 0 {
        assert(line.remove(v.col - 1) =~= line.subrange(0, v.col - 1) + line.subrange(v.col, line.len() as int));
    }
}

/// Typing in INSERT mode: a printable byte goes in at the cursor and the
/// cursor moves past it; Enter splits the line at the cursor, the part
/// after it becoming a new line below, where the cursor goes to column 0.
pub proof fn law_insert_types_and_splits(v: VimView, b: u8)
    requires
        vim_wf(v),
        !v.exit,
        v.mode == VimMode::Insert,
    ensures
        ({
            let w = spec_vim_byte(v, b).0;
            let line = v.buffer[v.row];
            &&& 0x20 <= b < 0x7F ==> {
                &&& w.buffer[v.row] == line.subrange(0, v.col) + seq![b] + line.subrange(v.col, line.len() as int)
                &&& w.buffer.len() == v.buffer.len()
                &&& w.col == v.col + 1
                &&& w.row == v.row
            }
            &&& (b == 0x0D || b == 0x0A) ==> {
                &&& w.buffer.len() == v.buffer.len() + 1
                &&& w.buffer[v.row] == line.subrange(0, v.col)
                &&& w.buffer[v.row + 1] == line.subrange(v.col, line.len() as int)
                &&& w.buffer[v.row] + w.buffer[v.row + 1] == line
                &&& forall|r: int| 0 <= r < v.row ==> #[trigger] w.buffer[r] == v.buffer[r]
                &&& forall|r: int| v.row < r < v.buffer.len() ==> #[trigger] w.buffer[r + 1] == v.buffer[r]
                &&& w.row == v.row + 1
                &&& w.col == 0
            }
        }),
{
    let line = v.buffer[v.row];
    assert(line.insert(v.col, b) =~= line.subrange(0, v.col) + seq![b] + line.subrange(v.col, line.len() as int));
    assert(line.subrange(0, v.col) + line.subrange(v.col, line.len() as int) =~= line);
}

/// One input byte: the new state and the bytes written.
pub open spec fn spec_vim_byte(v: VimView, b: u8) -> (VimView, Seq<u8>) {
    if v.exit {
        (v, Seq::empty())
    } else {
        let (w, o) = match v.mode {
            VimMode::Normal => (spec_normal(v, b), Seq::<u8>::empty()),
            VimMode::Insert => (spec_insert(v, b), Seq::<u8>::empty()),
            VimMode::Command => spec_command(v, b),
        };
        if w.exit { (w, o) } else { (w, o + spec_redraw(w)) }
    }
}

/// A resize: the screen is at least 20x5.
pub open spec fn spec_vim_resize(v: VimView, cols: u16, rows: u16) -> VimView {
    spec_clamp(VimView {
        cols: if cols < 20 { 20 } else { cols },
        rows: if rows < 5 { 5 } else { rows },
        ..v
    })
}

// ---------------------------------------------------------------------------
// Executable state
// ---------------------------------------------------------------------------

struct VimState {
    mode: VimMode,
    buffer: Vec<Vec<u8>>,
    cursor_row: usize,
    cursor_col: usize,
    cmd_buf: Vec<u8>,
    status: Vec<u8>,
    last_normal_key: Option<u8>,
    cols: u16,
    rows: u16,
    exit: bool,
}

spec fn lines_view(b: Seq<Vec<u8>>) -> Seq<Seq<u8>> {
    b.map_values(|l: Vec<u8>| l@)
}

fn copy_of(src: &[u8]) -> (r: Vec<u8>)
    ensures
        r@ == src@,
{
    let mut v: Vec<u8> = Vec::new();
    push_all(&mut v, src);
    assert(v@ =~= src@);
    v
}

impl VimState {
    spec fn view(&self) -> VimView {
        VimView {
            mode: self.mode,
            buffer: lines_view(self.buffer@),
            row: self.cursor_row as int,
            col: self.cursor_col as int,
            cmd: self.cmd_buf@,
            status: self.status@,
            last: self.last_normal_key,
            cols: self.cols,
            rows: self.rows,
            exit: self.exit,
        }
    }

    fn new() -> (s: VimState)
        ensures
            s.view() == vim_initial(),
            vim_wf(s.view()),
    {
        let mut buffer: Vec<Vec<u8>> = Vec::new();
        buffer.push(copy_of("BedTerm vim-lite".as_bytes()));
        buffer.push(copy_of("----------------".as_bytes()));
        buffer.push(copy_of("NORMAL: h j k l 0 $ x dd gg G i a o :".as_bytes()));
        buffer.push(copy_of("INSERT: <typed text>  ESC to NORMAL".as_bytes()));
        buffer.push(copy_of("COMMAND: :q :w :wq  ESC to abort".as_bytes()));
        buffer.push(Vec::new());
        let s = VimState {
            mode: VimMode::Normal,
            buffer,
            cursor_row: 0,
            cursor_col: 0,
            cmd_buf: Vec::new(),
            status: Vec::new(),
            last_normal_key: None,
            cols: 80,
            rows: 24,
            exit: false,
        };
        assert(lines_view(s.buffer@) =~= welcome());
        s
    }

    fn line_len(&self, row: usize) -> (n: usize)
        ensures
            n == line_len(self.view(), row as int),
    {
        if row < self.buffer.len() {
            self.buffer[row].len()
        } else {
            0
        }
    }

    /// Replace line `row`.
    fn set_line(&mut self, row: usize, line: Vec<u8>)
        requires
            row < old(self).buffer@.len(),
        ensures
            final(self).view() == (VimView {
                buffer: old(self).view().buffer.update(row as int, line@),
                ..old(self).view()
            }),
    {
        let ghost old_lines = lines_view(self.buffer@);
        let _ = self.buffer.remove(row);
        self.buffer.insert(row, line);
        assert(lines_view(self.buffer@) =~= old_lines.update(row as int, line@));
    }

    fn clamp_cursor(&mut self)
        ensures
            final(self).view() == spec_clamp(old(self).view()),
            vim_wf(final(self).view()),
    {
        let ghost v = self.view();
        if self.buffer.len() == 0 {
            self.buffer.push(Vec::new());
            assert(lines_view(self.buffer@) =~= seq![Seq::<u8>::empty()]);
        }
        let last = self.buffer.len() - 1;
        if self.cursor_row >= last {
            self.cursor_row = last;
        }
        let max = self.line_len(self.cursor_row);
        if self.cursor_col >= max {
            self.cursor_col = if max > 0 { max - 1 } else { 0 };
        }
    }

    fn on_normal(&mut self, b: u8)
        requires
            vim_wf(old(self).view()),
        ensures
            final(self).view() == spec_normal(old(self).view(), b),
            vim_wf(final(self).view()),
    {
        let ghost v = self.view();
        self.status.clear();
        let pending = self.last_normal_key;
        self.last_normal_key = None;
        let row = self.cursor_row;
        let len = self.line_len(row);
        if pending == Some(0x67u8) && b == 0x67 {
            self.cursor_row = 0;
            self.cursor_col = 0;
        } else if pending == Some(0x64u8) && b == 0x64 {
            let ghost before = lines_view(self.buffer@);
            let _ = self.buffer.remove(row);
            assert(lines_view(self.buffer@) =~= before.remove(row as int));
            self.clamp_cursor();
        } else if b == 0x67 {
            self.last_normal_key = Some(0x67);
        } else if b == 0x64 {
            self.last_normal_key = Some(0x64);
        } else if b == 0x68 {
            if self.cursor_col > 0 {
                self.cursor_col = self.cursor_col - 1;
            }
        } else if b == 0x6C {
            if len > 0 && self.cursor_col < len - 1 {
                self.cursor_col = self.cursor_col + 1;
            }
        } else if b == 0x6A {
            if row < self.buffer.len() - 1 {
                self.cursor_row = row + 1;
                self.clamp_cursor();
            }
        } else if b == 0x6B {
            if row > 0 {
                self.cursor_row = row - 1;
                self.clamp_cursor();
            }
        } else if b == 0x30 {
            self.cursor_col = 0;
        } else if b == 0x24 {
            self.cursor_col = if len > 0 { len - 1 } else { 0 };
        } else if b == 0x47 {
            self.cursor_row = if self.buffer.len() > 0 { self.buffer.len() - 1 } else { 0 };
            self.cursor_col = 0;
        } else if b == 0x78 {
            if self.cursor_col < len {
                let mut line = copy_of(self.buffer[row].as_slice());
                let _ = line.remove(self.cursor_col);
                self.set_line(row, line);
                self.clamp_cursor();
            }
        } else if b == 0x69 {
            self.mode = VimMode::Insert;
        } else if b == 0x61 {
            self.cursor_col = if len > 0 && self.cursor_col < len - 1 { self.cursor_col + 1 } else { len };
            self.mode = VimMode::Insert;
        } else if b == 0x6F {
            let ghost before = lines_view(self.buffer@);
            let n = self.buffer.len();
            assert(row < n);
            self.buffer.insert(row + 1, Vec::new());
            assert(lines_view(self.buffer@) =~= before.insert(row + 1, Seq::<u8>::empty()));
            self.cursor_row = row + 1;
            self.cursor_col = 0;
            self.mode = VimMode::Insert;
        } else if b == 0x3A {
            self.cmd_buf.clear();
            self.mode = VimMode::Command;
        }
    }

    fn on_insert(&mut self, b: u8)
        requires
            vim_wf(old(self).view()),
        ensures
            final(self).view() == spec_insert(old(self).view(), b),
            vim_wf(final(self).view()),
    {
        let row = self.cursor_row;
        let col = self.cursor_col;
        if b == 0x1B {
            self.mode = VimMode::Normal;
        } else if b == 0x7F || b == 0x08 {
            if col > 0 {
                let mut line = copy_of(self.buffer[row].as_slice());
                let _ = line.remove(col - 1);
                self.set_line(row, line);
                self.cursor_col = col - 1;
            }
        } else if b == 0x0D || b == 0x0A {
            let mut line = copy_of(self.buffer[row].as_slice());
            let tail = line.split_off(col);
            self.set_line(row, line);
            assert(row < self.buffer@.len());
            let ghost before = lines_view(self.buffer@);
            let ghost tail_view = tail@;
            let n = self.buffer.len();
            assert(row < n);
            self.buffer.insert(row + 1, tail);
            assert(lines_view(self.buffer@) =~= before.insert(row + 1, tail_view));
            self.cursor_row = row + 1;
            self.cursor_col = 0;
        } else if 0x20 <= b && b <= 0x7E {
            let mut line = copy_of(self.buffer[row].as_slice());
            line.insert(col, b);
            let n = line.len();
            assert(col < n);
            self.set_line(row, line);
            self.cursor_col = col + 1;
        }
    }

    fn on_command(&mut self, b: u8, out: &mut Vec<u8>)
        requires
            vim_wf(old(self).view()),
        ensures
            final(self).view() == spec_command(old(self).view(), b).0,
            final(out)@ == old(out)@ + spec_command(old(self).view(), b).1,
            vim_wf(final(self).view()),
    {
        if b == 0x1B {
            self.mode = VimMode::Normal;
            self.cmd_buf.clear();
        } else if b == 0x0D || b == 0x0A {
            let c = self.cmd_buf.as_slice();
            if bytes_eq(c, "q".as_bytes()) || bytes_eq(c, "q!".as_bytes()) {
                push_all(out, "\x1B[?1049l\x1B[0 q".as_bytes());
                self.exit = true;
            } else if bytes_eq(c, "w".as_bytes()) {
                self.status = copy_of("written".as_bytes());
                self.mode = VimMode::Normal;
            } else if bytes_eq(c, "wq".as_bytes()) {
                self.status = copy_of("written".as_bytes());
                push_all(out, "\x1B[?1049l\x1B[0 q".as_bytes());
                self.exit = true;
            } else {
                let mut s = copy_of("E:".as_bytes());
                push_all(&mut s, c);
                self.status = s;
                self.mode = VimMode::Normal;
            }
            self.cmd_buf.clear();
            assert(out@ =~= old(out)@ + spec_command(old(self).view(), b).1);
        } else if b == 0x7F || b == 0x08 {
            let _ = self.cmd_buf.pop();
            assert(self.cmd_buf@ =~= spec_command(old(self).view(), b).0.cmd);
        } else if 0x20 <= b && b <= 0x7E {
            self.cmd_buf.push(b);
        }
        assert(out@ =~= old(out)@ + spec_command(old(self).view(), b).1);
    }

    fn status_line(&self) -> (r: Vec<u8>)
        ensures
            r@ == status_line(self.view()),
    {
        match self.mode {
            VimMode::Normal => {
                let mut s = copy_of("-- NORMAL --  ".as_bytes());
                push_all(&mut s, self.status.as_slice());
                s
            },
            VimMode::Insert => copy_of("-- INSERT --".as_bytes()),
            VimMode::Command => {
                let mut s: Vec<u8> = Vec::new();
                s.push(0x3A);
                push_all(&mut s, self.cmd_buf.as_slice());
                assert(s@ =~= seq![0x3Au8] + self.cmd_buf@);
                s
            },
        }
    }

    fn push_lines(&self, out: &mut Vec<u8>)
        requires
            vim_wf(self.view()),
        ensures
            final(out)@ == old(out)@ + spec_lines(self.view().buffer, shown_lines(self.view())),
    {
        let ghost v = self.view();
        let ghost head = out@;
        let rows = self.rows as usize;
        let mut i: usize = 0;
        assert(out@ =~= head + spec_lines(v.buffer, 0));
        while i < self.buffer.len() && i + 1 < rows
            invariant
                v == self.view(),
                rows == v.rows,
                i <= self.buffer@.len(),
                i <= shown_lines(v),
                out@ == head + spec_lines(v.buffer, i as int),
            decreases self.buffer@.len() - i,
        {
            push_all(out, self.buffer[i].as_slice());
            out.push(0x0D);
            out.push(0x0A);
            i = i + 1;
            assert(v.buffer[i - 1] == self.buffer@[i - 1]@);
            assert(out@ =~= head + spec_lines(v.buffer, i as int));
        }
    }

    fn redraw(&self, out: &mut Vec<u8>)
        requires
            vim_wf(self.view()),
        ensures
            final(out)@ == old(out)@ + spec_redraw(self.view()),
    {
        let ghost v = self.view();
        push_all(out, "\x1B[2J\x1B[H".as_bytes());
        self.push_lines(out);
        let status = self.status_line();
        push_status_bar(out, self.rows, self.cols, status.as_slice());
        let insert = match self.mode {
            VimMode::Insert => true,
            _ => false,
        };
        push_cursor_tail(out, self.cursor_row, self.cursor_col, insert);
        assert(out@ =~= old(out)@ + spec_redraw(v));
    }
}

fn push_status_bar(out: &mut Vec<u8>, rows: u16, cols: u16, text: &[u8])
    ensures
        final(out)@ == old(out)@ + status_bar(rows, cols, text@),
{
    out.push(0x1B);
    out.push(0x5B);
    push_decimal(out, rows as u64);
    push_all(out, ";1H\x1B[7m".as_bytes());
    push_padded(out, text, cols as usize);
    push_all(out, "\x1B[0m".as_bytes());
    assert(out@ =~= old(out)@ + status_bar(rows, cols, text@));
}

fn push_cursor_tail(out: &mut Vec<u8>, row: usize, col: usize, insert: bool)
    ensures
        final(out)@ == old(out)@ + cursor_tail(row as int, col as int, insert),
{
    out.push(0x1B);
    out.push(0x5B);
    push_decimal_succ(out, row as u64);
    out.push(0x3B);
    push_decimal_succ(out, col as u64);
    out.push(0x48);
    if insert {
        push_all(out, "\x1B[6 q".as_bytes());
    } else {
        push_all(out, "\x1B[2 q".as_bytes());
    }
    assert(out@ =~= old(out)@ + cursor_tail(row as int, col as int, insert));
}

/// Append `s`, padded with spaces to at least `width` bytes.
fn push_padded(out: &mut Vec<u8>, s: &[u8], width: usize)
    ensures
        final(out)@ == old(out)@ + pad_right(s@, width as int),
{
    push_all(out, s);
    let ghost padded_start = out@;
    let mut k = s.len();
    while k < width
        invariant
            s@.len() <= k,
            k <= width || k == s@.len(),
            out@ == padded_start + Seq::new((k - s@.len()) as nat, |j: int| 0x20u8),
        decreases width - k,
    {
        out.push(0x20);
        k = k + 1;
        assert(out@ =~= padded_start + Seq::new((k - s@.len()) as nat, |j: int| 0x20u8));
    }
    proof {
        if s@.len() < width {
            assert(out@ =~= old(out)@ + (s@ + Seq::new((width - s@.len()) as nat, |j: int| 0x20u8)));
        } else {
            assert(out@ =~= old(out)@ + s@);
        }
    }
}

// ---------------------------------------------------------------------------
// The program
// ---------------------------------------------------------------------------

/// The editor program.
pub struct VimLite {
    st: VimState,
}

impl View for VimLite {
    type V = VimView;

    closed spec fn view(&self) -> VimView {
        self.st.view()
    }
}

impl VimLite {
    #[verifier::type_invariant]
    spec fn inv(&self) -> bool {
        vim_wf(self.st.view())
    }

    pub fn new() -> (r: VimLite)
        ensures
            r@ == vim_initial(),
            vim_wf(r@),
    {
        VimLite { st: VimState::new() }
    }
}

impl VimLite {
    /// Move the editor state out, leaving a fresh editor behind.
    fn take_state(&mut self) -> (s: VimState)
        ensures
            s.view() == old(self)@,
            vim_wf(s.view()),
    {
        let mut tmp = VimLite { st: VimState::new() };
        std::mem::swap(self, &mut tmp);
        proof { use_type_invariant(&tmp); }
        tmp.st
    }
}

impl Default for VimLite {
    fn default() -> (r: VimLite)
        ensures
            r@ == vim_initial(),
    {
        VimLite::new()
    }
}

proof fn lemma_prefix(a: Seq<u8>, b: Seq<u8>)
    ensures
        a.is_prefix_of(a + b),
{
    assert((a + b).subrange(0, a.len() as int) =~= a);
}

impl Program for VimLite {
    open spec fn model(&self) -> ProgramModel {
        ProgramModel::Vim(self@)
    }

    fn wants_raw(&self) -> (r: bool)
        ensures
            r,
    {
        true
    }

    fn boot(&mut self, out: &mut Vec<u8>)
        ensures
            final(self)@ == old(self)@,
            final(out)@ == old(out)@ + enter_alt() + spec_redraw(old(self)@),
    {
        proof { use_type_invariant(&*self); }
        push_all(out, "\x1B[?1049h\x1B[?25h".as_bytes());
        self.st.redraw(out);
        proof { lemma_prefix(old(out)@, enter_alt() + spec_redraw(old(self)@)); }
        assert(out@ =~= old(out)@ + enter_alt() + spec_redraw(old(self)@));
    }

    fn on_byte(&mut self, byte: u8, out: &mut Vec<u8>)
        ensures
            vim_wf(old(self)@),
            final(self)@ == spec_vim_byte(old(self)@, byte).0,
            final(out)@ == old(out)@ + spec_vim_byte(old(self)@, byte).1,
            vim_wf(final(self)@),
    {
        proof { use_type_invariant(&*self); }
        let ghost v = self@;
        if self.st.exit {
            assert(out@ =~= old(out)@ + Seq::<u8>::empty());
            proof { lemma_prefix(old(out)@, Seq::<u8>::empty()); }
            return;
        }
        let mut st = self.take_state();
        match st.mode {
            VimMode::Normal => st.on_normal(byte),
            VimMode::Insert => st.on_insert(byte),
            VimMode::Command => st.on_command(byte, out),
        }
        if !st.exit {
            st.redraw(out);
        }
        self.st = st;
        assert(out@ =~= old(out)@ + spec_vim_byte(v, byte).1);
        proof { lemma_prefix(old(out)@, spec_vim_byte(v, byte).1); }
    }

    fn on_resize(&mut self, cols: u16, rows: u16, out: &mut Vec<u8>)
        ensures
            vim_wf(old(self)@),
            final(self)@ == spec_vim_resize(old(self)@, cols, rows),
            final(out)@ == old(out)@ + spec_redraw(spec_vim_resize(old(self)@, cols, rows)),
            vim_wf(final(self)@),
    {
        proof { use_type_invariant(&*self); }
        let mut st = self.take_state();
        st.cols = if cols < 20 { 20 } else { cols };
        st.rows = if rows < 5 { 5 } else { rows };
        st.clamp_cursor();
        st.redraw(out);
        self.st = st;
        proof { lemma_prefix(old(out)@, spec_redraw(spec_vim_resize(old(self)@, cols, rows))); }
    }

    fn on_signal(&mut self, sig: Signal, out: &mut Vec<u8>)
        ensures
            final(self)@ == old(self)@,
            final(out)@ == old(out)@,
    {
        proof { lemma_prefix(old(out)@, Seq::<u8>::empty()); assert(old(out)@ + Seq::<u8>::empty() =~= old(out)@); }
    }
    /// Time does not move the editor.
    fn on_tick(&mut self, now_ms: u64, out: &mut Vec<u8>) {
        assert(out@ =~= old(out)@ + Seq::<u8>::empty());
        assert(out@.subrange(0, old(out)@.len() as int) =~= old(out)@);
    }

    /// Never asks for another line discipline.
    fn mode_request(&mut self) -> (r: Option<TermiosMode>) {
        None
    }

    /// Never hands over to another program.
    fn pending_switch(&mut self) -> (r: Option<ProgramKind>) {
        None
    }
}

} // verus!
