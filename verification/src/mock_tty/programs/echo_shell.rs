//! A line-oriented debug shell: a prompt, a handful of demo commands, a
//! raw "keys" mode that names every byte, and timed alternate-screen and
//! stress demos driven by ticks.

use vstd::prelude::*;
use vstd::string::StringSliceAdditionalSpecFns;
use vstd::utf8::valid_utf8;
use crate::bytes::{bytes_eq, dec_digits, push_all, push_decimal, push_range};
use crate::mock_tty::program::{Program, ProgramKind, ProgramModel, Signal, TermiosMode};
use crate::text::{spec_trim, trim_bounds, utf8_valid};

verus! {

/// The command a line holds: the line without leading and trailing white
/// space, or nothing when it is not UTF-8.
pub open spec fn shell_command(line: Seq<u8>) -> Seq<u8> {
    if valid_utf8(line) { spec_trim(line) } else { Seq::empty() }
}

/// The command a line holds (see [`shell_command`]).
pub fn command_of(line: &[u8]) -> (r: Vec<u8>)
    ensures
        r@ == shell_command(line@),
{
    let mut out: Vec<u8> = Vec::new();
    if !utf8_valid(line) {
        return out;
    }
    let (i, j) = trim_bounds(line);
    push_range(&mut out, line, i, j);
    out
}

// ---------------------------------------------------------------------------
// The shell
// ---------------------------------------------------------------------------

pub open spec fn prompt() -> Seq<u8> {
    "bedterm-debug$ ".spec_bytes()
}

pub open spec fn csi() -> Seq<u8> {
    seq![0x1Bu8, 0x5B]
}

/// Mathematical state of the shell.
pub struct EchoView {
    pub keys_mode: bool,
    pub alt_until_ms: Option<u64>,
    pub stress_until_ms: Option<u64>,
    pub stress_rng: u32,
    pub pending_mode: Option<TermiosMode>,
}

pub open spec fn echo_initial() -> EchoView {
    EchoView {
        keys_mode: false,
        alt_until_ms: None,
        stress_until_ms: None,
        stress_rng: 0x1234_5678,
        pending_mode: None,
    }
}

/// Uppercase hex digit of `v < 16`.
pub open spec fn hex_upper(v: int) -> u8 {
    if v < 10 { (0x30 + v) as u8 } else { (0x41 + v - 10) as u8 }
}

/// Short name of a control byte, empty for other bytes.
pub open spec fn spec_mnemonic(b: u8) -> Seq<u8> {
    if b == 0x1B {
        "ESC".spec_bytes()
    } else if b == 0x0D {
        "CR".spec_bytes()
    } else if b == 0x0A {
        "LF".spec_bytes()
    } else if b == 0x09 {
        "TAB".spec_bytes()
    } else if b == 0x7F {
        "DEL".spec_bytes()
    } else if b == 0x08 {
        "BS".spec_bytes()
    } else if b == 0x03 {
        "^C".spec_bytes()
    } else if b == 0x04 {
        "^D".spec_bytes()
    } else if b == 0x20 {
        "SP".spec_bytes()
    } else {
        Seq::empty()
    }
}

/// The standard ASCII abbreviations of the control bytes 0x00..=0x1F, the
/// space and DEL; empty for other bytes.
pub open spec fn ascii_abbreviation(b: u8) -> Seq<u8> {
    let names = seq![
        "NUL".spec_bytes(), "SOH".spec_bytes(), "STX".spec_bytes(), "ETX".spec_bytes(), "EOT".spec_bytes(),
        "ENQ".spec_bytes(), "ACK".spec_bytes(), "BEL".spec_bytes(), "BS".spec_bytes(), "HT".spec_bytes(),
        "LF".spec_bytes(), "VT".spec_bytes(), "FF".spec_bytes(), "CR".spec_bytes(), "SO".spec_bytes(),
        "SI".spec_bytes(), "DLE".spec_bytes(), "DC1".spec_bytes(), "DC2".spec_bytes(), "DC3".spec_bytes(),
        "DC4".spec_bytes(), "NAK".spec_bytes(), "SYN".spec_bytes(), "ETB".spec_bytes(), "CAN".spec_bytes(),
        "EM".spec_bytes(), "SUB".spec_bytes(), "ESC".spec_bytes(), "FS".spec_bytes(), "GS".spec_bytes(),
        "RS".spec_bytes(), "US".spec_bytes()
    ];
    if b < 0x20 {
        names[b as int]
    } else if b == 0x20 {
        "SP".spec_bytes()
    } else if b == 0x7F {
        "DEL".spec_bytes()
    } else {
        Seq::empty()
    }
}

/// `name` is a name of the byte `b`: its ASCII abbreviation, `TAB` for the
/// horizontal tab, or caret notation (`^` and the byte plus 0x40) for a
/// control byte.
pub open spec fn names_byte(name: Seq<u8>, b: u8) -> bool {
    ||| name.len() > 0 && name == ascii_abbreviation(b)
    ||| b == 0x09 && name == "TAB".spec_bytes()
    ||| b < 0x20 && name == seq![0x5Eu8, (b + 0x40) as u8]
}

/// The value of an upper-case hexadecimal digit.
pub open spec fn hex_digit_value(d: u8) -> int {
    if 0x30 <= d <= 0x39 { d - 0x30 } else { d - 0x41 + 10 }
}

/// In keys mode every byte but `q` is printed as one line: `0x`, two
/// upper-case hex digits whose value is the byte, two spaces, a name that
/// is empty or names that very byte, and CR LF; the mode stays.
pub proof fn law_keys_line_names_the_byte(v: EchoView, b: u8)
    requires
        v.keys_mode,
        b != 0x71,
    ensures
        ({
            let (w, o) = spec_echo_byte(v, b);
            let name = o.subrange(6, o.len() - 2);
            &&& w == v
            &&& o.len() >= 8
            &&& o[0] == 0x30 && o[1] == 0x78
            &&& hex_digit_value(o[2]) * 16 + hex_digit_value(o[3]) == b
            &&& 0x30 <= o[2] <= 0x39 || 0x41 <= o[2] <= 0x46
            &&& 0x30 <= o[3] <= 0x39 || 0x41 <= o[3] <= 0x46
            &&& o[4] == 0x20 && o[5] == 0x20
            &&& o[o.len() - 2] == 0x0D && o[o.len() - 1] == 0x0A
            &&& name.len() == 0 || names_byte(name, b)
        }),
{
    if b == 0x03 || b == 0x04 {
        reveal_strlit("^C");
        reveal_strlit("^D");
        vstd::string::is_ascii_spec_bytes("^C");
        vstd::string::is_ascii_spec_bytes("^D");
        assert(vstd::string::is_ascii("^C"));
        assert(vstd::string::is_ascii("^D"));
        assert("^C".spec_bytes() =~= seq![0x5Eu8, 0x43u8]);
        assert("^D".spec_bytes() =~= seq![0x5Eu8, 0x44u8]);
    }
    let o = spec_echo_byte(v, b).1;
    let head = seq![0x30u8, 0x78, hex_upper(b as int / 16), hex_upper(b as int % 16), 0x20, 0x20];
    assert(o == head + spec_mnemonic(b) + seq![0x0Du8, 0x0A]);
    assert(o.subrange(6, o.len() - 2) =~= spec_mnemonic(b));
    assert(b as int / 16 * 16 + b as int % 16 == b);
}

/// One raw byte: in keys mode every byte is named, and `q` leaves.
pub open spec fn spec_echo_byte(v: EchoView, b: u8) -> (EchoView, Seq<u8>) {
    if !v.keys_mode {
        (v, Seq::empty())
    } else if b == 0x71 {
        (
            EchoView { keys_mode: false, pending_mode: Some(TermiosMode::Cooked), ..v },
            "\r\n[keys] exit\r\n".spec_bytes() + prompt(),
        )
    } else {
        (
            v,
            seq![0x30u8, 0x78, hex_upper(b as int / 16), hex_upper(b as int % 16), 0x20, 0x20]
                + spec_mnemonic(b) + seq![0x0Du8, 0x0A],
        )
    }
}

pub open spec fn reset_line() -> Seq<u8> {
    "\x1B[0m\r\n".spec_bytes()
}

/// The first `k` cells of the 16-colour row (SGR 30 and up).
pub open spec fn row16(k: nat) -> Seq<u8>
    decreases k,
{
    if k == 0 {
        Seq::empty()
    } else {
        row16((k - 1) as nat) + csi() + dec_digits((30 + k - 1) as nat) + "m  X  ".spec_bytes()
    }
}

/// The first `k` cells of the 256-colour row (palette 16 and up).
pub open spec fn row256(k: nat) -> Seq<u8>
    decreases k,
{
    if k == 0 {
        Seq::empty()
    } else {
        row256((k - 1) as nat) + "\x1B[38;5;".spec_bytes() + dec_digits((16 + k - 1) as nat) + "m##".spec_bytes()
    }
}

/// The first `k` cells of the true-colour gradient.
pub open spec fn row_true(k: nat) -> Seq<u8>
    decreases k,
{
    if k == 0 {
        Seq::empty()
    } else {
        let r = 8 * (k - 1);
        row_true((k - 1) as nat) + "\x1B[38;2;".spec_bytes() + dec_digits(r as nat) + seq![0x3Bu8]
            + dec_digits((255 - r) as nat) + ";0m**".spec_bytes()
    }
}

/// Output of `colors`.
pub open spec fn colors_demo() -> Seq<u8> {
    row16(8) + reset_line() + row256(16) + reset_line() + row_true(32) + reset_line()
}

/// One checkerboard cell of `cursor`.
pub open spec fn cursor_cell(row: nat, col: nat) -> Seq<u8> {
    csi() + dec_digits(row) + seq![0x3Bu8] + dec_digits(col) + seq![0x48u8]
        + if (row + col) % 2 == 0 { seq![0x23u8] } else { seq![0x2Eu8] }
}

/// Cells `1..=k` of checkerboard row `row`.
pub open spec fn cursor_cells(row: nat, k: nat) -> Seq<u8>
    decreases k,
{
    if k == 0 { Seq::empty() } else { cursor_cells(row, (k - 1) as nat) + cursor_cell(row, k) }
}

/// Rows `1..=k` of the checkerboard, 16 cells each.
pub open spec fn cursor_rows(k: nat) -> Seq<u8>
    decreases k,
{
    if k == 0 { Seq::empty() } else { cursor_rows((k - 1) as nat) + cursor_cells(k, 16) }
}

/// Output of `cursor`.
pub open spec fn cursor_demo() -> Seq<u8> {
    "\x1B[2J\x1B[H".spec_bytes() + cursor_rows(8) + "\x1B[10;1H".spec_bytes()
}

pub open spec fn altscreen_banner() -> Seq<u8> {
    "\x1B[?1049h\x1B[H\x1B[2JAlt-screen demo. Returning in 1.5s.\r\n".spec_bytes()
}

/// One completed line.
pub open spec fn spec_echo_line(v: EchoView, line: Seq<u8>) -> (EchoView, Seq<u8>) {
    let c = shell_command(line);
    if v.keys_mode {
        (v, Seq::empty())
    } else if c.len() == 0 {
        (v, prompt())
    } else if c == "clear".spec_bytes() {
        (v, "\x1B[2J\x1B[H".spec_bytes() + prompt())
    } else if c == "exit".spec_bytes() {
        (v, "bye\r\n".spec_bytes() + prompt())
    } else if c == "colors".spec_bytes() {
        (v, colors_demo() + prompt())
    } else if c == "cursor".spec_bytes() {
        (v, cursor_demo() + prompt())
    } else if c == "altscreen".spec_bytes() {
        (EchoView { alt_until_ms: Some(u64::MAX), ..v }, altscreen_banner() + prompt())
    } else if c == "stress".spec_bytes() {
        (EchoView { stress_until_ms: Some(u64::MAX), ..v }, prompt())
    } else if c == "keys".spec_bytes() {
        (
            EchoView { keys_mode: true, pending_mode: Some(TermiosMode::Raw), ..v },
            "[keys] press keys; 'q' to exit\r\n".spec_bytes(),
        )
    } else {
        (v, c + ": not found\r\n".spec_bytes() + prompt())
    }
}

/// The xorshift step of the stress generator.
pub open spec fn xorshift(x: u32) -> u32 {
    let a = x ^ (x << 13u32);
    let b = a ^ (a >> 17u32);
    b ^ (b << 5u32)
}

/// One random coloured `#` for state `x`.
pub open spec fn stress_cell(x: u32) -> Seq<u8> {
    csi() + dec_digits(((x >> 8u32) % 24 + 1) as nat) + seq![0x3Bu8] + dec_digits(((x >> 16u32) % 80 + 1) as nat)
        + "H\x1B[38;2;".spec_bytes() + dec_digits((x & 0xFF) as nat) + seq![0x3Bu8]
        + dec_digits(((x >> 8u32) & 0xFF) as nat) + seq![0x3Bu8] + dec_digits(((x >> 16u32) & 0xFF) as nat)
        + "m#".spec_bytes()
}

/// `k` stress steps from state `x`: the final state and the output.
pub open spec fn stress_run(x: u32, k: nat) -> (u32, Seq<u8>)
    decreases k,
{
    if k == 0 {
        (x, Seq::empty())
    } else {
        let (y, o) = stress_run(x, (k - 1) as nat);
        let z = xorshift(y);
        (z, o + stress_cell(z))
    }
}

pub open spec fn sat_add(a: u64, b: u64) -> u64 {
    if a + b > u64::MAX { u64::MAX } else { (a + b) as u64 }
}

/// A clock tick: arm or fire the alternate-screen timer, then arm, fire or
/// advance the stress demo.
pub open spec fn spec_echo_tick(v: EchoView, now: u64) -> (EchoView, Seq<u8>) {
    let (v1, o1) = match v.alt_until_ms {
        Some(d) => if d == u64::MAX {
            (EchoView { alt_until_ms: Some(sat_add(now, 1500)), ..v }, Seq::<u8>::empty())
        } else if now >= d {
            (EchoView { alt_until_ms: None, ..v }, "\x1B[?1049l".spec_bytes() + prompt())
        } else {
            (v, Seq::<u8>::empty())
        },
        None => (v, Seq::<u8>::empty()),
    };
    let (v2, o2) = match v1.stress_until_ms {
        Some(d) => if d == u64::MAX {
            (EchoView { stress_until_ms: Some(sat_add(now, 3000)), ..v1 }, Seq::<u8>::empty())
        } else if now >= d {
            (EchoView { stress_until_ms: None, ..v1 }, reset_line() + prompt())
        } else {
            let (x, o) = stress_run(v1.stress_rng, 16);
            (EchoView { stress_rng: x, ..v1 }, o)
        },
        None => (v1, Seq::<u8>::empty()),
    };
    (v2, o1 + o2)
}

/// A signal: `Int` cancels the demos and keys mode, `Eof` ends the line.
pub open spec fn spec_echo_signal(v: EchoView, sig: Signal) -> (EchoView, Seq<u8>) {
    match sig {
        Signal::Int => (
            EchoView {
                alt_until_ms: None,
                stress_until_ms: None,
                keys_mode: false,
                pending_mode: if v.keys_mode { Some(TermiosMode::Cooked) } else { v.pending_mode },
                ..v
            },
            "^C\r\n".spec_bytes() + prompt(),
        ),
        Signal::Eof => (v, seq![0x0Du8, 0x0A]),
    }
}

fn hex_upper_exec(v: u8) -> (d: u8)
    requires
        v < 16,
    ensures
        d == hex_upper(v as int),
{
    if v < 10 { 0x30 + v } else { 0x41 + v - 10 }
}

fn mnemonic(b: u8) -> (r: &'static str)
    ensures
        r.spec_bytes() == spec_mnemonic(b),
{
    if b == 0x1B {
        "ESC"
    } else if b == 0x0D {
        "CR"
    } else if b == 0x0A {
        "LF"
    } else if b == 0x09 {
        "TAB"
    } else if b == 0x7F {
        "DEL"
    } else if b == 0x08 {
        "BS"
    } else if b == 0x03 {
        "^C"
    } else if b == 0x04 {
        "^D"
    } else if b == 0x20 {
        "SP"
    } else {
        proof {
            reveal_strlit("");
        }
        ""
    }
}

proof fn lemma_prefix(a: Seq<u8>, b: Seq<u8>)
    ensures
        a.is_prefix_of(a + b),
{
    assert((a + b).subrange(0, a.len() as int) =~= a);
}

fn push_prompt(out: &mut Vec<u8>)
    ensures
        final(out)@ == old(out)@ + prompt(),
{
    push_all(out, "bedterm-debug$ ".as_bytes());
}

fn run_colors(out: &mut Vec<u8>)
    ensures
        final(out)@ == old(out)@ + colors_demo(),
{
    let ghost start = out@;
    let mut c: u8 = 30;
    while c <= 37
        invariant
            30 <= c <= 38,
            out@ == start + row16((c - 30) as nat),
        decreases 38 - c,
    {
        out.push(0x1B);
        out.push(0x5B);
        push_decimal(out, c as u64);
        push_all(out, "m  X  ".as_bytes());
        c = c + 1;
        assert(out@ =~= start + row16((c - 30) as nat));
    }
    push_all(out, "\x1B[0m\r\n".as_bytes());
    let ghost s2 = out@;
    let mut n: u8 = 16;
    while n < 32
        invariant
            16 <= n <= 32,
            out@ == s2 + row256((n - 16) as nat),
        decreases 32 - n,
    {
        push_all(out, "\x1B[38;5;".as_bytes());
        push_decimal(out, n as u64);
        push_all(out, "m##".as_bytes());
        n = n + 1;
        assert(out@ =~= s2 + row256((n - 16) as nat));
    }
    push_all(out, "\x1B[0m\r\n".as_bytes());
    let ghost s3 = out@;
    let mut i: u8 = 0;
    while i < 32
        invariant
            i <= 32,
            out@ == s3 + row_true(i as nat),
        decreases 32 - i,
    {
        let r: u8 = i * 8;
        let g: u8 = 255 - r;
        push_all(out, "\x1B[38;2;".as_bytes());
        push_decimal(out, r as u64);
        out.push(0x3B);
        push_decimal(out, g as u64);
        push_all(out, ";0m**".as_bytes());
        i = i + 1;
        assert(out@ =~= s3 + row_true(i as nat));
    }
    push_all(out, "\x1B[0m\r\n".as_bytes());
    assert(out@ =~= start + colors_demo());
}

fn run_cursor(out: &mut Vec<u8>)
    ensures
        final(out)@ == old(out)@ + cursor_demo(),
{
    let ghost start = out@;
    push_all(out, "\x1B[2J\x1B[H".as_bytes());
    let ghost s1 = out@;
    let mut row: u8 = 1;
    while row <= 8
        invariant
            1 <= row <= 9,
            out@ == s1 + cursor_rows((row - 1) as nat),
        decreases 9 - row,
    {
        let ghost s_row = out@;
        let mut col: u8 = 1;
        while col <= 16
            invariant
                1 <= row <= 8,
                1 <= col <= 17,
                out@ == s_row + cursor_cells(row as nat, (col - 1) as nat),
            decreases 17 - col,
        {
            out.push(0x1B);
            out.push(0x5B);
            push_decimal(out, row as u64);
            out.push(0x3B);
            push_decimal(out, col as u64);
            out.push(0x48);
            if (row + col) % 2 == 0 {
                out.push(0x23);
            } else {
                out.push(0x2E);
            }
            col = col + 1;
            assert(out@ =~= s_row + cursor_cells(row as nat, (col - 1) as nat));
        }
        row = row + 1;
        assert(out@ =~= s1 + cursor_rows((row - 1) as nat));
    }
    push_all(out, "\x1B[10;1H".as_bytes());
    assert(out@ =~= start + cursor_demo());
}

/// The debug shell.
pub struct EchoShell {
    keys_mode: bool,
    alt_until_ms: Option<u64>,
    stress_until_ms: Option<u64>,
    stress_rng: u32,
    pending_mode: Option<TermiosMode>,
}

impl View for EchoShell {
    type V = EchoView;

    closed spec fn view(&self) -> EchoView {
        EchoView {
            keys_mode: self.keys_mode,
            alt_until_ms: self.alt_until_ms,
            stress_until_ms: self.stress_until_ms,
            stress_rng: self.stress_rng,
            pending_mode: self.pending_mode,
        }
    }
}

impl EchoShell {
    pub fn new() -> (r: EchoShell)
        ensures
            r@ == echo_initial(),
    {
        EchoShell {
            keys_mode: false,
            alt_until_ms: None,
            stress_until_ms: None,
            stress_rng: 0x1234_5678,
            pending_mode: None,
        }
    }

    fn enter_altscreen(&mut self, out: &mut Vec<u8>)
        ensures
            final(self)@ == (EchoView { alt_until_ms: Some(u64::MAX), ..old(self)@ }),
            final(out)@ == old(out)@ + altscreen_banner(),
    {
        push_all(out, "\x1B[?1049h\x1B[H\x1B[2JAlt-screen demo. Returning in 1.5s.\r\n".as_bytes());
        self.alt_until_ms = Some(u64::MAX);
    }

    fn stress_step(&mut self, out: &mut Vec<u8>)
        ensures
            final(self)@ == (EchoView { stress_rng: xorshift(old(self)@.stress_rng), ..old(self)@ }),
            final(out)@ == old(out)@ + stress_cell(xorshift(old(self)@.stress_rng)),
    {
        let mut x = self.stress_rng;
        x = x ^ (x << 13u32);
        x = x ^ (x >> 17u32);
        x = x ^ (x << 5u32);
        self.stress_rng = x;
        let row: u8 = ((x >> 8u32) % 24) as u8 + 1;
        let col: u8 = ((x >> 16u32) % 80) as u8 + 1;
        let r: u8 = (x & 0xFF) as u8;
        let g: u8 = ((x >> 8u32) & 0xFF) as u8;
        let b: u8 = ((x >> 16u32) & 0xFF) as u8;
        assert((x & 0xFF) < 256) by (bit_vector);
        assert(((x >> 8u32) & 0xFF) < 256) by (bit_vector);
        assert(((x >> 16u32) & 0xFF) < 256) by (bit_vector);
        out.push(0x1B);
        out.push(0x5B);
        push_decimal(out, row as u64);
        out.push(0x3B);
        push_decimal(out, col as u64);
        push_all(out, "H\x1B[38;2;".as_bytes());
        push_decimal(out, r as u64);
        out.push(0x3B);
        push_decimal(out, g as u64);
        out.push(0x3B);
        push_decimal(out, b as u64);
        push_all(out, "m#".as_bytes());
        assert(out@ =~= old(out)@ + stress_cell(x));
    }
}

impl Default for EchoShell {
    fn default() -> (r: EchoShell)
        ensures
            r@ == echo_initial(),
    {
        EchoShell::new()
    }
}

impl Program for EchoShell {
    open spec fn model(&self) -> ProgramModel {
        ProgramModel::Echo(self@)
    }

    fn wants_raw(&self) -> (r: bool)
        ensures
            !r,
    {
        false
    }

    fn boot(&mut self, out: &mut Vec<u8>)
        ensures
            final(self)@ == old(self)@,
            final(out)@ == old(out)@ + "BedTerm debug shell. Type a command.\r\n".spec_bytes() + prompt(),
    {
        push_all(out, "BedTerm debug shell. Type a command.\r\n".as_bytes());
        push_prompt(out);
        proof { lemma_prefix(old(out)@, "BedTerm debug shell. Type a command.\r\n".spec_bytes() + prompt()); }
        assert(out@ =~= old(out)@ + "BedTerm debug shell. Type a command.\r\n".spec_bytes() + prompt());
    }

    fn on_byte(&mut self, byte: u8, out: &mut Vec<u8>)
        ensures
            final(self)@ == spec_echo_byte(old(self)@, byte).0,
            final(out)@ == old(out)@ + spec_echo_byte(old(self)@, byte).1,
    {
        if self.keys_mode {
            if byte == 0x71 {
                self.keys_mode = false;
                self.pending_mode = Some(TermiosMode::Cooked);
                push_all(out, "\r\n[keys] exit\r\n".as_bytes());
                push_prompt(out);
            } else {
                out.push(0x30);
                out.push(0x78);
                out.push(hex_upper_exec(byte / 16));
                out.push(hex_upper_exec(byte % 16));
                out.push(0x20);
                out.push(0x20);
                push_all(out, mnemonic(byte).as_bytes());
                out.push(0x0D);
                out.push(0x0A);
            }
        }
        assert(out@ =~= old(out)@ + spec_echo_byte(old(self)@, byte).1);
        proof { lemma_prefix(old(out)@, spec_echo_byte(old(self)@, byte).1); }
    }

    fn on_line(&mut self, line: &[u8], out: &mut Vec<u8>)
        ensures
            final(self)@ == spec_echo_line(old(self)@, line@).0,
            final(out)@ == old(out)@ + spec_echo_line(old(self)@, line@).1,
    {
        let ghost v = self@;
        if self.keys_mode {
            assert(out@ =~= old(out)@ + Seq::<u8>::empty());
            proof { lemma_prefix(old(out)@, Seq::<u8>::empty()); }
            return;
        }
        let cmd = command_of(line);
        let c = cmd.as_slice();
        if c.len() == 0 {
        } else if bytes_eq(c, "clear".as_bytes()) {
            push_all(out, "\x1B[2J\x1B[H".as_bytes());
        } else if bytes_eq(c, "exit".as_bytes()) {
            push_all(out, "bye\r\n".as_bytes());
        } else if bytes_eq(c, "colors".as_bytes()) {
            run_colors(out);
        } else if bytes_eq(c, "cursor".as_bytes()) {
            run_cursor(out);
        } else if bytes_eq(c, "altscreen".as_bytes()) {
            self.enter_altscreen(out);
        } else if bytes_eq(c, "stress".as_bytes()) {
            self.stress_until_ms = Some(u64::MAX);
        } else if bytes_eq(c, "keys".as_bytes()) {
            self.keys_mode = true;
            self.pending_mode = Some(TermiosMode::Raw);
            push_all(out, "[keys] press keys; 'q' to exit\r\n".as_bytes());
            assert(out@ =~= old(out)@ + spec_echo_line(v, line@).1);
            proof { lemma_prefix(old(out)@, spec_echo_line(v, line@).1); }
            return;
        } else {
            push_all(out, c);
            push_all(out, ": not found\r\n".as_bytes());
        }
        push_prompt(out);
        assert(out@ =~= old(out)@ + spec_echo_line(v, line@).1);
        proof { lemma_prefix(old(out)@, spec_echo_line(v, line@).1); }
    }

    fn on_tick(&mut self, now_ms: u64, out: &mut Vec<u8>)
        ensures
            final(self)@ == spec_echo_tick(old(self)@, now_ms).0,
            final(out)@ == old(out)@ + spec_echo_tick(old(self)@, now_ms).1,
    {
        let ghost v = self@;
        if let Some(deadline) = self.alt_until_ms {
            if deadline == u64::MAX {
                self.alt_until_ms = Some(if now_ms > u64::MAX - 1500 { u64::MAX } else { now_ms + 1500 });
            } else if now_ms >= deadline {
                push_all(out, "\x1B[?1049l".as_bytes());
                self.alt_until_ms = None;
                push_prompt(out);
            }
        }
        let ghost v1 = self@;
        let ghost mid = out@;
        if let Some(deadline) = self.stress_until_ms {
            if deadline == u64::MAX {
                self.stress_until_ms = Some(if now_ms > u64::MAX - 3000 { u64::MAX } else { now_ms + 3000 });
            } else if now_ms >= deadline {
                self.stress_until_ms = None;
                push_all(out, "\x1B[0m\r\n".as_bytes());
                push_prompt(out);
            } else {
                let mut k: u8 = 0;
                while k < 16
                    invariant
                        k <= 16,
                        self@ == (EchoView { stress_rng: stress_run(v1.stress_rng, k as nat).0, ..v1 }),
                        out@ == mid + stress_run(v1.stress_rng, k as nat).1,
                    decreases 16 - k,
                {
                    self.stress_step(out);
                    k = k + 1;
                }
            }
        }
        assert(out@ =~= old(out)@ + spec_echo_tick(v, now_ms).1);
        proof { lemma_prefix(old(out)@, spec_echo_tick(v, now_ms).1); }
    }

    fn on_signal(&mut self, sig: Signal, out: &mut Vec<u8>)
        ensures
            final(self)@ == spec_echo_signal(old(self)@, sig).0,
            final(out)@ == old(out)@ + spec_echo_signal(old(self)@, sig).1,
    {
        match sig {
            Signal::Int => {
                self.alt_until_ms = None;
                self.stress_until_ms = None;
                if self.keys_mode {
                    self.keys_mode = false;
                    self.pending_mode = Some(TermiosMode::Cooked);
                }
                push_all(out, "^C\r\n".as_bytes());
                push_prompt(out);
            },
            Signal::Eof => {
                out.push(0x0D);
                out.push(0x0A);
            },
        }
        assert(out@ =~= old(out)@ + spec_echo_signal(old(self)@, sig).1);
        proof { lemma_prefix(old(out)@, spec_echo_signal(old(self)@, sig).1); }
    }

    fn mode_request(&mut self) -> (r: Option<TermiosMode>)
        ensures
            r == old(self)@.pending_mode,
            final(self)@ == (EchoView { pending_mode: None, ..old(self)@ }),
    {
        let r = self.pending_mode;
        self.pending_mode = None;
        r
    }
    /// A window-size change prints nothing.
    fn on_resize(&mut self, cols: u16, rows: u16, out: &mut Vec<u8>) {
        assert(out@ =~= old(out)@ + Seq::<u8>::empty());
        assert(out@.subrange(0, old(out)@.len() as int) =~= old(out)@);
    }

    /// Never hands over to another program.
    fn pending_switch(&mut self) -> (r: Option<ProgramKind>) {
        None
    }
}

} // verus!
