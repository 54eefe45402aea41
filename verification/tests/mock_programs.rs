use bedterm_core::mock_tty::program::{Program, ProgramKind, Signal, TermiosMode};
use bedterm_core::mock_tty::programs::echo_shell::{command_of, EchoShell};
use bedterm_core::mock_tty::programs::raw_sink::RawSink;
use bedterm_core::mock_tty::programs::vim_lite::VimLite;
use bedterm_core::mock_tty::termios::Termios;

const PROMPT: &str = "bedterm-debug$ ";

fn s(v: &[u8]) -> String {
    String::from_utf8_lossy(v).into_owned()
}

#[test]
fn echo_boot_prints_banner_and_prompt() {
    let mut sh = EchoShell::new();
    let mut out = Vec::new();
    sh.boot(&mut out);
    assert_eq!(s(&out), format!("BedTerm debug shell. Type a command.\r\n{PROMPT}"));
    assert!(!sh.wants_raw());
}

#[test]
fn echo_lines() {
    let mut sh = EchoShell::new();
    let mut out = Vec::new();
    sh.on_line(b"  clear \t", &mut out);
    assert_eq!(s(&out), format!("\x1B[2J\x1B[H{PROMPT}"));
    out.clear();
    sh.on_line(b"exit", &mut out);
    assert_eq!(s(&out), format!("bye\r\n{PROMPT}"));
    out.clear();
    sh.on_line(b"", &mut out);
    assert_eq!(s(&out), PROMPT);
    out.clear();
    sh.on_line(b" frob  ", &mut out);
    assert_eq!(s(&out), format!("frob: not found\r\n{PROMPT}"));
    out.clear();
    sh.on_line(&[0xFF, b'x'], &mut out);
    assert_eq!(s(&out), PROMPT);
}

#[test]
fn echo_trim_matches_str_trim() {
    for line in ["  a b  ", "\u{3000}cmd\u{a0}", "\u{2009}x\u{205f}", "\u{85}y\r\n", "plain", " \t\n", "é "] {
        assert_eq!(command_of(line.as_bytes()), line.trim().as_bytes().to_vec(), "line {line:?}");
    }
}

#[test]
fn echo_colors_output_matches_format() {
    let mut expect = String::new();
    for c in 30..=37u8 {
        expect.push_str(&format!("\x1B[{c}m  X  "));
    }
    expect.push_str("\x1B[0m\r\n");
    for n in 16..32u8 {
        expect.push_str(&format!("\x1B[38;5;{n}m##"));
    }
    expect.push_str("\x1B[0m\r\n");
    for i in 0..32u8 {
        let r = i * 8;
        let g = 255 - r;
        expect.push_str(&format!("\x1B[38;2;{r};{g};0m**"));
    }
    expect.push_str("\x1B[0m\r\n");
    expect.push_str(PROMPT);
    let mut sh = EchoShell::new();
    let mut out = Vec::new();
    sh.on_line(b"colors", &mut out);
    assert_eq!(s(&out), expect);
}

#[test]
fn echo_cursor_output_matches_format() {
    let mut expect = String::from("\x1B[2J\x1B[H");
    for row in 1..=8u8 {
        for col in 1..=16u8 {
            let ch = if (row + col) % 2 == 0 { "#" } else { "." };
            expect.push_str(&format!("\x1B[{row};{col}H{ch}"));
        }
    }
    expect.push_str("\x1B[10;1H");
    expect.push_str(PROMPT);
    let mut sh = EchoShell::new();
    let mut out = Vec::new();
    sh.on_line(b"cursor", &mut out);
    assert_eq!(s(&out), expect);
}

#[test]
fn echo_keys_mode_round_trip() {
    let mut sh = EchoShell::new();
    let mut out = Vec::new();
    sh.on_line(b"keys", &mut out);
    assert_eq!(s(&out), "[keys] press keys; 'q' to exit\r\n");
    assert_eq!(sh.mode_request(), Some(TermiosMode::Raw));
    assert_eq!(sh.mode_request(), None);
    out.clear();
    sh.on_byte(0x1B, &mut out);
    sh.on_byte(b'a', &mut out);
    assert_eq!(s(&out), "0x1B  ESC\r\n0x61  \r\n");
    out.clear();
    sh.on_line(b"clear", &mut out);
    assert!(out.is_empty());
    sh.on_byte(b'q', &mut out);
    assert_eq!(s(&out), format!("\r\n[keys] exit\r\n{PROMPT}"));
    assert_eq!(sh.mode_request(), Some(TermiosMode::Cooked));
    out.clear();
    sh.on_byte(b'x', &mut out);
    assert!(out.is_empty());
}

#[test]
fn echo_altscreen_timer() {
    let mut sh = EchoShell::new();
    let mut out = Vec::new();
    sh.on_line(b"altscreen", &mut out);
    assert_eq!(s(&out), format!("\x1B[?1049h\x1B[H\x1B[2JAlt-screen demo. Returning in 1.5s.\r\n{PROMPT}"));
    out.clear();
    sh.on_tick(1000, &mut out);
    assert!(out.is_empty());
    sh.on_tick(2499, &mut out);
    assert!(out.is_empty());
    sh.on_tick(2500, &mut out);
    assert_eq!(s(&out), format!("\x1B[?1049l{PROMPT}"));
    out.clear();
    sh.on_tick(9999, &mut out);
    assert!(out.is_empty());
}

fn stress_cell(x: u32) -> String {
    let row = ((x >> 8) % 24) as u8 + 1;
    let col = ((x >> 16) % 80) as u8 + 1;
    let r = (x & 0xFF) as u8;
    let g = ((x >> 8) & 0xFF) as u8;
    let b = ((x >> 16) & 0xFF) as u8;
    format!("\x1B[{row};{col}H\x1B[38;2;{r};{g};{b}m#")
}

#[test]
fn echo_stress_steps_xorshift() {
    let mut sh = EchoShell::new();
    let mut out = Vec::new();
    sh.on_line(b"stress", &mut out);
    assert_eq!(s(&out), PROMPT);
    out.clear();
    sh.on_tick(1000, &mut out);
    assert!(out.is_empty());
    sh.on_tick(2000, &mut out);
    let mut x: u32 = 0x1234_5678;
    let mut expect = String::new();
    for _ in 0..16 {
        x ^= x << 13;
        x ^= x >> 17;
        x ^= x << 5;
        expect.push_str(&stress_cell(x));
    }
    assert_eq!(s(&out), expect);
    out.clear();
    sh.on_tick(4000, &mut out);
    assert_eq!(s(&out), format!("\x1B[0m\r\n{PROMPT}"));
}

#[test]
fn echo_signals() {
    let mut sh = EchoShell::new();
    let mut out = Vec::new();
    sh.on_line(b"keys", &mut out);
    let _ = sh.mode_request();
    out.clear();
    sh.on_signal(Signal::Int, &mut out);
    assert_eq!(s(&out), format!("^C\r\n{PROMPT}"));
    assert_eq!(sh.mode_request(), Some(TermiosMode::Cooked));
    out.clear();
    sh.on_signal(Signal::Eof, &mut out);
    assert_eq!(s(&out), "\r\n");
}

#[test]
fn raw_sink_echoes_bytes() {
    let mut p = RawSink::new();
    let mut out = vec![9];
    p.on_byte(1, &mut out);
    p.on_line(b"ab", &mut out);
    assert_eq!(out, vec![9, 1, b'a', b'b']);
    assert!(p.wants_raw());
    assert_eq!(p.mode_request(), None);
    assert_eq!(p.pending_switch(), None);
}

#[test]
fn termios_hands_bytes_to_program() {
    let mut t = Termios::default_cooked();
    let mut p: Box<dyn Program> = Box::new(RawSink::new());
    let mut out = Vec::new();
    t.input_byte(b'z', &mut p, &mut out);
    assert_eq!(out, b"z".to_vec());
    t.set_raw();
    t.set_cooked();
}

fn vim_screen(lines: &[&str], rows: usize, cols: usize, status: &str, row: usize, col: usize, insert: bool) -> String {
    let mut o = String::from("\x1B[2J\x1B[H");
    for (i, l) in lines.iter().enumerate() {
        if i + 1 >= rows {
            break;
        }
        o.push_str(&format!("{l}\r\n"));
    }
    o.push_str(&format!("\x1B[{};1H\x1B[7m{status:<width$}\x1B[0m", rows, width = cols));
    o.push_str(&format!("\x1B[{};{}H", row + 1, col + 1));
    o.push_str(if insert { "\x1B[6 q" } else { "\x1B[2 q" });
    o
}

const WELCOME: [&str; 6] = [
    "BedTerm vim-lite",
    "----------------",
    "NORMAL: h j k l 0 $ x dd gg G i a o :",
    "INSERT: <typed text>  ESC to NORMAL",
    "COMMAND: :q :w :wq  ESC to abort",
    "",
];

#[test]
fn vim_boot_draws_welcome() {
    let mut v = VimLite::new();
    let mut out = Vec::new();
    v.boot(&mut out);
    let expect = format!("\x1B[?1049h\x1B[?25h{}", vim_screen(&WELCOME, 24, 80, "-- NORMAL --  ", 0, 0, false));
    assert_eq!(s(&out), expect);
    assert!(v.wants_raw());
}

#[test]
fn vim_insert_and_write() {
    let mut v = VimLite::new();
    let mut out = Vec::new();
    for b in b"Gihi" {
        v.on_byte(*b, &mut out);
    }
    out.clear();
    v.on_byte(0x1B, &mut out);
    let mut lines = WELCOME.to_vec();
    lines[5] = "hi";
    assert_eq!(s(&out), vim_screen(&lines, 24, 80, "-- NORMAL --  ", 5, 2, false));
    out.clear();
    for b in b":w\r" {
        out.clear();
        v.on_byte(*b, &mut out);
    }
    assert_eq!(s(&out), vim_screen(&lines, 24, 80, "-- NORMAL --  written", 5, 2, false));
    out.clear();
    for b in b":zz\r" {
        out.clear();
        v.on_byte(*b, &mut out);
    }
    assert_eq!(s(&out), vim_screen(&lines, 24, 80, "-- NORMAL --  E:zz", 5, 2, false));
}

#[test]
fn vim_quit_stops_output() {
    let mut v = VimLite::new();
    let mut out = Vec::new();
    v.on_byte(b':', &mut out);
    v.on_byte(b'q', &mut out);
    out.clear();
    v.on_byte(b'\r', &mut out);
    assert_eq!(s(&out), "\x1B[?1049l\x1B[0 q");
    out.clear();
    v.on_byte(b'x', &mut out);
    assert!(out.is_empty());
}

#[test]
fn vim_delete_line_and_navigation() {
    let mut v = VimLite::new();
    let mut out = Vec::new();
    for b in b"jdd" {
        v.on_byte(*b, &mut out);
    }
    out.clear();
    v.on_byte(b'$', &mut out);
    let mut lines = WELCOME.to_vec();
    lines.remove(1);
    let last = lines[1].len() - 1;
    assert_eq!(s(&out), vim_screen(&lines, 24, 80, "-- NORMAL --  ", 1, last, false));
    out.clear();
    for b in b"ggx" {
        out.clear();
        v.on_byte(*b, &mut out);
    }
    lines[0] = "edTerm vim-lite";
    assert_eq!(s(&out), vim_screen(&lines, 24, 80, "-- NORMAL --  ", 0, 0, false));
}

#[test]
fn vim_enter_splits_line_and_resize_clamps() {
    let mut v = VimLite::new();
    let mut out = Vec::new();
    for b in b"llli\r" {
        v.on_byte(*b, &mut out);
    }
    out.clear();
    v.on_resize(3, 2, &mut out);
    let mut lines = WELCOME.to_vec();
    lines[0] = "Bed";
    lines.insert(1, "Term vim-lite");
    assert_eq!(s(&out), vim_screen(&lines, 5, 20, "-- INSERT --", 1, 0, true));
}
