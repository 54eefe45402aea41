use bedterm_core::mock_tty::program::{Program, ProgramKind};
use bedterm_core::mock_tty::programs::replay::{cast_row, decode_json_string, header_is_v3, parse_cast, split_first_comma, Replay};

fn rows_ms(text: &str) -> (bool, Vec<(u64, Vec<u8>)>) {
    let c = parse_cast(text);
    let rows = c
        .rows
        .into_iter()
        .filter_map(|r| {
            let t: f64 = std::str::from_utf8(&r.time_text).ok()?.parse().ok()?;
            Some(((t * 1000.0) as u64, r.data))
        })
        .collect();
    (c.is_v3, rows)
}

#[test]
fn v2_times_are_absolute() {
    let text = "{\"version\": 2, \"width\": 80}\n[0.0, \"o\", \"hello\"]\n[0.5, \"o\", \"\\r\\n\"]\n[0.7, \"i\", \"x\"]\n";
    let (v3, rows) = rows_ms(text);
    assert!(!v3);
    let mut r = Replay::from_timed_rows(v3, rows, false);
    let mut out = Vec::new();
    r.on_tick(0, &mut out);
    assert_eq!(out, b"hello".to_vec());
    r.on_tick(499, &mut out);
    assert_eq!(out, b"hello".to_vec());
    r.on_tick(500, &mut out);
    assert_eq!(out, b"hello\r\n".to_vec());
    assert_eq!(r.pending_switch(), None);
}

#[test]
fn v3_times_are_deltas_and_return_to_echo() {
    let text = "{\"version\":  3, \"term\": {}}\r\n[0.055, \"o\", \"a\"]\r\n\r\n  [0.5, \"o\", \"b\"]  \r\nnot a row\n[0.5, \"o\", \"c\"]";
    let (v3, rows) = rows_ms(text);
    assert!(v3);
    let mut r = Replay::from_timed_rows(v3, rows, true);
    let mut out = Vec::new();
    r.on_tick(554, &mut out);
    assert_eq!(out, b"a".to_vec());
    assert_eq!(r.pending_switch(), None);
    r.on_tick(1055, &mut out);
    assert_eq!(out, b"abc".to_vec());
    assert_eq!(r.pending_switch(), Some(ProgramKind::EchoShell));
    assert_eq!(r.pending_switch(), None);
    assert!(r.wants_raw());
}

#[test]
fn header_version_detection() {
    assert!(header_is_v3(br#"{"version": 3}"#));
    assert!(header_is_v3(br#"{"version":::  3}"#));
    assert!(!header_is_v3(br#"{"version": 2}"#));
    assert!(!header_is_v3(br#"{"width": 3}"#));
    assert!(!header_is_v3(b""));
}

#[test]
fn comma_split_skips_strings() {
    assert_eq!(split_first_comma(br#""a,b", c"#), Some(5));
    assert_eq!(split_first_comma(br#""a\",b", c"#), Some(7));
    assert_eq!(split_first_comma(b"abc"), None);
}

#[test]
fn json_string_decoding() {
    assert_eq!(decode_json_string(br#"a\nb\t\"\\\/\q"#), b"a\nb\t\"\\/q".to_vec());
    assert_eq!(decode_json_string(br#"\u00e9!"#), "é!".as_bytes().to_vec());
    assert_eq!(decode_json_string(br#"\u+041"#), b"A".to_vec());
    assert_eq!(decode_json_string(br#"\ud800x"#), b"x".to_vec());
    assert_eq!(decode_json_string(br#"\u12"#), b"12".to_vec());
    assert_eq!(decode_json_string(b"end\\"), b"end".to_vec());
}

#[test]
fn rows_need_output_kind_and_quotes() {
    let r = cast_row(br#" [1.5, "o", "x\"y"] "#).unwrap();
    assert_eq!(r.time_text, b"1.5".to_vec());
    assert_eq!(r.data, b"x\"y".to_vec());
    assert!(cast_row(br#"[1.5, "i", "x"]"#).is_none());
    assert!(cast_row(br#"[1.5, "o", x]"#).is_none());
    assert!(cast_row(br#"[1.5, "o"]"#).is_none());
    assert!(cast_row(b"[").is_none());
    assert!(cast_row(br#"[1, """o""", "z"]"#).is_some());
}
