use bedterm_core::render_cli::parse_dims as render_dims;
use bedterm_core::record_cli::parse_dims as record_dims;
use bedterm_core::record_cli::split_exit;
use bedterm_core::mock_tty::options::{extract_opt, unescape_inline};
use bedterm_core::presets::{device_names, find_device, PalettePreset};
use bedterm_core::render_cli::{extract_optional_string, extract_optional_u16, extract_u32, extract_u32_after_comma};
use bedterm_core::text::parse_unsigned;
use bedterm_core::text_input::{floor_char_boundary, BtRsUITextPosition, BtRsUITextRange, PositionIvars};
use bedterm_core::palette::Palette;

#[test]
fn parse_dims_both_styles() {
    assert_eq!(render_dims("1200x800"), Some((1200, 800)));
    assert_eq!(record_dims("1200x800"), Some((1200, 800)));
    assert_eq!(render_dims("1x2x3"), Some((1, 2)));
    assert_eq!(record_dims("1x2x3"), None);
    assert_eq!(render_dims("12"), None);
    assert_eq!(render_dims("+3x4"), Some((3, 4)));
    assert_eq!(render_dims("x4"), None);
    assert_eq!(record_dims("4294967296x1"), None);
}

#[test]
fn unsigned_parse_matches_str_parse() {
    for s in ["0", "+1", "65535", "65536", "", "+", "-1", "12a", "4294967295", "4294967296"] {
        assert_eq!(parse_unsigned(s.as_bytes(), u16::MAX as u64), s.parse::<u16>().ok().map(u64::from), "u16 {s:?}");
        assert_eq!(parse_unsigned(s.as_bytes(), u32::MAX as u64), s.parse::<u32>().ok().map(u64::from), "u32 {s:?}");
    }
}

#[test]
fn context_extractors_read_sidecar() {
    let json = "{\n  \"viewport_pt\": [400, 850],\n  \"scale\": 3,\n  \"font_size_pt\": 13,\n  \"cols\": 50,\n  \"rows\": null,\n  \"palette\": \"bedterm-dark\",\n  \"appearance\": null\n}\n";
    assert_eq!(extract_u32(json, "\"viewport_pt\": ["), Some(400));
    assert_eq!(extract_u32_after_comma(json, "\"viewport_pt\": ["), Some(850));
    assert_eq!(extract_optional_u16(json, "\"cols\": "), Some(50));
    assert_eq!(extract_optional_u16(json, "\"rows\": "), None);
    assert_eq!(extract_optional_string(json, "\"palette\": "), Some("bedterm-dark".to_string()));
    assert_eq!(extract_optional_string(json, "\"appearance\": "), None);
    assert_eq!(extract_u32(json, "\"missing\": "), None);
}

#[test]
fn option_blob_lookup_and_unescape() {
    let raw = r#"{"cast":"a\"b\nc","return":"1"}"#;
    assert_eq!(extract_opt(raw, "cast"), Some(r#"a\"b\nc"#.to_string()));
    assert_eq!(extract_opt(raw, "return"), Some("1".to_string()));
    assert_eq!(extract_opt(raw, "nope"), None);
    assert_eq!(unescape_inline(r#"a\"b\nc\\d\qe"#), "a\"b\nc\\d\\qe");
    assert_eq!(unescape_inline("trail\\"), "trail\\");
    assert_eq!(unescape_inline("é"), "\u{c3}\u{a9}");
}

#[test]
fn presets_and_devices() {
    assert_eq!(PalettePreset::from_str("dracula"), Some(PalettePreset::Dracula));
    assert_eq!(PalettePreset::from_str("nope"), None);
    assert_eq!(PalettePreset::from_str("bedterm-dark"), Some(PalettePreset::Default));
    assert_eq!(PalettePreset::from_str("bedterm-light"), Some(PalettePreset::Default));
    assert_eq!(PalettePreset::from_str("bedterm-dim"), None);
    let p = PalettePreset::from_str("tokyo-night").unwrap().build();
    assert_eq!((p.default_fg.r, p.default_fg.g, p.default_fg.b), (0xc0, 0xca, 0xf5));
    assert_eq!((p.ansi[1].r, p.ansi[1].g, p.ansi[1].b), (0xf7, 0x76, 0x8e));
    assert_eq!(PalettePreset::Default.build(), Palette::default());
    let d = find_device("iphone17").unwrap();
    assert_eq!(d.viewport_pt, (402, 874));
    assert_eq!(d.scale, 3);
    assert!(find_device("pixel").is_none());
    let names = device_names();
    assert_eq!(names.len(), 19);
    assert_eq!(names[0], "iphone17");
    assert_eq!(names[18], "mac");
}

#[test]
fn text_positions_and_boundaries() {
    let r = BtRsUITextRange::new(BtRsUITextPosition::new(3), BtRsUITextPosition::new(3));
    assert_eq!(r.start_index(), 3);
    assert_eq!(r.end_index(), 3);
    assert!(r.is_empty());
    let q = BtRsUITextRange::new(BtRsUITextPosition::new(1), BtRsUITextPosition::new(4));
    assert!(!q.is_empty());
    assert_eq!(PositionIvars::default().index, 0);
    let s = "aé€";
    assert_eq!(floor_char_boundary(s, 0), 0);
    assert_eq!(floor_char_boundary(s, 2), 1);
    assert_eq!(floor_char_boundary(s, 4), 3);
    assert_eq!(floor_char_boundary(s, 5), 3);
    assert_eq!(floor_char_boundary(s, 6), 6);
    assert_eq!(floor_char_boundary(s, 60), 6);
}

#[test]
fn typed_lines_stop_at_the_first_exit() {
    let lines: Vec<String> = vec!["hello".into(), "  /exit  ".into(), "more".into(), "exit".into()];
    assert_eq!(split_exit(&lines), (1, true));
    let plain: Vec<String> = vec!["a".into(), "exit now".into()];
    assert_eq!(split_exit(&plain), (2, false));
    let bare: Vec<String> = vec!["\texit".into()];
    assert_eq!(split_exit(&bare), (0, true));
    assert_eq!(split_exit(&Vec::new()), (0, false));
}
