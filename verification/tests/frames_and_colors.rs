use bedterm_core::dcs::{scan_dcs_events, DcsEvent};
use bedterm_core::frames::{command_finished_bytes, dcs_event, hex_encode, json_escape, precmd_bytes, preexec_bytes, wrap_with_dcs};
use bedterm_core::persistence_types::KillReason;
use bedterm_core::palette::{
    color_to_rgba, default_indexed, legacy_default_named, pack_rgba, BtPaletteView, BtRgb24, NamedColor, Palette,
    TermColor,
};

#[test]
fn hex_encoding_is_lowercase_pairs() {
    assert_eq!(hex_encode(&[0x00, 0xAB, 0x7f]), b"00ab7f".to_vec());
    assert_eq!(dcs_event(b"{}"), vec![0x1B, b'P', b'$', b'd', b'7', b'b', b'7', b'd', 0x9C]);
    assert_eq!(json_escape(br#"a"b\c"#), br#"a\"b\\c"#.to_vec());
}

#[test]
fn frames_scan_back_to_their_events() {
    let pre = preexec_bytes("echo \"hi\"");
    let ev = scan_dcs_events(&pre);
    assert_eq!(ev.len(), 1);
    assert_eq!(ev[0].event, DcsEvent::Preexec { command: "echo \"hi\"".into() });
    let fin = command_finished_bytes(-3);
    assert_eq!(scan_dcs_events(&fin)[0].event, DcsEvent::CommandFinished { exit_code: -3 });
    let pc = precmd_bytes();
    assert_eq!(scan_dcs_events(&pc)[0].event, DcsEvent::Precmd { pwd: None, git_branch: None });
}

#[test]
fn wrapped_output_is_one_block() {
    let out = wrap_with_dcs(b"hello\r\n", None, 2);
    let ev = scan_dcs_events(&out);
    assert_eq!(ev.len(), 3);
    assert_eq!(ev[1].event, DcsEvent::Preexec { command: "unknown".into() });
    assert_eq!(ev[2].event, DcsEvent::CommandFinished { exit_code: 2 });
    assert_eq!(&out[ev[1].end_exclusive..ev[2].start], b"hello\r\n");
}

#[test]
fn kill_reason_codes() {
    for v in 0..5 {
        assert_eq!(KillReason::from_i32(v).unwrap().code(), v);
    }
    assert_eq!(KillReason::from_i32(5), None);
    assert_eq!(KillReason::from_i32(-1), None);
    assert_eq!(KillReason::from_i32(2), Some(KillReason::NetworkDrop));
}

#[test]
fn colours_resolve_to_packed_rgba() {
    let p = Palette::default();
    assert_eq!(pack_rgba(BtRgb24 { r: 0x12, g: 0x34, b: 0x56 }), 0x123456FF);
    assert_eq!(color_to_rgba(TermColor::Spec(BtRgb24 { r: 1, g: 2, b: 3 }), &p), 0x010203FF);
    assert_eq!(color_to_rgba(TermColor::Named(NamedColor::Red), &p), 0xCC3333FF);
    assert_eq!(color_to_rgba(TermColor::Named(NamedColor::DimRed), &p), 0xCC3333FF);
    assert_eq!(color_to_rgba(TermColor::Named(NamedColor::Background), &p), 0x000000FF);
    assert_eq!(color_to_rgba(TermColor::Named(NamedColor::Cursor), &p), 0xCCCCCCFF);
    assert_eq!(color_to_rgba(TermColor::Indexed(9), &p), 0xFF5555FF);
    assert_eq!(color_to_rgba(TermColor::Indexed(16), &p), 0x000000FF);
    assert_eq!(color_to_rgba(TermColor::Indexed(21), &p), 0x0000FFFF);
    assert_eq!(color_to_rgba(TermColor::Indexed(196), &p), 0xFF0000FF);
    assert_eq!(color_to_rgba(TermColor::Indexed(232), &p), 0x080808FF);
    assert_eq!(color_to_rgba(TermColor::Indexed(255), &p), 0xEEEEEEFF);
    assert_eq!(default_indexed(67), BtRgb24 { r: 0x5F, g: 0x87, b: 0xAF });
    assert_eq!(legacy_default_named(NamedColor::BrightCyan), BtRgb24 { r: 0x55, g: 0xFF, b: 0xFF });

    let mut ansi = [BtRgb24 { r: 0, g: 0, b: 0 }; 16];
    ansi[3] = BtRgb24 { r: 9, g: 8, b: 7 };
    let view = BtPaletteView {
        default_fg: BtRgb24 { r: 1, g: 1, b: 1 },
        default_bg: BtRgb24 { r: 2, g: 2, b: 2 },
        ansi,
    };
    let custom = view.to_palette();
    assert_eq!(color_to_rgba(TermColor::Named(NamedColor::Yellow), &custom), 0x090807FF);
    assert_eq!(color_to_rgba(TermColor::Indexed(3), &custom), 0x090807FF);
    assert_eq!(color_to_rgba(TermColor::Named(NamedColor::Foreground), &custom), 0x010101FF);
    assert_eq!(color_to_rgba(TermColor::Named(NamedColor::Background), &custom), 0x020202FF);
    assert_eq!(color_to_rgba(TermColor::Indexed(100), &custom), color_to_rgba(TermColor::Indexed(100), &p));
}
