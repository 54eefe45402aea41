use bedterm_core::dcs::parse_body;
use bedterm_core::dcs::{scan_dcs_events, DcsEvent};

fn hex_of(input: &str) -> String {
    let mut out = String::with_capacity(input.len() * 2);
    for b in input.bytes() {
        out.push_str(&format!("{b:02x}"));
    }
    out
}

fn dcs_8bit(json: &str) -> Vec<u8> {
    let mut v = vec![0x1B, b'P', b'$', b'd'];
    v.extend_from_slice(hex_of(json).as_bytes());
    v.push(0x9C);
    v
}

fn precmd_pwd(e: &DcsEvent) -> Option<String> {
    if let DcsEvent::Precmd { pwd, .. } = e {
        pwd.clone()
    } else {
        None
    }
}

#[test]
fn scanner_finds_single_event() {
    let frame = dcs_8bit(r#"{"hook":"Precmd","value":{"pwd":"/tmp"}}"#);
    let located = scan_dcs_events(&frame);
    assert_eq!(located.len(), 1);
    assert_eq!(located[0].start, 0);
    assert_eq!(located[0].end_exclusive, frame.len());
    assert_eq!(
        located[0].event,
        DcsEvent::Precmd {
            pwd: Some("/tmp".into()),
            git_branch: None,
        }
    );
}

#[test]
fn scanner_handles_pre_and_post_text() {
    let pre = b"prompt> ";
    let frame = dcs_8bit(r#"{"hook":"Preexec","value":{"command":"ls"}}"#);
    let post = b"output line";
    let mut bytes = Vec::new();
    bytes.extend_from_slice(pre);
    bytes.extend_from_slice(&frame);
    bytes.extend_from_slice(post);
    let located = scan_dcs_events(&bytes);
    assert_eq!(located.len(), 1);
    assert_eq!(located[0].start, pre.len());
    assert_eq!(located[0].end_exclusive, pre.len() + frame.len());
}

#[test]
fn scanner_handles_back_to_back_events() {
    let cf = dcs_8bit(r#"{"hook":"CommandFinished","value":{"exit_code":0}}"#);
    let pc = dcs_8bit(r#"{"hook":"Precmd","value":{"pwd":"/x"}}"#);
    let mut bytes = Vec::new();
    bytes.extend_from_slice(&cf);
    bytes.extend_from_slice(&pc);
    let located = scan_dcs_events(&bytes);
    assert_eq!(located.len(), 2);
    assert_eq!(located[0].end_exclusive, cf.len());
    assert_eq!(located[1].start, cf.len());
}

#[test]
fn scanner_accepts_7bit_terminator() {
    let json = r#"{"hook":"Precmd","value":{"pwd":"/x"}}"#;
    let mut bytes = vec![0x1B, b'P', b'$', b'd'];
    bytes.extend_from_slice(hex_of(json).as_bytes());
    bytes.extend_from_slice(&[0x1B, b'\\']);
    let located = scan_dcs_events(&bytes);
    assert_eq!(located.len(), 1);
    assert_eq!(located[0].end_exclusive, bytes.len());
}

#[test]
fn scanner_skips_foreign_dcs() {
    let mut bytes = vec![0x1B, b'P', b'q', b'1', b';', 0x9C];
    let frame = dcs_8bit(r#"{"hook":"Precmd","value":{"pwd":"/x"}}"#);
    bytes.extend_from_slice(&frame);
    let located = scan_dcs_events(&bytes);
    assert_eq!(located.len(), 1);
    assert_eq!(precmd_pwd(&located[0].event).as_deref(), Some("/x"));
}

#[test]
fn scanner_ignores_truncated_frame() {
    let mut bytes = vec![0x1B, b'P', b'$', b'd'];
    bytes.extend_from_slice(hex_of(r#"{"hook":"Precmd"}"#).as_bytes());
    let located = scan_dcs_events(&bytes);
    assert!(located.is_empty());
}

#[test]
fn scanner_reads_git_branch_and_escapes() {
    let frame = dcs_8bit(r#"{"hook":"Precmd","value":{"pwd":"/a\"b","git_branch":"main"}}"#);
    let located = scan_dcs_events(&frame);
    assert_eq!(located.len(), 1);
    assert_eq!(
        located[0].event,
        DcsEvent::Precmd {
            pwd: Some("/a\"b".into()),
            git_branch: Some("main".into()),
        }
    );
}

#[test]
fn scanner_drops_empty_git_branch_and_unknown_hook() {
    let a = dcs_8bit(r#"{"hook":"Precmd","value":{"pwd":"/x","git_branch":""}}"#);
    let b = dcs_8bit(r#"{"hook":"Bootstrapped","value":{"shell":"zsh"}}"#);
    let mut bytes = a.clone();
    bytes.extend_from_slice(&b);
    let located = scan_dcs_events(&bytes);
    assert_eq!(located.len(), 1);
    assert_eq!(
        located[0].event,
        DcsEvent::Precmd {
            pwd: Some("/x".into()),
            git_branch: None,
        }
    );
}

#[test]
fn parse_body_negative_exit_and_bad_hex() {
    let body = hex_of(r#"{"hook":"CommandFinished","value":{"exit_code":-1}}"#);
    assert_eq!(parse_body(body.as_bytes()), Some(DcsEvent::CommandFinished { exit_code: -1 }));
    assert_eq!(parse_body(b"zzznothex"), None);
    assert_eq!(parse_body(b"abc"), None);
}
