use bedterm_core::dcs::completed_frame_end;
use alacritty_terminal::vte::{Params, Parser, Perform};
use bedterm_core::dcs::{DcsEvent, DcsSink};

struct Adapter<'a>(&'a mut DcsSink);

impl Perform for Adapter<'_> {
    fn hook(&mut self, _params: &Params, intermediates: &[u8], _ignore: bool, action: char) {
        self.0.hook(intermediates, action);
    }
    fn put(&mut self, byte: u8) {
        self.0.put(byte);
    }
    fn unhook(&mut self) {
        self.0.unhook();
    }
}

struct Sniffer {
    parser: Parser,
    sink: DcsSink,
}

impl Sniffer {
    fn new() -> Self {
        Sniffer { parser: Parser::new(), sink: DcsSink::new() }
    }
    fn feed(&mut self, bytes: &[u8]) {
        self.parser.advance(&mut Adapter(&mut self.sink), bytes);
    }
    fn pop(&mut self) -> Option<DcsEvent> {
        self.sink.pop()
    }
    fn pending(&self) -> usize {
        self.sink.pending()
    }
}

fn hex_of(input: &str) -> String {
    let mut out = String::with_capacity(input.len() * 2);
    for b in input.bytes() {
        out.push_str(&format!("{b:02x}"));
    }
    out
}

fn dcs(hex_body: &str) -> Vec<u8> {
    let mut v = vec![0x1B, b'P', b'$', b'd'];
    v.extend_from_slice(hex_body.as_bytes());
    v.push(0x9C);
    v
}

fn dcs7(hex_body: &str) -> Vec<u8> {
    let mut v = vec![0x1B, b'P', b'$', b'd'];
    v.extend_from_slice(hex_body.as_bytes());
    v.extend_from_slice(&[0x1B, b'\\']);
    v
}

fn precmd_bytes(pwd: &str) -> Vec<u8> {
    let json = format!(r#"{{"hook":"Precmd","value":{{"pwd":"{pwd}"}}}}"#);
    dcs(&hex_of(&json))
}

fn preexec_bytes(cmd: &str) -> Vec<u8> {
    let json = format!(r#"{{"hook":"Preexec","value":{{"command":"{cmd}"}}}}"#);
    dcs(&hex_of(&json))
}

fn command_finished_bytes(exit: i32) -> Vec<u8> {
    let json = format!(r#"{{"hook":"CommandFinished","value":{{"exit_code":{exit}}}}}"#);
    dcs(&hex_of(&json))
}

#[test]
fn parses_precmd() {
    let mut s = Sniffer::new();
    s.feed(&precmd_bytes("/Users/alice"));
    assert_eq!(
        s.pop(),
        Some(DcsEvent::Precmd {
            pwd: Some("/Users/alice".into()),
            git_branch: None,
        })
    );
}

#[test]
fn parses_preexec() {
    let mut s = Sniffer::new();
    s.feed(&preexec_bytes("ls -la"));
    assert_eq!(s.pop(), Some(DcsEvent::Preexec { command: "ls -la".into() }));
}

#[test]
fn parses_command_finished_with_nonzero_exit() {
    let mut s = Sniffer::new();
    s.feed(&command_finished_bytes(127));
    assert_eq!(s.pop(), Some(DcsEvent::CommandFinished { exit_code: 127 }));
}

#[test]
fn parses_command_finished_with_negative_exit() {
    let mut s = Sniffer::new();
    s.feed(&command_finished_bytes(-1));
    assert_eq!(s.pop(), Some(DcsEvent::CommandFinished { exit_code: -1 }));
}

#[test]
fn parses_full_prompt_cycle() {
    let mut s = Sniffer::new();
    s.feed(&precmd_bytes("/tmp"));
    s.feed(&preexec_bytes("ls"));
    s.feed(&command_finished_bytes(0));
    s.feed(&precmd_bytes("/tmp"));
    let mut events = Vec::new();
    while let Some(e) = s.pop() {
        events.push(e);
    }
    assert_eq!(
        events,
        vec![
            DcsEvent::Precmd { pwd: Some("/tmp".into()), git_branch: None },
            DcsEvent::Preexec { command: "ls".into() },
            DcsEvent::CommandFinished { exit_code: 0 },
            DcsEvent::Precmd { pwd: Some("/tmp".into()), git_branch: None },
        ]
    );
}

#[test]
fn decodes_json_string_escapes() {
    let json = r#"{"hook":"Preexec","value":{"command":"echo \"hi\\there\""}}"#;
    let mut s = Sniffer::new();
    s.feed(&dcs(&hex_of(json)));
    assert_eq!(s.pop(), Some(DcsEvent::Preexec { command: r#"echo "hi\there""#.into() }));
}

#[test]
fn decodes_unicode_escape() {
    let json = r#"{"hook":"Preexec","value":{"command":"a<b"}}"#;
    let mut s = Sniffer::new();
    s.feed(&dcs(&hex_of(json)));
    assert_eq!(s.pop(), Some(DcsEvent::Preexec { command: "a<b".into() }));
}

#[test]
fn ignores_unknown_hook_variants() {
    let mut s = Sniffer::new();
    let json = r#"{"hook":"Bootstrapped","value":{"shell":"zsh"}}"#;
    s.feed(&dcs(&hex_of(json)));
    assert_eq!(s.pending(), 0);
}

#[test]
fn malformed_hex_drops_event() {
    let mut s = Sniffer::new();
    s.feed(&dcs("zzznothex"));
    assert_eq!(s.pending(), 0);
}

#[test]
fn split_input_still_parses() {
    let mut s = Sniffer::new();
    let full = preexec_bytes("date");
    let (a, b) = full.split_at(full.len() / 2);
    s.feed(a);
    s.feed(b);
    assert_eq!(s.pop(), Some(DcsEvent::Preexec { command: "date".into() }));
}

#[test]
fn st_seven_bit_terminator_also_works() {
    let mut s = Sniffer::new();
    let json = r#"{"hook":"Precmd","value":{"pwd":"/x"}}"#;
    s.feed(&dcs7(&hex_of(json)));
    assert_eq!(s.pop(), Some(DcsEvent::Precmd { pwd: Some("/x".into()), git_branch: None }));
}

#[test]
fn sink_events_from_and_clear() {
    let mut s = Sniffer::new();
    s.feed(&precmd_bytes("/a"));
    s.feed(&preexec_bytes("x"));
    let tail = s.sink.events_from(1);
    assert_eq!(tail, vec![DcsEvent::Preexec { command: "x".into() }]);
    assert!(s.sink.events_from(9).is_empty());
    s.sink.clear();
    assert_eq!(s.pending(), 0);
}

#[test]
fn completed_frame_end_covers_backslash() {
    let bytes = [0x1B, b'\\', b'a'];
    assert_eq!(completed_frame_end(&bytes, 0), 2);
    assert_eq!(completed_frame_end(&bytes, 2), 3);
    assert_eq!(completed_frame_end(&[0x9C], 0), 1);
}

#[test]
fn ignores_dcs_with_other_final_byte() {
    let mut s = Sniffer::new();
    s.feed(&[0x1B, b'P', b'q', b'1', b';', 0x9C]);
    s.feed(&[0x1B, b'P', b'$', b'|', b'r', 0x9C]);
    assert_eq!(s.pending(), 0);
}
