use alacritty_terminal::vte::{Parser, Perform};
use bedterm_core::osc133::{join_attrs, parse_i32, Osc133Event, Osc133Sink};

struct Adapter<'a>(&'a mut Osc133Sink);

impl Perform for Adapter<'_> {
    fn osc_dispatch(&mut self, params: &[&[u8]], _bell_terminated: bool) {
        self.0.osc_dispatch(params);
    }
}

struct Sniffer {
    parser: Parser,
    sink: Osc133Sink,
}

impl Sniffer {
    fn new() -> Self {
        Sniffer { parser: Parser::new(), sink: Osc133Sink::new() }
    }
    fn feed(&mut self, bytes: &[u8]) {
        self.parser.advance(&mut Adapter(&mut self.sink), bytes);
    }
    fn pop(&mut self) -> Option<Osc133Event> {
        self.sink.pop()
    }
    fn pending(&self) -> usize {
        self.sink.pending()
    }
}

fn osc(suffix: &str) -> Vec<u8> {
    let mut v = vec![0x1B, b']'];
    v.extend_from_slice(suffix.as_bytes());
    v.push(0x07);
    v
}

#[test]
fn parses_prompt_start_without_attrs() {
    let mut s = Sniffer::new();
    s.feed(&osc("133;A"));
    assert_eq!(s.pop(), Some(Osc133Event::PromptStart { attrs: vec![] }));
}

#[test]
fn parses_full_lifecycle() {
    let mut s = Sniffer::new();
    s.feed(&osc("133;A"));
    s.feed(&osc("133;B"));
    s.feed(&osc("133;C"));
    s.feed(&osc("133;D;0"));
    assert_eq!(s.pop(), Some(Osc133Event::PromptStart { attrs: vec![] }));
    assert_eq!(s.pop(), Some(Osc133Event::CommandStart { attrs: vec![] }));
    assert_eq!(s.pop(), Some(Osc133Event::OutputStart { attrs: vec![] }));
    assert_eq!(s.pop(), Some(Osc133Event::CommandEnd { exit_code: Some(0), attrs: vec![] }));
}

#[test]
fn parses_attrs_on_prompt_start() {
    let mut s = Sniffer::new();
    s.feed(&osc("133;A;user-host=alice@host;current-dir=/Users/alice"));
    assert_eq!(
        s.pop(),
        Some(Osc133Event::PromptStart { attrs: b"user-host=alice@host;current-dir=/Users/alice".to_vec() })
    );
}

#[test]
fn parses_command_with_cmd_attr() {
    let mut s = Sniffer::new();
    s.feed(&osc("133;C;cmd=bHM="));
    assert_eq!(s.pop(), Some(Osc133Event::OutputStart { attrs: b"cmd=bHM=".to_vec() }));
}

#[test]
fn parses_command_end_with_exit_and_attrs() {
    let mut s = Sniffer::new();
    s.feed(&osc("133;D;0;dur=1234;cwd=L1VzZXJzL2FsaWNl"));
    assert_eq!(
        s.pop(),
        Some(Osc133Event::CommandEnd { exit_code: Some(0), attrs: b"dur=1234;cwd=L1VzZXJzL2FsaWNl".to_vec() })
    );
}

#[test]
fn parses_command_end_without_exit_with_attrs() {
    let mut s = Sniffer::new();
    s.feed(&osc("133;D;err=14"));
    assert_eq!(s.pop(), Some(Osc133Event::CommandEnd { exit_code: None, attrs: b"err=14".to_vec() }));
}

#[test]
fn parses_nonzero_exit() {
    let mut s = Sniffer::new();
    s.feed(&osc("133;D;127"));
    assert_eq!(s.pop(), Some(Osc133Event::CommandEnd { exit_code: Some(127), attrs: vec![] }));
}

#[test]
fn parses_missing_exit() {
    let mut s = Sniffer::new();
    s.feed(&osc("133;D"));
    assert_eq!(s.pop(), Some(Osc133Event::CommandEnd { exit_code: None, attrs: vec![] }));
}

#[test]
fn ignores_other_oscs() {
    let mut s = Sniffer::new();
    s.feed(&osc("0;hello"));
    s.feed(&osc("4;1;#ff0000"));
    s.feed(&osc("8;;https://example.com"));
    assert_eq!(s.pending(), 0);
}

#[test]
fn st_terminator_alternative() {
    let mut s = Sniffer::new();
    s.feed(&[0x1B, b']', b'1', b'3', b'3', b';', b'A', 0x1B, 0x5C]);
    assert_eq!(s.pop(), Some(Osc133Event::PromptStart { attrs: vec![] }));
}

#[test]
fn ignores_unknown_subkind() {
    let mut s = Sniffer::new();
    s.feed(&osc("133;Q"));
    s.feed(&osc("133;L"));
    assert_eq!(s.pending(), 0);
}

#[test]
fn handles_split_input() {
    let mut s = Sniffer::new();
    s.feed(&[0x1B, b']', b'1']);
    s.feed(&[b'3', b'3', b';', b'A', 0x07]);
    assert_eq!(s.pop(), Some(Osc133Event::PromptStart { attrs: vec![] }));
}

#[test]
fn join_attrs_uses_semicolons() {
    let parts: [&[u8]; 3] = [b"a=1", b"", b"b=2"];
    assert_eq!(join_attrs(&parts), b"a=1;;b=2".to_vec());
    let none: [&[u8]; 0] = [];
    assert_eq!(join_attrs(&none), Vec::<u8>::new());
}

#[test]
fn parse_i32_matches_str_parse() {
    for s in ["0", "+7", "-0", "127", "-2147483648", "2147483647", "2147483648", "-2147483649", "", "-", "+", "1a", " 1", "007"] {
        assert_eq!(parse_i32(s.as_bytes()), s.parse::<i32>().ok(), "input {s:?}");
    }
}

#[test]
fn events_from_and_clear() {
    let mut s = Sniffer::new();
    s.feed(&osc("133;A"));
    s.feed(&osc("133;B;k=v"));
    assert_eq!(s.sink.events_from(1), vec![Osc133Event::CommandStart { attrs: b"k=v".to_vec() }]);
    assert!(s.sink.events_from(5).is_empty());
    s.sink.clear();
    assert_eq!(s.pending(), 0);
}
