use bedterm_core::mock_tty::programs::echo_shell::EchoShell;
use bedterm_core::mock_tty::programs::raw_sink::RawSink;
use bedterm_core::mock_tty::programs::replay::Replay;
use bedterm_core::mock_tty::MockTty;

fn joined(chunks: &[Vec<u8>]) -> Vec<u8> {
    chunks.iter().flat_map(|c| c.iter().copied()).collect()
}

#[test]
fn output_waits_for_a_sink() {
    let mut tty = MockTty::new(Box::new(RawSink::new()));
    let step = tty.write_input(b"abc");
    assert!(step.chunks.is_empty());
    assert!(step.replay_request.is_none());
    let chunks = tty.set_sink(true);
    assert!(chunks.iter().all(|c| !c.is_empty()));
    assert_eq!(joined(&chunks), b"abc".to_vec());
}

#[test]
fn sink_gets_each_step_in_order() {
    let mut tty = MockTty::new(Box::new(RawSink::new()));
    assert!(tty.set_sink(true).is_empty());
    let step = tty.write_input(b"xy");
    assert_eq!(joined(&step.chunks), b"xy".to_vec());
    let step = tty.write_input(b"z");
    assert_eq!(joined(&step.chunks), b"z".to_vec());
    let step = tty.tick(10);
    assert!(step.chunks.is_empty());
}

#[test]
fn detached_sink_holds_output_again() {
    let mut tty = MockTty::new(Box::new(RawSink::new()));
    tty.set_sink(true);
    assert!(tty.set_sink(false).is_empty());
    assert!(tty.write_input(b"q").chunks.is_empty());
    assert_eq!(joined(&tty.set_sink(true)), b"q".to_vec());
}

#[test]
fn echo_shell_boots_and_stays_quiet_on_cooked_input() {
    let mut tty = MockTty::new(Box::new(EchoShell::new()));
    tty.boot();
    let chunks = tty.set_sink(true);
    assert_eq!(
        joined(&chunks),
        b"BedTerm debug shell. Type a command.\r\nbedterm-debug$ ".to_vec()
    );
    let step = tty.write_input(b"exit\r");
    assert!(step.chunks.is_empty());
    assert!(step.replay_request.is_none());
}

#[test]
fn finished_replay_hands_over_to_the_echo_shell() {
    let replay = Replay::from_timed_rows(false, vec![(0, b"hi".to_vec()), (50, b"!".to_vec())], true);
    let mut tty = MockTty::new(Box::new(replay));
    tty.set_sink(true);
    let step = tty.tick(10);
    assert_eq!(joined(&step.chunks), b"hi".to_vec());
    let step = tty.tick(60);
    assert_eq!(
        joined(&step.chunks),
        b"!BedTerm debug shell. Type a command.\r\nbedterm-debug$ ".to_vec()
    );
    let step = tty.tick(70);
    assert!(step.chunks.is_empty());
}

#[test]
fn installed_program_boots_into_the_sink() {
    let mut tty = MockTty::new(Box::new(RawSink::new()));
    tty.set_sink(true);
    let chunks = tty.install(Box::new(EchoShell::new()));
    assert_eq!(
        joined(&chunks),
        b"BedTerm debug shell. Type a command.\r\nbedterm-debug$ ".to_vec()
    );
}
