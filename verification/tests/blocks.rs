use bedterm_core::blocks::{BlockStore, BLOCK_END_LINE_RUNNING};
use bedterm_core::dcs::DcsEvent;
use bedterm_core::snapshot::{CellSnapshot, GridSnapshot};

fn snap_stub(_start: i32, _end: i32) -> Option<GridSnapshot> {
    Some(GridSnapshot {
        cols: 1,
        rows: 1,
        cursor_col: 0,
        cursor_row: 1,
        display_offset: 0,
        cells: vec![CellSnapshot {
            ch: 'A' as u32,
            fg_rgba: 0,
            bg_rgba: 0,
            flags: 0,
        }],
    })
}

fn no_snap(_start: i32, _end: i32) -> Option<GridSnapshot> {
    None
}

fn precmd(pwd: Option<&str>) -> DcsEvent {
    DcsEvent::Precmd {
        pwd: pwd.map(str::to_owned),
        git_branch: None,
    }
}

fn preexec(cmd: &str) -> DcsEvent {
    DcsEvent::Preexec {
        command: cmd.to_owned(),
    }
}

fn command_finished(exit: i32) -> DcsEvent {
    DcsEvent::CommandFinished { exit_code: exit }
}

#[test]
fn empty_on_init() {
    let s = BlockStore::new();
    assert!(s.is_empty());
}

#[test]
fn first_precmd_opens_running_block_with_pwd() {
    let mut s = BlockStore::new();
    s.apply(&precmd(Some("/home/alice")), 5, 0, no_snap);
    assert_eq!(s.len(), 1);
    let b = s.get(0).unwrap();
    assert_eq!(b.start_line, 5);
    assert_eq!(b.end_line, BLOCK_END_LINE_RUNNING);
    assert!(b.is_running);
    assert_eq!(b.working_directory.as_deref(), Some("/home/alice"));
    assert!(b.frozen_snapshot.is_none());
}

#[test]
fn preexec_fills_command_and_starts_clock() {
    let mut s = BlockStore::new();
    let t0: u64 = 0;
    s.apply(&precmd(None), 0, t0, no_snap);
    s.apply(&preexec("ls"), 0, t0, no_snap);
    assert_eq!(s.get(0).unwrap().command, "ls");
}

#[test]
fn command_finished_seals_and_records_duration() {
    let mut s = BlockStore::new();
    let t0: u64 = 0;
    s.apply(&precmd(Some("/tmp")), 3, t0, no_snap);
    s.apply(&preexec("ls"), 3, t0, no_snap);
    s.apply(
        &command_finished(0),
        7,
        t0 + 1234,
        snap_stub,
    );
    let first = s.get(0).unwrap();
    assert!(!first.is_running);
    assert_eq!(first.end_line, 8);
    assert_eq!(first.exit_code, Some(0));
    assert_eq!(first.duration_ms, Some(1234));
    assert!(first.frozen_snapshot.is_some());
}

#[test]
fn nonzero_exit_carried() {
    let mut s = BlockStore::new();
    let t0: u64 = 0;
    s.apply(&precmd(None), 0, t0, no_snap);
    s.apply(&preexec("false"), 0, t0, no_snap);
    s.apply(&command_finished(127), 0, t0, no_snap);
    assert_eq!(s.get(0).unwrap().exit_code, Some(127));
}

#[test]
fn precmd_without_command_finished_seals_with_no_exit() {
    let mut s = BlockStore::new();
    let t0: u64 = 0;
    s.apply(&precmd(None), 0, t0, no_snap);
    s.apply(&preexec("sleep 100"), 0, t0, no_snap);
    s.apply(&precmd(None), 0, t0, no_snap);
    assert_eq!(s.len(), 2);
    let first = s.get(0).unwrap();
    assert!(!first.is_running);
    assert!(first.exit_code.is_none());
    assert!(first.duration_ms.is_none());
}

#[test]
fn preexec_without_precmd_synthesises_open() {
    let mut s = BlockStore::new();
    s.apply(&preexec("date"), 9, 0, no_snap);
    assert_eq!(s.len(), 1);
    assert_eq!(s.get(0).unwrap().command, "date");
    assert!(s.get(0).unwrap().is_running);
}

#[test]
fn command_finished_without_preexec_seals_without_duration() {
    let mut s = BlockStore::new();
    let t0: u64 = 0;
    s.apply(&precmd(None), 0, t0, no_snap);
    s.apply(
        &command_finished(0),
        0,
        t0 + 50,
        no_snap,
    );
    let b = s.get(0).unwrap();
    assert!(!b.is_running);
    assert_eq!(b.exit_code, Some(0));
    assert!(b.duration_ms.is_none());
}

#[test]
fn reset_clears_all() {
    let mut s = BlockStore::new();
    let t0: u64 = 0;
    s.apply(&precmd(None), 0, t0, no_snap);
    s.apply(&preexec("ls"), 0, t0, no_snap);
    s.apply(&command_finished(0), 0, t0, no_snap);
    assert!(!s.is_empty());
    s.reset();
    assert!(s.is_empty());
}

#[test]
fn block_ids_are_monotonic_across_reset() {
    let mut s = BlockStore::new();
    let t0: u64 = 0;
    s.apply(&precmd(None), 0, t0, no_snap);
    let first_id = s.get(0).unwrap().id;
    s.reset();
    s.apply(&precmd(None), 0, t0, no_snap);
    assert!(s.get(0).unwrap().id > first_id);
}

#[test]
fn only_newest_block_runs() {
    let mut s = BlockStore::new();
    let t0: u64 = 0;
    s.apply(&precmd(None), 0, t0, no_snap);
    s.apply(&preexec("a"), 0, t0, no_snap);
    s.apply(&precmd(None), 4, t0, no_snap);
    s.apply(&preexec("b"), 4, t0, no_snap);
    assert_eq!(s.len(), 2);
    assert!(!s.get(0).unwrap().is_running);
    assert!(s.get(1).unwrap().is_running);
    assert!(s.get(0).unwrap().id < s.get(1).unwrap().id);
    assert_eq!(s.get(0).unwrap().end_line, 5);
}

#[test]
fn sealed_block_is_frozen() {
    let mut s = BlockStore::new();
    let t0: u64 = 0;
    s.apply(&precmd(Some("/a")), 1, t0, no_snap);
    s.apply(&command_finished(3), 2, t0, snap_stub);
    let before = s.get(0).unwrap().clone();
    s.apply(&precmd(Some("/b")), 5, t0, no_snap);
    s.apply(&command_finished(4), 6, t0, no_snap);
    let after = s.get(0).unwrap();
    assert_eq!(after.exit_code, before.exit_code);
    assert_eq!(after.end_line, before.end_line);
    assert_eq!(after.working_directory, before.working_directory);
    assert_eq!(s.get(1).unwrap().exit_code, Some(4));
}

#[test]
fn get_out_of_range_is_none() {
    let s = BlockStore::new();
    assert!(s.get(0).is_none());
    assert_eq!(s.blocks().len(), 0);
}

#[test]
fn cancelled_command_stops_the_clock() {
    let mut s = BlockStore::new();
    s.apply(&precmd(None), 0, 0, no_snap);
    s.apply(&preexec("sleep 100"), 0, 10, no_snap);
    s.apply(&precmd(None), 0, 20, no_snap);
    s.apply(&command_finished(0), 0, 70, no_snap);
    let second = s.get(1).unwrap();
    assert!(!second.is_running);
    assert_eq!(second.exit_code, Some(0));
    assert!(second.duration_ms.is_none());
}

#[test]
fn duration_is_elapsed_milliseconds_saturating() {
    let mut s = BlockStore::new();
    s.apply(&precmd(None), 0, 0, no_snap);
    s.apply(&preexec("ls"), 0, 500, no_snap);
    s.apply(&command_finished(0), 1, 400, no_snap);
    assert_eq!(s.get(0).unwrap().duration_ms, Some(0));
}
