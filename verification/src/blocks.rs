//! Command-block state machine. Consumes shell-integration events and keeps
//! an ordered list of [`Block`]s: row ranges of the terminal grid, sealed
//! with a frozen [`GridSnapshot`] when the command ends.
//!
//! The command duration is measured here, as the wall-clock delta between
//! `Preexec` and `CommandFinished`; the host gives each event's time as
//! milliseconds on its monotonic clock.

use vstd::prelude::*;
use crate::dcs::{DcsEvent, opt_string_view};
use crate::snapshot::GridSnapshot;

verus! {

/// Stable monotonic block id, assigned at open; never reused within one
/// store, not even across [`BlockStore::reset`].
pub type BlockId = u64;

/// `end_line` of a block that is still running.
pub const BLOCK_END_LINE_RUNNING: i32 = i32::MIN;

/// One command block.
#[derive(Debug, Clone)]
pub struct Block {
    pub id: BlockId,
    pub command: String,
    pub start_line: i32,
    /// [`BLOCK_END_LINE_RUNNING`] while running.
    pub end_line: i32,
    /// `None` while running.
    pub frozen_snapshot: Option<GridSnapshot>,
    /// `None` if the block sealed without a `CommandFinished` (Ctrl-C path,
    /// partial integration).
    pub exit_code: Option<i32>,
    /// Wall-clock command duration. `None` if no matching `Preexec` was
    /// observed before the seal.
    pub duration_ms: Option<u64>,
    /// Working directory shipped by the opening `Precmd`.
    pub working_directory: Option<String>,
    /// Git branch shipped by the opening `Precmd`.
    pub git_branch: Option<String>,
    pub is_running: bool,
}

/// Mathematical form of a [`Block`].
pub struct BlockView {
    pub id: u64,
    pub command: Seq<char>,
    pub start_line: i32,
    pub end_line: i32,
    pub frozen_snapshot: Option<GridSnapshot>,
    pub exit_code: Option<i32>,
    pub duration_ms: Option<u64>,
    pub working_directory: Option<Seq<char>>,
    pub git_branch: Option<Seq<char>>,
    pub is_running: bool,
}

impl View for Block {
    type V = BlockView;

    open spec fn view(&self) -> BlockView {
        BlockView {
            id: self.id,
            command: self.command@,
            start_line: self.start_line,
            end_line: self.end_line,
            frozen_snapshot: self.frozen_snapshot,
            exit_code: self.exit_code,
            duration_ms: self.duration_ms,
            working_directory: opt_string_view(self.working_directory),
            git_branch: opt_string_view(self.git_branch),
            is_running: self.is_running,
        }
    }
}

pub open spec fn block_views(v: Seq<Block>) -> Seq<BlockView> {
    v.map_values(|b: Block| b@)
}

/// A block just opened at `line`.
pub open spec fn opened_block(id: u64, line: i32, pwd: Option<Seq<char>>, branch: Option<Seq<char>>) -> BlockView {
    BlockView {
        id,
        command: Seq::empty(),
        start_line: line,
        end_line: BLOCK_END_LINE_RUNNING,
        frozen_snapshot: None,
        exit_code: None,
        duration_ms: None,
        working_directory: pwd,
        git_branch: branch,
        is_running: true,
    }
}

/// `b` sealed at `end` with the given body, exit code and duration.
pub open spec fn sealed_block(b: BlockView, end: i32, snap: Option<GridSnapshot>, exit: Option<i32>, dur: Option<u64>) -> BlockView {
    BlockView { end_line: end, frozen_snapshot: snap, exit_code: exit, duration_ms: dur, is_running: false, ..b }
}

/// Milliseconds from `start` to `now`, 0 when `now` is earlier.
pub open spec fn elapsed_ms(now: u64, start: u64) -> u64 {
    if now >= start { (now - start) as u64 } else { 0 }
}

/// `b` with its command and body start set at `Preexec`.
pub open spec fn started_block(b: BlockView, command: Seq<char>, line: i32) -> BlockView {
    BlockView { command, start_line: line, ..b }
}

/// `current_line + 1`, saturating at `i32::MAX`.
pub open spec fn seal_end(line: i32) -> i32 {
    if line == i32::MAX { line } else { (line + 1) as i32 }
}

/// Ordered command blocks plus the bookkeeping to open and seal them.
pub struct BlockStore {
    blocks: Vec<Block>,
    next_id: BlockId,
    open_index: Option<usize>,
    /// Time of the last `Preexec` since which no block was sealed; read by
    /// the next `CommandFinished`.
    command_start: Option<u64>,
}

impl BlockStore {
    /// The blocks, oldest first.
    pub closed spec fn view_blocks(&self) -> Seq<BlockView> {
        block_views(self.blocks@)
    }

    /// The id the next opened block will get.
    pub closed spec fn next_id(&self) -> u64 {
        self.next_id
    }

    /// Index of the running block, if any.
    pub closed spec fn open_index(&self) -> Option<int> {
        match self.open_index {
            Some(i) => Some(i as int),
            None => None,
        }
    }

    /// When the `Preexec` that the next `CommandFinished` measures from
    /// arrived, if one did.
    pub closed spec fn clock_start(&self) -> Option<u64> {
        self.command_start
    }

    /// The store's invariant: ids strictly increase and stay below
    /// `next_id`; exactly the block at `open_index` is running, and it is
    /// the last one; a running block has no end, body, exit or duration.
    pub closed spec fn wf(&self) -> bool {
        let b = self.view_blocks();
        &&& self.next_id >= 1
        &&& forall|i: int, j: int| 0 <= i < j < b.len() ==> b[i].id < b[j].id
        &&& forall|i: int| 0 <= i < b.len() ==> #[trigger] b[i].id < self.next_id
        &&& match self.open_index {
            Some(k) => k == b.len() - 1,
            None => true,
        }
        &&& forall|i: int| 0 <= i < b.len() ==> (#[trigger] b[i].is_running
            <==> self.open_index == Some(i as usize))
        &&& forall|i: int| 0 <= i < b.len() && #[trigger] b[i].is_running ==> {
            &&& b[i].end_line == BLOCK_END_LINE_RUNNING
            &&& b[i].frozen_snapshot is None
            &&& b[i].exit_code is None
            &&& b[i].duration_ms is None
        }
    }

    pub fn new() -> (s: BlockStore)
        ensures
            s.wf(),
            s.view_blocks() == Seq::<BlockView>::empty(),
            s.next_id() == 1,
            s.open_index() is None,
            s.clock_start() is None,
    {
        let s = BlockStore { blocks: Vec::new(), next_id: 1, open_index: None, command_start: None };
        assert(s.view_blocks() =~= Seq::<BlockView>::empty());
        s
    }

    pub fn blocks(&self) -> (r: &[Block])
        ensures
            block_views(r@) == self.view_blocks(),
    {
        self.blocks.as_slice()
    }

    pub fn len(&self) -> (n: usize)
        ensures
            n == self.view_blocks().len(),
    {
        self.blocks.len()
    }

    pub fn is_empty(&self) -> (r: bool)
        ensures
            r == (self.view_blocks().len() == 0),
    {
        self.blocks.len() == 0
    }

    pub fn get(&self, idx: usize) -> (r: Option<&Block>)
        ensures
            match r {
                Some(b) => idx < self.view_blocks().len() && b@ == self.view_blocks()[idx as int],
                None => idx >= self.view_blocks().len(),
            },
    {
        if idx < self.blocks.len() {
            Some(&self.blocks[idx])
        } else {
            None
        }
    }

    /// Drop every block and the running clock. Ids keep counting up.
    pub fn reset(&mut self)
        requires
            old(self).wf(),
        ensures
            final(self).wf(),
            reset_relation(*old(self), *final(self)),
    {
        self.blocks.clear();
        self.open_index = None;
        self.command_start = None;
        assert(self.view_blocks() =~= Seq::<BlockView>::empty());
    }

    /// Open a new running block at the end.
    fn open_new(&mut self, current_line: i32, pwd: Option<String>, git_branch: Option<String>)
        requires
            old(self).wf(),
            old(self).open_index() is None,
            old(self).next_id() < u64::MAX,
        ensures
            final(self).wf(),
            final(self).view_blocks() == old(self).view_blocks().push(
                opened_block(old(self).next_id(), current_line, opt_string_view(pwd), opt_string_view(git_branch))),
            final(self).next_id() == old(self).next_id() + 1,
            final(self).open_index() == Some(old(self).view_blocks().len() as int),
            final(self).clock_start() == old(self).clock_start(),
    {
        let id = self.next_id;
        self.next_id = self.next_id + 1;
        let ghost before = block_views(self.blocks@);
        let b = Block {
            id,
            command: String::new(),
            start_line: current_line,
            end_line: BLOCK_END_LINE_RUNNING,
            frozen_snapshot: None,
            exit_code: None,
            duration_ms: None,
            working_directory: pwd,
            git_branch,
            is_running: true,
        };
        self.blocks.push(b);
        self.open_index = Some(self.blocks.len() - 1);
        assert(block_views(self.blocks@) =~= before.push(b@));
    }

    /// Seal the running block (if any) at `current_line + 1` with the body
    /// `snapshot_range(start_line, end_line)`.
    fn seal_with<F>(&mut self, current_line: i32, exit_code: Option<i32>, duration_ms: Option<u64>,
        snapshot_range: &mut F)
        where F: FnMut(i32, i32) -> Option<GridSnapshot>,
        requires
            old(self).wf(),
            forall|a: i32, b: i32| call_requires(*old(snapshot_range), (a, b)),
        ensures
            final(self).wf(),
            final(self).next_id() == old(self).next_id(),
            final(self).clock_start() == old(self).clock_start(),
            final(self).open_index() is None,
            match old(self).open_index() {
                None => final(self).view_blocks() == old(self).view_blocks(),
                Some(k) => {
                    &&& final(self).view_blocks() == old(self).view_blocks().update(k, sealed_block(
                        old(self).view_blocks()[k], seal_end(current_line),
                        final(self).view_blocks()[k].frozen_snapshot, exit_code, duration_ms))
                    &&& call_ensures(*old(snapshot_range),
                        (old(self).view_blocks()[k].start_line, seal_end(current_line)),
                        final(self).view_blocks()[k].frozen_snapshot)
                },
            },
    {
        let idx = match self.open_index {
            Some(i) => i,
            None => return,
        };
        let ghost before = block_views(self.blocks@);
        let end_line = if current_line == i32::MAX { current_line } else { current_line + 1 };
        let mut block = self.blocks.pop().unwrap();
        assert(before[idx as int] == block@);
        let snap = snapshot_range(block.start_line, end_line);
        block.is_running = false;
        block.end_line = end_line;
        block.frozen_snapshot = snap;
        block.exit_code = exit_code;
        block.duration_ms = duration_ms;
        self.blocks.push(block);
        self.open_index = None;
        proof {
            assert(block_views(self.blocks@) =~= before.update(idx as int, block@));
        }
    }

    /// Apply one shell-integration event arriving while the cursor is on
    /// grid line `current_line`, at `now_ms` milliseconds on the host's
    /// monotonic clock.
    ///
    /// - `Precmd` seals a still-running block (no exit code, no duration —
    ///   the Ctrl-C path), stops the clock, and opens a new running block at
    ///   `current_line` with the shipped `pwd` and branch.
    /// - `Preexec` opens a block first if none runs, then records the
    ///   command, moves the block's body start to `current_line`, and
    ///   starts the clock.
    /// - `CommandFinished` stops the clock and seals the running block, if
    ///   any, with the exit code and, if the clock was running, the
    ///   milliseconds since it started (0 if `now_ms` is earlier).
    ///
    /// A block is sealed at `end_line = current_line + 1` (saturating) with
    /// body `snapshot_range(start_line, end_line)`.
    pub fn apply<F>(&mut self, event: &DcsEvent, current_line: i32, now_ms: u64, mut snapshot_range: F)
        where F: FnMut(i32, i32) -> Option<GridSnapshot>,
        requires
            old(self).wf(),
            old(self).next_id() < u64::MAX,
            forall|a: i32, b: i32| call_requires(snapshot_range, (a, b)),
        ensures
            final(self).wf(),
            apply_relation(*old(self), *final(self), event@, current_line, now_ms, snapshot_range),
    {
        let ghost s0 = *self;
        let ghost f0 = snapshot_range;
        match event {
            DcsEvent::Precmd { pwd, git_branch } => {
                self.seal_with(current_line, None, None, &mut snapshot_range);
                self.command_start = None;
                let ghost mid = self.view_blocks();
                self.open_new(current_line, clone_opt(pwd), clone_opt(git_branch));
                assert(self.wf());
                assert(apply_relation(s0, *self, event@, current_line, now_ms, f0));
            }
            DcsEvent::Preexec { command } => {
                if self.open_index.is_none() {
                    self.open_new(current_line, None, None);
                }
                let ghost before = block_views(self.blocks@);
                let ghost last = before.len() - 1;
                assert(before[last].is_running);
                let mut block = self.blocks.pop().unwrap();
                assert(block@ == before[last]);
                block.command = command.clone();
                block.start_line = current_line;
                self.blocks.push(block);
                assert(block_views(self.blocks@) =~= before.update(last, block@));
                proof {
                    if s0.open_index() is None {
                        assert(block_views(self.blocks@) =~= s0.view_blocks().push(started_block(
                            opened_block(s0.next_id(), current_line, None, None), command@, current_line)));
                    }
                }
                self.command_start = Some(now_ms);
                assert(self.wf());
                assert(apply_relation(s0, *self, event@, current_line, now_ms, f0));
            }
            DcsEvent::CommandFinished { exit_code } => {
                let duration_ms = match self.command_start {
                    Some(start) => Some(now_ms.saturating_sub(start)),
                    None => None,
                };
                self.command_start = None;
                self.seal_with(current_line, Some(*exit_code), duration_ms, &mut snapshot_range);
                assert(self.wf());
                assert(apply_relation(s0, *self, event@, current_line, now_ms, f0));
            }
        }
    }
}

/// What [`BlockStore::apply`] does to the store: see its documentation.
pub open spec fn apply_relation<F: FnMut(i32, i32) -> Option<GridSnapshot>>(
    old: BlockStore, new: BlockStore, event: crate::dcs::DcsEventView, current_line: i32, now_ms: u64,
    snapshot_range: F,
) -> bool {
{
                let ob = old.view_blocks();
                let nb = new.view_blocks();
                let end = seal_end(current_line);
                match event {
                    crate::dcs::DcsEventView::Precmd { pwd, git_branch } => {
                        &&& new.next_id() == old.next_id() + 1
                        &&& new.clock_start() is None
                        &&& new.open_index() == Some(nb.len() - 1)
                        &&& match old.open_index() {
                            None => nb == ob.push(opened_block(old.next_id(), current_line, pwd, git_branch)),
                            Some(k) => {
                                &&& nb == ob.update(k, sealed_block(ob[k], end, nb[k].frozen_snapshot, None, None))
                                    .push(opened_block(old.next_id(), current_line, pwd, git_branch))
                                &&& call_ensures(snapshot_range, (ob[k].start_line, end), nb[k].frozen_snapshot)
                            },
                        }
                    },
                    crate::dcs::DcsEventView::Preexec { command } => {
                        &&& new.clock_start() == Some(now_ms)
                        &&& match old.open_index() {
                            None => {
                                &&& nb == ob.push(started_block(
                                    opened_block(old.next_id(), current_line, None, None), command, current_line))
                                &&& new.next_id() == old.next_id() + 1
                                &&& new.open_index() == Some(ob.len() as int)
                            },
                            Some(k) => {
                                &&& nb == ob.update(k, started_block(ob[k], command, current_line))
                                &&& new.next_id() == old.next_id()
                                &&& new.open_index() == Some(k)
                            },
                        }
                    },
                    crate::dcs::DcsEventView::CommandFinished { exit_code } => {
                        &&& new.clock_start() is None
                        &&& new.next_id() == old.next_id()
                        &&& new.open_index() is None
                        &&& match old.open_index() {
                            None => nb == ob,
                            Some(k) => {
                                &&& nb == ob.update(k, sealed_block(ob[k], end, nb[k].frozen_snapshot,
                                    Some(exit_code), match old.clock_start() {
                                        Some(start) => Some(elapsed_ms(now_ms, start)),
                                        None => None,
                                    }))
                                &&& call_ensures(snapshot_range, (ob[k].start_line, end), nb[k].frozen_snapshot)
                            },
                        }
                    },
                }
            }
}

/// What [`BlockStore::reset`] does to the store.
pub open spec fn reset_relation(old: BlockStore, new: BlockStore) -> bool {
    &&& new.view_blocks() == Seq::<BlockView>::empty()
    &&& new.next_id() == old.next_id()
    &&& new.open_index() is None
    &&& new.clock_start() is None
}

/// At most one block runs at a time, and only the newest can: every older
/// block is sealed. A running block has no end line, body, exit code or
/// duration yet.
pub proof fn law_only_newest_block_runs(s: BlockStore)
    requires
        s.wf(),
    ensures
        forall|i: int| 0 <= i < s.view_blocks().len() && #[trigger] s.view_blocks()[i].is_running
            ==> i == s.view_blocks().len() - 1,
        forall|i: int| 0 <= i < s.view_blocks().len() && #[trigger] s.view_blocks()[i].is_running ==> {
            &&& s.view_blocks()[i].end_line == BLOCK_END_LINE_RUNNING
            &&& s.view_blocks()[i].frozen_snapshot is None
            &&& s.view_blocks()[i].exit_code is None
            &&& s.view_blocks()[i].duration_ms is None
        },
{
}

/// Block ids strictly increase from the oldest block to the newest.
pub proof fn law_ids_increase(s: BlockStore)
    requires
        s.wf(),
    ensures
        forall|i: int, j: int| 0 <= i < j < s.view_blocks().len()
            ==> s.view_blocks()[i].id < s.view_blocks()[j].id,
{
}

/// Sealed blocks are frozen: applying an event never removes a block and
/// never changes one that is already sealed.
pub proof fn law_sealed_blocks_frozen<F: FnMut(i32, i32) -> Option<GridSnapshot>>(
    old: BlockStore, new: BlockStore, event: crate::dcs::DcsEventView, current_line: i32, now_ms: u64,
    snapshot_range: F,
)
    requires
        old.wf(),
        apply_relation(old, new, event, current_line, now_ms, snapshot_range),
    ensures
        new.view_blocks().len() >= old.view_blocks().len(),
        forall|i: int| 0 <= i < old.view_blocks().len() && !(#[trigger] old.view_blocks()[i]).is_running
            ==> new.view_blocks()[i] == old.view_blocks()[i],
{
}

/// Ids are never reused: after a reset, the blocks that the next event
/// creates all have ids above every id the store held before the reset.
pub proof fn law_ids_fresh_after_reset<F: FnMut(i32, i32) -> Option<GridSnapshot>>(
    before: BlockStore, cleared: BlockStore, after: BlockStore, event: crate::dcs::DcsEventView,
    current_line: i32, now_ms: u64, snapshot_range: F,
)
    requires
        before.wf(),
        reset_relation(before, cleared),
        cleared.wf(),
        apply_relation(cleared, after, event, current_line, now_ms, snapshot_range),
    ensures
        forall|i: int, j: int| 0 <= i < before.view_blocks().len() && 0 <= j < after.view_blocks().len()
            ==> before.view_blocks()[i].id < after.view_blocks()[j].id,
{
    assert forall|i: int, j: int| 0 <= i < before.view_blocks().len() && 0 <= j < after.view_blocks().len()
        implies before.view_blocks()[i].id < after.view_blocks()[j].id by {
        assert(before.view_blocks()[i].id < before.next_id());
        assert(cleared.open_index() is None);
        assert(after.view_blocks()[j].id == cleared.next_id());
    }
}

/// One event keeps the store in shape: ids still strictly increase, only
/// the newest block can run, every block sealed before stays as it was, at
/// most one block is added, and a `Precmd` always leaves a fresh running
/// block last, opened at `current_line` with the shipped directory and
/// branch and no command yet.
pub proof fn law_apply_step<F: FnMut(i32, i32) -> Option<GridSnapshot>>(
    old: BlockStore, new: BlockStore, event: crate::dcs::DcsEventView, current_line: i32, now_ms: u64,
    snapshot_range: F,
)
    requires
        old.wf(),
        new.wf(),
        apply_relation(old, new, event, current_line, now_ms, snapshot_range),
    ensures
        forall|i: int, j: int| 0 <= i < j < new.view_blocks().len()
            ==> new.view_blocks()[i].id < new.view_blocks()[j].id,
        forall|i: int| 0 <= i < new.view_blocks().len() && #[trigger] new.view_blocks()[i].is_running
            ==> i == new.view_blocks().len() - 1,
        forall|i: int| 0 <= i < old.view_blocks().len() && !(#[trigger] old.view_blocks()[i]).is_running
            ==> new.view_blocks()[i] == old.view_blocks()[i],
        old.view_blocks().len() <= new.view_blocks().len() <= old.view_blocks().len() + 1,
        event matches crate::dcs::DcsEventView::Precmd { pwd, git_branch } ==> {
            let nb = new.view_blocks();
            &&& nb.len() > 0
            &&& nb.last().is_running
            &&& nb.last().start_line == current_line
            &&& nb.last().command == Seq::<char>::empty()
            &&& nb.last().working_directory == pwd
            &&& nb.last().git_branch == git_branch
        },
{
    law_ids_increase(new);
    law_only_newest_block_runs(new);
    law_sealed_blocks_frozen(old, new, event, current_line, now_ms, snapshot_range);
}

/// A command's body starts at the row where its output begins: `Preexec`
/// at `line` puts the running block's start there, so the `CommandFinished`
/// that follows seals it with the body snapshotted from `line` to the row
/// after the cursor — the echoed prompt and command line are left out —
/// and with the milliseconds from the `Preexec` to the `CommandFinished`
/// (0 if the clock went backwards) as its duration.
pub proof fn law_body_starts_at_preexec_row<F: FnMut(i32, i32) -> Option<GridSnapshot>>(
    s0: BlockStore, s1: BlockStore, s2: BlockStore, command: Seq<char>, line: i32, t1: u64, end: i32,
    t2: u64, exit_code: i32, f: F,
)
    requires
        s0.wf(),
        s1.wf(),
        apply_relation(s0, s1, crate::dcs::DcsEventView::Preexec { command }, line, t1, f),
        apply_relation(s1, s2, crate::dcs::DcsEventView::CommandFinished { exit_code }, end, t2, f),
    ensures
        s1.view_blocks().len() > 0,
        s1.view_blocks().last().is_running,
        s1.view_blocks().last().start_line == line,
        s1.view_blocks().last().command == command,
        s2.view_blocks().len() == s1.view_blocks().len(),
        !s2.view_blocks().last().is_running,
        s2.view_blocks().last().start_line == line,
        s2.view_blocks().last().exit_code == Some(exit_code),
        call_ensures(f, (line, seal_end(end)), s2.view_blocks().last().frozen_snapshot),
        s2.view_blocks().last().duration_ms == Some((if t2 >= t1 { t2 - t1 } else { 0 }) as u64),
{
    let k = s1.view_blocks().len() - 1;
    assert(s1.open_index() == Some(k));
}

fn clone_opt(s: &Option<String>) -> (r: Option<String>)
    ensures
        opt_string_view(r) == opt_string_view(*s),
{
    match s {
        Some(x) => Some(x.clone()),
        None => None,
    }
}

} // verus!
