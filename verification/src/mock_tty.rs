//! A mock TTY: byte-level programs behind a termios line discipline, used to
//! drive the terminal without a real shell. The controller hands input to
//! the foreground program, applies its line-discipline requests, swaps
//! programs when asked, and delivers the program's output to the host in
//! chunks once the host has a sink for it.

pub mod options;
pub mod program;
pub mod programs;
pub mod termios;

use vstd::prelude::*;
use crate::mock_tty::program::{
    Program, ProgramKind, ProgramModel, TermiosMode, model_boot, model_byte, model_mode, model_resize, model_switch,
    model_tick, model_wants_raw,
};
use crate::mock_tty::programs::echo_shell::echo_initial;
use crate::mock_tty::programs::vim_lite::vim_initial;
use crate::mock_tty::programs::echo_shell::EchoShell;
use crate::mock_tty::programs::raw_sink::RawSink;
use crate::mock_tty::programs::vim_lite::VimLite;
use crate::mock_tty::termios::Termios;

verus! {

/// Concatenation of the chunks.
pub open spec fn flat(chunks: Seq<Vec<u8>>) -> Seq<u8>
    decreases chunks.len(),
{
    if chunks.len() == 0 { Seq::empty() } else { flat(chunks.drop_last()) + chunks.last()@ }
}

pub open spec fn all_nonempty(chunks: Seq<Vec<u8>>) -> bool {
    forall|k: int| 0 <= k < chunks.len() ==> (#[trigger] chunks[k])@.len() > 0
}

/// Delivery of one step that printed `printed`: with a sink, what was
/// pending and then what was printed leave in non-empty chunks, in order,
/// and nothing stays pending; without one, nothing leaves and the printed
/// bytes join what is pending.
pub open spec fn delivered(old_pending: Seq<u8>, printed: Seq<u8>, sink: bool, chunks: Seq<Vec<u8>>, new_pending: Seq<u8>) -> bool {
    if sink {
        &&& all_nonempty(chunks)
        &&& new_pending.len() == 0
        &&& flat(chunks) == old_pending + printed
    } else {
        &&& chunks.len() == 0
        &&& new_pending == old_pending + printed
    }
}

/// The program's state and the line discipline after the program's
/// line-discipline request, if any, is applied.
pub open spec fn after_mode(m: ProgramModel, raw: bool) -> (ProgramModel, bool) {
    let (req, m1) = model_mode(m);
    (m1, match req {
        Some(TermiosMode::Raw) => true,
        Some(TermiosMode::Cooked) => false,
        None => raw,
    })
}

/// Input bytes one by one, each after the pending line-discipline request
/// is applied: the program's state, the line discipline, and what is
/// printed.
pub open spec fn feed_bytes(m: ProgramModel, raw: bool, bytes: Seq<u8>) -> (ProgramModel, bool, Seq<u8>)
    decreases bytes.len(),
{
    if bytes.len() == 0 {
        (m, raw, Seq::empty())
    } else {
        let (m1, r1, o1) = feed_bytes(m, raw, bytes.drop_last());
        let (m2, r2) = after_mode(m1, r1);
        (model_byte(m2, bytes.last()).0, r2, o1 + model_byte(m2, bytes.last()).1)
    }
}

/// A fresh program of a kind the controller builds itself.
pub open spec fn kind_model(k: ProgramKind) -> ProgramModel {
    match k {
        ProgramKind::EchoShell => ProgramModel::Echo(echo_initial()),
        ProgramKind::VimLite => ProgramModel::Vim(vim_initial()),
        _ => ProgramModel::Raw,
    }
}

/// Where a step leaves the controller: the program's state, the line
/// discipline, all that the step printed, and a replay for the host to
/// build.
pub struct Settled {
    pub model: ProgramModel,
    pub raw: bool,
    pub printed: Seq<u8>,
    pub replay: Option<(Seq<char>, bool)>,
}

/// The program's hand-over request answered: a replay goes to the host;
/// another program is started in the line discipline it wants and boots.
pub open spec fn switch_outcome(m: ProgramModel, raw: bool) -> Settled {
    let (sw, m1) = model_switch(m);
    match sw {
        None => Settled { model: m1, raw, printed: Seq::empty(), replay: None },
        Some(ProgramKind::Replay { cast_text, return_to_echo }) => Settled {
            model: m1,
            raw,
            printed: Seq::empty(),
            replay: Some((cast_text@, return_to_echo)),
        },
        Some(k) => Settled {
            model: model_boot(kind_model(k)).0,
            raw: model_wants_raw(kind_model(k)),
            printed: model_boot(kind_model(k)).1,
            replay: None,
        },
    }
}

/// The end of every step that printed `printed` so far: the line-discipline
/// request, then the hand-over request.
pub open spec fn settle(m: ProgramModel, raw: bool, printed: Seq<u8>) -> Settled {
    let (m1, r1) = after_mode(m, raw);
    let s = switch_outcome(m1, r1);
    Settled { printed: printed + s.printed, ..s }
}

pub open spec fn replay_view(r: Option<(String, bool)>) -> Option<(Seq<char>, bool)> {
    match r {
        Some((t, b)) => Some((t@, b)),
        None => None,
    }
}

/// What one step hands back: output chunks for the host's sink, and a
/// requested hand-over to a cast replay, which the host builds (its row
/// times are converted in floating point) and installs.
pub struct MockStep {
    pub chunks: Vec<Vec<u8>>,
    pub replay_request: Option<(String, bool)>,
}

/// The mock TTY controller.
pub struct MockTty {
    program: Box<dyn Program>,
    termios: Termios,
    output: Vec<u8>,
    sink: bool,
}

proof fn lemma_flat_push(chunks: Seq<Vec<u8>>, c: Vec<u8>)
    ensures
        flat(chunks.push(c)) == flat(chunks) + c@,
{
    assert(chunks.push(c).drop_last() =~= chunks);
}

proof fn lemma_prefix_trans(a: Seq<u8>, b: Seq<u8>, c: Seq<u8>)
    requires
        a.is_prefix_of(b),
        b.is_prefix_of(c),
    ensures
        a.is_prefix_of(c),
{
    assert(c.subrange(0, a.len() as int) =~= b.subrange(0, a.len() as int));
}

impl MockTty {
    /// Output produced but not yet delivered.
    pub closed spec fn pending(&self) -> Seq<u8> {
        self.output@
    }

    /// Whether the host has a sink for output.
    pub closed spec fn has_sink(&self) -> bool {
        self.sink
    }

    /// The state of the foreground program.
    pub closed spec fn program_model(&self) -> ProgramModel {
        self.program.model()
    }

    /// Whether input is in raw mode.
    pub closed spec fn is_raw(&self) -> bool {
        self.termios.is_raw()
    }

    /// A step went from `old` to `self`, handed back `step`, and ended as
    /// `s` says.
    pub open spec fn stepped(&self, old: MockTty, step: MockStep, s: Settled) -> bool {
        &&& self.program_model() == s.model
        &&& self.is_raw() == s.raw
        &&& self.has_sink() == old.has_sink()
        &&& replay_view(step.replay_request) == s.replay
        &&& delivered(old.pending(), s.printed, old.has_sink(), step.chunks@, self.pending())
    }

    /// Chunks follow the sink rule.
    spec fn chunks_ok(&self, chunks: Seq<Vec<u8>>) -> bool {
        &&& self.sink ==> all_nonempty(chunks)
        &&& !self.sink ==> chunks.len() == 0
    }

    /// A controller for `program`, in the line discipline it asks for, with
    /// no sink yet.
    pub fn new(program: Box<dyn Program>) -> (m: MockTty)
        ensures
            m.pending() == Seq::<u8>::empty(),
            !m.has_sink(),
            m.program_model() == program.model(),
            m.is_raw() == model_wants_raw(program.model()),
    {
        let mut termios = Termios::default_cooked();
        if program.wants_raw() {
            termios.set_raw();
        }
        let mut m = MockTty { program: Box::new(RawSink::new()), termios, output: Vec::new(), sink: false };
        let mut incoming = program;
        std::mem::swap(&mut m.program, &mut incoming);
        m
    }

    /// Let the program print its start-up output.
    pub fn boot(&mut self)
        ensures
            old(self).pending().is_prefix_of(final(self).pending()),
            final(self).pending() == old(self).pending() + model_boot(old(self).program_model()).1,
            final(self).program_model() == model_boot(old(self).program_model()).0,
            final(self).has_sink() == old(self).has_sink(),
            final(self).is_raw() == old(self).is_raw(),
    {
        self.program.boot(&mut self.output);
    }

    fn flush(&mut self, chunks: &mut Vec<Vec<u8>>)
        requires
            old(self).chunks_ok(old(chunks)@),
        ensures
            final(self).chunks_ok(final(chunks)@),
            flat(final(chunks)@) + final(self).output@ == flat(old(chunks)@) + old(self).output@,
            final(self).sink ==> final(self).output@.len() == 0,
            !final(self).sink ==> final(self).output@ == old(self).output@ && final(chunks)@ == old(chunks)@,
            final(self).sink == old(self).sink,
            final(self).program == old(self).program,
            final(self).termios == old(self).termios,
    {
        if self.output.len() == 0 || !self.sink {
            assert(self.output@ =~= Seq::<u8>::empty() ==> flat(chunks@) + self.output@ =~= flat(chunks@));
            return;
        }
        let mut taken: Vec<u8> = Vec::new();
        std::mem::swap(&mut taken, &mut self.output);
        let ghost before = chunks@;
        chunks.push(taken);
        proof {
            lemma_flat_push(before, taken);
            assert(flat(chunks@) + self.output@ =~= flat(before) + taken@);
            assert forall|k: int| 0 <= k < chunks@.len() implies (#[trigger] chunks@[k])@.len() > 0 by {
                if k < before.len() {
                    assert(chunks@[k] == before[k]);
                }
            }
        }
    }

    fn apply_mode_request(&mut self)
        ensures
            (final(self).program.model(), final(self).termios.is_raw())
                == after_mode(old(self).program.model(), old(self).termios.is_raw()),
            old(self).output@ == final(self).output@,
            final(self).sink == old(self).sink,
    {
        match self.program.mode_request() {
            Some(TermiosMode::Raw) => self.termios.set_raw(),
            Some(TermiosMode::Cooked) => self.termios.set_cooked(),
            None => {},
        }
    }

    /// Switch to a program the controller can build itself; a replay is
    /// handed back to the host.
    fn maybe_swap_program(&mut self) -> (replay: Option<(String, bool)>)
        ensures
            final(self).program.model() == switch_outcome(old(self).program.model(), old(self).termios.is_raw()).model,
            final(self).termios.is_raw() == switch_outcome(old(self).program.model(), old(self).termios.is_raw()).raw,
            final(self).output@ == old(self).output@ + switch_outcome(old(self).program.model(),
                old(self).termios.is_raw()).printed,
            replay_view(replay) == switch_outcome(old(self).program.model(), old(self).termios.is_raw()).replay,
            final(self).sink == old(self).sink,
    {
        match self.program.pending_switch() {
            None => {
                assert(self.output@ =~= old(self).output@ + Seq::<u8>::empty());
                None
            },
            Some(ProgramKind::Replay { cast_text, return_to_echo }) => {
                assert(self.output@ =~= old(self).output@ + Seq::<u8>::empty());
                Some((cast_text, return_to_echo))
            },
            Some(ProgramKind::EchoShell) => {
                let mut next: Box<dyn Program> = Box::new(EchoShell::new());
                self.switch_to(&mut next);
                None
            },
            Some(ProgramKind::VimLite) => {
                let mut next: Box<dyn Program> = Box::new(VimLite::new());
                self.switch_to(&mut next);
                None
            },
            Some(ProgramKind::RawSink) => {
                let mut next: Box<dyn Program> = Box::new(RawSink::new());
                self.switch_to(&mut next);
                None
            },
        }
    }

    /// Make `next` the foreground program (`next` is left with the one it
    /// replaces), in the line discipline it wants, and boot it.
    fn switch_to(&mut self, next: &mut Box<dyn Program>)
        ensures
            final(self).output@ == old(self).output@ + model_boot(old(next).model()).1,
            final(self).program.model() == model_boot(old(next).model()).0,
            final(self).termios.is_raw() == model_wants_raw(old(next).model()),
            final(self).sink == old(self).sink,
    {
        if next.wants_raw() {
            self.termios.set_raw();
        } else {
            self.termios.set_cooked();
        }
        std::mem::swap(&mut self.program, next);
        self.program.boot(&mut self.output);
    }

    /// Install a program the host built (a cast replay) in the line
    /// discipline it wants, boot it, and deliver what is pending.
    pub fn install(&mut self, program: Box<dyn Program>) -> (chunks: Vec<Vec<u8>>)
        ensures
            final(self).program_model() == model_boot(program.model()).0,
            final(self).is_raw() == model_wants_raw(program.model()),
            final(self).has_sink() == old(self).has_sink(),
            delivered(old(self).pending(), model_boot(program.model()).1, old(self).has_sink(), chunks@,
                final(self).pending()),
    {
        let mut chunks: Vec<Vec<u8>> = Vec::new();
        let mut incoming = program;
        self.switch_to(&mut incoming);
        self.flush(&mut chunks);
        proof { self.lemma_flat_empty(chunks@); }
        chunks
    }

    /// Attach (`true`) or detach the host's sink; attaching delivers what
    /// is pending.
    pub fn set_sink(&mut self, on: bool) -> (chunks: Vec<Vec<u8>>)
        ensures
            final(self).has_sink() == on,
            final(self).program_model() == old(self).program_model(),
            final(self).is_raw() == old(self).is_raw(),
            delivered(old(self).pending(), Seq::empty(), on, chunks@, final(self).pending()),
    {
        self.sink = on;
        let mut chunks: Vec<Vec<u8>> = Vec::new();
        self.flush(&mut chunks);
        proof {
            self.lemma_flat_empty(chunks@);
            assert(old(self).output@ + Seq::<u8>::empty() =~= old(self).output@);
        }
        chunks
    }

    /// With the sink, the chunks hold all there is; without it, nothing.
    proof fn lemma_flat_empty(&self, chunks: Seq<Vec<u8>>)
        requires
            self.chunks_ok(chunks),
            self.sink ==> self.output@.len() == 0,
        ensures
            self.sink ==> flat(chunks) + self.output@ == flat(chunks),
            !self.sink ==> flat(chunks) + self.output@ == self.output@,
    {
        if self.sink {
            assert(flat(chunks) + self.output@ =~= flat(chunks));
        } else {
            assert(flat(chunks) =~= Seq::<u8>::empty());
            assert(flat(chunks) + self.output@ =~= self.output@);
        }
    }

    /// The tail of every step that has printed `printed` after `start`:
    /// apply a pending line-discipline request, deliver, swap programs if
    /// asked, deliver again.
    fn finish_step(&mut self, Ghost(start): Ghost<Seq<u8>>, Ghost(printed): Ghost<Seq<u8>>) -> (step: MockStep)
        requires
            old(self).output@ == start + printed,
        ensures
            final(self).program_model() == settle(old(self).program_model(), old(self).is_raw(), printed).model,
            final(self).is_raw() == settle(old(self).program_model(), old(self).is_raw(), printed).raw,
            replay_view(step.replay_request) == settle(old(self).program_model(), old(self).is_raw(), printed).replay,
            final(self).sink == old(self).sink,
            delivered(start, settle(old(self).program_model(), old(self).is_raw(), printed).printed, old(self).sink,
                step.chunks@, final(self).output@),
    {
        let ghost s = settle(self.program.model(), self.termios.is_raw(), printed);
        let mut chunks: Vec<Vec<u8>> = Vec::new();
        self.apply_mode_request();
        proof { assert(flat(chunks@) =~= Seq::<u8>::empty()); assert(flat(chunks@) + self.output@ =~= self.output@); }
        self.flush(&mut chunks);
        let replay_request = self.maybe_swap_program();
        self.flush(&mut chunks);
        proof {
            self.lemma_flat_empty(chunks@);
            assert(flat(chunks@) + self.output@ =~= start + s.printed);
        }
        MockStep { chunks, replay_request }
    }

    /// Input from the host's keyboard, byte by byte, with line-discipline
    /// requests applied before each byte.
    pub fn write_input(&mut self, bytes: &[u8]) -> (step: MockStep)
        ensures
            final(self).stepped(*old(self), step, settle(
                feed_bytes(old(self).program_model(), old(self).is_raw(), bytes@).0,
                feed_bytes(old(self).program_model(), old(self).is_raw(), bytes@).1,
                feed_bytes(old(self).program_model(), old(self).is_raw(), bytes@).2,
            )),
    {
        let ghost start = self.output@;
        let ghost m0 = self.program.model();
        let ghost r0 = self.termios.is_raw();
        let mut i: usize = 0;
        assert(bytes@.subrange(0, 0) =~= Seq::<u8>::empty());
        assert(self.output@ =~= start + Seq::<u8>::empty());
        while i < bytes.len()
            invariant
                i <= bytes@.len(),
                self.program.model() == feed_bytes(m0, r0, bytes@.subrange(0, i as int)).0,
                self.termios.is_raw() == feed_bytes(m0, r0, bytes@.subrange(0, i as int)).1,
                self.output@ == start + feed_bytes(m0, r0, bytes@.subrange(0, i as int)).2,
                self.sink == old(self).sink,
            decreases bytes@.len() - i,
        {
            let ghost pre = bytes@.subrange(0, i as int);
            let ghost next = bytes@.subrange(0, i as int + 1);
            self.apply_mode_request();
            self.termios.input_byte(bytes[i], &mut self.program, &mut self.output);
            proof {
                assert(next.drop_last() =~= pre);
                assert(next.last() == bytes@[i as int]);
                assert(self.output@ =~= start + feed_bytes(m0, r0, next).2);
            }
            i = i + 1;
        }
        assert(bytes@.subrange(0, bytes@.len() as int) =~= bytes@);
        self.finish_step(Ghost(start), Ghost(feed_bytes(m0, r0, bytes@).2))
    }

    /// A window-size change.
    pub fn resize(&mut self, cols: u16, rows: u16) -> (step: MockStep)
        ensures
            final(self).stepped(*old(self), step, settle(
                model_resize(old(self).program_model(), cols, rows).0,
                old(self).is_raw(),
                model_resize(old(self).program_model(), cols, rows).1,
            )),
    {
        let ghost start = self.output@;
        self.program.on_resize(cols, rows, &mut self.output);
        self.finish_step(Ghost(start), Ghost(model_resize(old(self).program.model(), cols, rows).1))
    }

    /// A clock tick at `now_ms`.
    pub fn tick(&mut self, now_ms: u64) -> (step: MockStep)
        ensures
            final(self).stepped(*old(self), step, settle(
                model_tick(old(self).program_model(), now_ms).0,
                old(self).is_raw(),
                model_tick(old(self).program_model(), now_ms).1,
            )),
    {
        let ghost start = self.output@;
        self.program.on_tick(now_ms, &mut self.output);
        self.finish_step(Ghost(start), Ghost(model_tick(old(self).program.model(), now_ms).1))
    }
}

} // verus!
