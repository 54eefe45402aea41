//! The interface every mock program implements.

use vstd::prelude::*;
use vstd::string::StringSliceAdditionalSpecFns;
use crate::mock_tty::programs::echo_shell::{EchoView, prompt, spec_echo_byte, spec_echo_signal, spec_echo_tick};
use crate::mock_tty::programs::replay::{ReplayView, concat_range, released_until};
use crate::mock_tty::programs::vim_lite::{VimView, enter_alt, spec_redraw, spec_vim_byte, spec_vim_resize};

verus! {

/// A terminal signal delivered to the foreground program.
#[derive(Clone, Copy, Debug, PartialEq, Eq, Structural)]
pub enum Signal {
    Int,
    Eof,
}

/// Line discipline the program asks for.
#[derive(Clone, Copy, Debug, PartialEq, Eq, Structural)]
pub enum TermiosMode {
    Raw,
    Cooked,
}

/// The program a running program asks to hand over to.
#[derive(Debug, Clone, PartialEq, Eq)]
pub enum ProgramKind {
    EchoShell,
    VimLite,
    Replay { cast_text: String, return_to_echo: bool },
    RawSink,
}

/// The state of a mock program, as the program that it is.
pub enum ProgramModel {
    Echo(EchoView),
    Vim(VimView),
    Replay(ReplayView),
    Raw,
}

/// One input byte: the next state and what is printed.
pub open spec fn model_byte(m: ProgramModel, b: u8) -> (ProgramModel, Seq<u8>) {
    match m {
        ProgramModel::Echo(v) => (ProgramModel::Echo(spec_echo_byte(v, b).0), spec_echo_byte(v, b).1),
        ProgramModel::Vim(v) => (ProgramModel::Vim(spec_vim_byte(v, b).0), spec_vim_byte(v, b).1),
        ProgramModel::Replay(v) => (ProgramModel::Replay(v), Seq::empty()),
        ProgramModel::Raw => (ProgramModel::Raw, seq![b]),
    }
}

/// The bytes of `s` one by one, from the first: the last state and all
/// that is printed.
pub open spec fn model_bytes(m: ProgramModel, s: Seq<u8>) -> (ProgramModel, Seq<u8>)
    decreases s.len(),
{
    if s.len() == 0 {
        (m, Seq::empty())
    } else {
        let (m1, o1) = model_bytes(m, s.drop_last());
        let (m2, o2) = model_byte(m1, s.last());
        (m2, o1 + o2)
    }
}

/// Start-up: the state after it and what is printed.
pub open spec fn model_boot(m: ProgramModel) -> (ProgramModel, Seq<u8>) {
    match m {
        ProgramModel::Echo(v) => (m, "BedTerm debug shell. Type a command.\r\n".spec_bytes() + prompt()),
        ProgramModel::Vim(v) => (m, enter_alt() + spec_redraw(v)),
        _ => (m, Seq::empty()),
    }
}

/// A clock tick: the next state and what is printed.
pub open spec fn model_tick(m: ProgramModel, now: u64) -> (ProgramModel, Seq<u8>) {
    match m {
        ProgramModel::Echo(v) => (ProgramModel::Echo(spec_echo_tick(v, now).0), spec_echo_tick(v, now).1),
        ProgramModel::Replay(v) => (
            ProgramModel::Replay(ReplayView { next: released_until(v.times, v.next, now), ..v }),
            concat_range(v.data, v.next, released_until(v.times, v.next, now)),
        ),
        _ => (m, Seq::empty()),
    }
}

/// A window-size change: the next state and what is printed.
pub open spec fn model_resize(m: ProgramModel, cols: u16, rows: u16) -> (ProgramModel, Seq<u8>) {
    match m {
        ProgramModel::Vim(v) => (ProgramModel::Vim(spec_vim_resize(v, cols, rows)), spec_redraw(
            spec_vim_resize(v, cols, rows),
        )),
        _ => (m, Seq::empty()),
    }
}

/// A signal: the next state and what is printed.
pub open spec fn model_signal(m: ProgramModel, sig: Signal) -> (ProgramModel, Seq<u8>) {
    match m {
        ProgramModel::Echo(v) => (ProgramModel::Echo(spec_echo_signal(v, sig).0), spec_echo_signal(v, sig).1),
        _ => (m, Seq::empty()),
    }
}

/// Whether the program reads raw input: all but the echo shell do.
pub open spec fn model_wants_raw(m: ProgramModel) -> bool {
    !(m is Echo)
}

/// The line discipline the program asks for, and its state after asking:
/// the echo shell hands over (and forgets) its pending request.
pub open spec fn model_mode(m: ProgramModel) -> (Option<TermiosMode>, ProgramModel) {
    match m {
        ProgramModel::Echo(v) => (v.pending_mode, ProgramModel::Echo(EchoView { pending_mode: None, ..v })),
        _ => (None, m),
    }
}

/// The hand-over the program asks for, and its state after asking: a
/// replay that returns to the shell asks once all its rows are out.
pub open spec fn model_switch(m: ProgramModel) -> (Option<ProgramKind>, ProgramModel) {
    match m {
        ProgramModel::Replay(v) => if v.return_to_echo && v.next >= v.times.len() {
            (Some(ProgramKind::EchoShell), ProgramModel::Replay(ReplayView { return_to_echo: false, ..v }))
        } else {
            (None, m)
        },
        _ => (None, m),
    }
}

/// A self-contained byte source driven by the mock TTY. Every callback may
/// only append to `out`.
pub trait Program {
    /// The program's state.
    spec fn model(&self) -> ProgramModel;

    /// One input byte (raw mode, or every byte in cooked mode).
    fn on_byte(&mut self, byte: u8, out: &mut Vec<u8>)
        ensures
            old(out)@.is_prefix_of(final(out)@),
            final(self).model() == model_byte(old(self).model(), byte).0,
            final(out)@ == old(out)@ + model_byte(old(self).model(), byte).1,
    ;

    /// One completed input line; unless the program reads whole lines, its
    /// bytes one by one.
    fn on_line(&mut self, line: &[u8], out: &mut Vec<u8>)
        ensures
            old(out)@.is_prefix_of(final(out)@),
        default_ensures
            final(self).model() == model_bytes(old(self).model(), line@).0,
            final(out)@ == old(out)@ + model_bytes(old(self).model(), line@).1,
    {
        let mut i: usize = 0;
        while i < line.len()
            invariant
                i <= line@.len(),
                self.model() == model_bytes(old(self).model(), line@.subrange(0, i as int)).0,
                out@ == old(out)@ + model_bytes(old(self).model(), line@.subrange(0, i as int)).1,
            decreases line@.len() - i,
        {
            let ghost before = out@;
            let ghost m0 = self.model();
            self.on_byte(line[i], out);
            proof {
                let pre = line@.subrange(0, i as int);
                let next = line@.subrange(0, i as int + 1);
                assert(next.drop_last() =~= pre);
                assert(next.last() == line@[i as int]);
                assert(out@ =~= old(out)@ + model_bytes(old(self).model(), next).1);
            }
            i = i + 1;
        }
        proof {
            assert(line@.subrange(0, line@.len() as int) =~= line@);
            assert(old(out)@.is_prefix_of(out@)) by {
                assert(out@.subrange(0, old(out)@.len() as int) =~= old(out)@);
            }
        }
    }

    /// A window-size change.
    fn on_resize(&mut self, cols: u16, rows: u16, out: &mut Vec<u8>)
        ensures
            old(out)@.is_prefix_of(final(out)@),
            final(self).model() == model_resize(old(self).model(), cols, rows).0,
            final(out)@ == old(out)@ + model_resize(old(self).model(), cols, rows).1,
    ;

    /// A clock tick at `now_ms`.
    fn on_tick(&mut self, now_ms: u64, out: &mut Vec<u8>)
        ensures
            old(out)@.is_prefix_of(final(out)@),
            final(self).model() == model_tick(old(self).model(), now_ms).0,
            final(out)@ == old(out)@ + model_tick(old(self).model(), now_ms).1,
    ;

    /// A terminal signal.
    fn on_signal(&mut self, sig: Signal, out: &mut Vec<u8>)
        ensures
            old(out)@.is_prefix_of(final(out)@),
            final(self).model() == model_signal(old(self).model(), sig).0,
            final(out)@ == old(out)@ + model_signal(old(self).model(), sig).1,
    ;

    /// Start-up output.
    fn boot(&mut self, out: &mut Vec<u8>)
        ensures
            old(out)@.is_prefix_of(final(out)@),
            final(self).model() == model_boot(old(self).model()).0,
            final(out)@ == old(out)@ + model_boot(old(self).model()).1,
    ;

    /// Whether the program reads raw input.
    fn wants_raw(&self) -> (r: bool)
        ensures
            r == model_wants_raw(self.model()),
    ;

    /// A requested change of line discipline, polled after every dispatch.
    fn mode_request(&mut self) -> (r: Option<TermiosMode>)
        ensures
            (r, final(self).model()) == model_mode(old(self).model()),
    ;

    /// A requested hand-over to another program, polled after every
    /// dispatch.
    fn pending_switch(&mut self) -> (r: Option<ProgramKind>)
        ensures
            (r, final(self).model()) == model_switch(old(self).model()),
    ;
}

} // verus!
