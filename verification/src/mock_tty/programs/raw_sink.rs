//! A program that echoes every byte back unchanged.

use vstd::prelude::*;
use crate::mock_tty::program::{Program, ProgramKind, ProgramModel, Signal, TermiosMode, model_bytes};

verus! {

pub struct RawSink;

impl RawSink {
    pub fn new() -> (r: RawSink) {
        RawSink
    }
}

impl Default for RawSink {
    fn default() -> (r: RawSink) {
        RawSink::new()
    }
}

impl Program for RawSink {
    open spec fn model(&self) -> ProgramModel {
        ProgramModel::Raw
    }

    fn on_byte(&mut self, byte: u8, out: &mut Vec<u8>)
        ensures
            final(out)@ == old(out)@.push(byte),
    {
        out.push(byte);
        assert(out@ =~= old(out)@ + seq![byte]);
        assert(out@.subrange(0, old(out)@.len() as int) =~= old(out)@);
    }

    /// A sink prints nothing at start-up.
    fn boot(&mut self, out: &mut Vec<u8>)
        ensures
            final(out)@ == old(out)@,
    {
        assert(out@ =~= old(out)@ + Seq::<u8>::empty());
        assert(out@.subrange(0, old(out)@.len() as int) =~= old(out)@);
    }

    fn wants_raw(&self) -> (r: bool)
        ensures
            r,
    {
        true
    }
    /// A sink ignores the window size.
    fn on_resize(&mut self, cols: u16, rows: u16, out: &mut Vec<u8>) {
        assert(out@ =~= old(out)@ + Seq::<u8>::empty());
        assert(out@.subrange(0, old(out)@.len() as int) =~= old(out)@);
    }

    /// A sink ignores time.
    fn on_tick(&mut self, now_ms: u64, out: &mut Vec<u8>) {
        assert(out@ =~= old(out)@ + Seq::<u8>::empty());
        assert(out@.subrange(0, old(out)@.len() as int) =~= old(out)@);
    }

    /// A sink ignores signals.
    fn on_signal(&mut self, sig: Signal, out: &mut Vec<u8>) {
        assert(out@ =~= old(out)@ + Seq::<u8>::empty());
        assert(out@.subrange(0, old(out)@.len() as int) =~= old(out)@);
    }

    /// Never asks for another line discipline.
    fn mode_request(&mut self) -> (r: Option<TermiosMode>) {
        None
    }

    /// Never hands over to another program.
    fn pending_switch(&mut self) -> (r: Option<ProgramKind>) {
        None
    }
}

/// A raw sink prints back every byte it is fed, in order, and stays as it
/// was.
pub proof fn law_raw_sink_echoes(s: Seq<u8>)
    ensures
        model_bytes(ProgramModel::Raw, s) == (ProgramModel::Raw, s),
    decreases s.len(),
{
    if s.len() > 0 {
        law_raw_sink_echoes(s.drop_last());
        assert(s.drop_last() + seq![s.last()] =~= s);
    }
}

} // verus!
