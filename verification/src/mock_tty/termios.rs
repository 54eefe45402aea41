//! The line discipline between the host's input and the program.

use vstd::prelude::*;
use crate::mock_tty::program::{Program, model_byte};

verus! {

pub struct Termios {
    raw: bool,
}

impl Termios {
    pub closed spec fn is_raw(&self) -> bool {
        self.raw
    }

    pub fn default_cooked() -> (t: Termios)
        ensures
            !t.is_raw(),
    {
        Termios { raw: false }
    }

    pub fn set_raw(&mut self)
        ensures
            final(self).is_raw(),
    {
        self.raw = true;
    }

    pub fn set_cooked(&mut self)
        ensures
            !final(self).is_raw(),
    {
        self.raw = false;
    }

    /// Hand one input byte to the program, in either mode.
    pub fn input_byte(&mut self, b: u8, program: &mut Box<dyn Program>, out: &mut Vec<u8>)
        ensures
            *final(self) == *old(self),
            old(out)@.is_prefix_of(final(out)@),
            final(program).model() == model_byte(old(program).model(), b).0,
            final(out)@ == old(out)@ + model_byte(old(program).model(), b).1,
    {
        program.on_byte(b, out);
    }
}

} // verus!
