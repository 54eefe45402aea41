//! States reported to the host by a terminal session and its keyboard
//! focus router.

use vstd::prelude::*;

verus! {

/// Lifecycle of a terminal session.
#[derive(Clone, Copy, Debug, PartialEq, Eq, Structural)]
pub enum BtSessionState {
    Idle,
    Connecting,
    Open,
    Closed,
}

/// Which input view holds the keyboard.
#[derive(Clone, Copy, Debug, PartialEq, Eq, Structural)]
pub enum FocusTarget {
    Unfocused,
    View1,
    View2,
}

} // verus!
