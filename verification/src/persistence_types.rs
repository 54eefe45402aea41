use vstd::prelude::*;

verus! {

/// Why a persisted session snapshot stopped.
#[derive(Debug, Clone, Copy, PartialEq, Eq, Structural)]
pub enum KillReason {
    UserKilled,
    RemoteLogout,
    NetworkDrop,
    AppRelaunch,
    SwapEvicted,
}

impl KillReason {
    /// The stable integer code stored in the database.
    pub open spec fn spec_code(self) -> i32 {
        match self {
            KillReason::UserKilled => 0,
            KillReason::RemoteLogout => 1,
            KillReason::NetworkDrop => 2,
            KillReason::AppRelaunch => 3,
            KillReason::SwapEvicted => 4,
        }
    }

    /// Decode a stored code; unknown codes yield `None`.
    pub fn from_i32(v: i32) -> (r: Option<KillReason>)
        ensures
            r == spec_kill_reason(v),
    {
        match v {
            0 => Some(KillReason::UserKilled),
            1 => Some(KillReason::RemoteLogout),
            2 => Some(KillReason::NetworkDrop),
            3 => Some(KillReason::AppRelaunch),
            4 => Some(KillReason::SwapEvicted),
            _ => None,
        }
    }

    /// The stable integer code stored in the database.
    pub fn code(self) -> (c: i32)
        ensures
            c == self.spec_code(),
    {
        match self {
            KillReason::UserKilled => 0,
            KillReason::RemoteLogout => 1,
            KillReason::NetworkDrop => 2,
            KillReason::AppRelaunch => 3,
            KillReason::SwapEvicted => 4,
        }
    }
}

/// A stored code decodes to the reason it was stored for.
pub proof fn law_kill_reason_round_trip(k: KillReason)
    ensures
        0 <= k.spec_code() <= 4,
        forall|v: i32| 0 <= v <= 4 && #[trigger] spec_kill_reason(v) == Some(k) ==> v == k.spec_code(),
        spec_kill_reason(k.spec_code()) == Some(k),
{
}

/// The reason a stored code stands for.
pub open spec fn spec_kill_reason(v: i32) -> Option<KillReason> {
    if v == 0 {
        Some(KillReason::UserKilled)
    } else if v == 1 {
        Some(KillReason::RemoteLogout)
    } else if v == 2 {
        Some(KillReason::NetworkDrop)
    } else if v == 3 {
        Some(KillReason::AppRelaunch)
    } else if v == 4 {
        Some(KillReason::SwapEvicted)
    } else {
        None
    }
}

} // verus!
