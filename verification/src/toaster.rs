//! Toast overlay rules: the severity byte protocol, action buttons, and
//! which toasts dismiss themselves.

use vstd::prelude::*;

verus! {

/// Toast severity. Crosses the host boundary as the byte of [`ToastKind::raw`].
#[derive(Clone, Copy, Debug, PartialEq, Eq, Structural)]
pub enum ToastKind {
    Info,
    Success,
    Warning,
    Error,
}

impl ToastKind {
    /// Decoding of a wire byte: unknown values fall back to `Info`.
    pub open spec fn spec_from_u8(raw: u8) -> ToastKind {
        if raw == 1 {
            ToastKind::Success
        } else if raw == 2 {
            ToastKind::Warning
        } else if raw == 3 {
            ToastKind::Error
        } else {
            ToastKind::Info
        }
    }

    /// The wire byte of a kind.
    pub open spec fn spec_raw(self) -> u8 {
        match self {
            ToastKind::Info => 0,
            ToastKind::Success => 1,
            ToastKind::Warning => 2,
            ToastKind::Error => 3,
        }
    }

    /// Decode a wire byte; unknown values fall back to `Info`.
    pub fn from_u8(raw: u8) -> (k: ToastKind)
        ensures
            k == ToastKind::spec_from_u8(raw),
    {
        if raw == 1 {
            ToastKind::Success
        } else if raw == 2 {
            ToastKind::Warning
        } else if raw == 3 {
            ToastKind::Error
        } else {
            ToastKind::Info
        }
    }

    /// The wire byte of this kind.
    pub fn raw(self) -> (r: u8)
        ensures
            r == self.spec_raw(),
    {
        match self {
            ToastKind::Info => 0,
            ToastKind::Success => 1,
            ToastKind::Warning => 2,
            ToastKind::Error => 3,
        }
    }
}

/// Decoding a kind's wire byte gives the kind back.
pub proof fn law_kind_round_trip(k: ToastKind)
    ensures
        ToastKind::spec_from_u8(k.spec_raw()) == k,
{
}

/// Every byte decodes to a kind whose wire byte is the byte itself when it
/// is 0..=3, and 0 otherwise.
pub proof fn law_kind_clamps(raw: u8)
    ensures
        ToastKind::spec_from_u8(raw).spec_raw() == if raw <= 3 { raw } else { 0 },
{
}

/// One toast action button.
#[derive(Clone, Debug, PartialEq, Eq)]
pub struct ToastAction {
    pub title: String,
    pub destructive: bool,
}

/// Most toasts shown at once; older ones stay queued but hidden.
pub const MAX_VISIBLE: usize = 3;

/// Seconds before a non-persistent info or success toast dismisses itself.
pub const AUTO_DISMISS_SECS: u64 = 4;

/// Whether a toast dismisses itself: non-persistent info and success only.
pub fn should_autodismiss(kind: ToastKind, persistent: bool) -> (r: bool)
    ensures
        r == (!persistent && (kind == ToastKind::Info || kind == ToastKind::Success)),
{
    !persistent && match kind {
        ToastKind::Info | ToastKind::Success => true,
        _ => false,
    }
}

/// SF Symbol name of a kind's icon.
pub fn icon_symbol(kind: ToastKind) -> (r: &'static str)
    ensures
        r@ == match kind {
            ToastKind::Info => "info"@,
            ToastKind::Success => "checkmark"@,
            _ => "exclamationmark"@,
        },
{
    match kind {
        ToastKind::Info => "info",
        ToastKind::Success => "checkmark",
        ToastKind::Warning | ToastKind::Error => "exclamationmark",
    }
}

} // verus!
