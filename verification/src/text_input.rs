//! Text positions and ranges of the terminal's text input view: byte
//! indices into the view's text buffer.

use vstd::prelude::*;
use vstd::string::StringSliceAdditionalSpecFns;

verus! {

/// State of one text position.
#[derive(Default)]
pub struct PositionIvars {
    /// Byte index into the owning view's text buffer.
    pub index: usize,
}

/// A position in the input view's text.
pub struct BtRsUITextPosition {
    ivars: PositionIvars,
}

impl BtRsUITextPosition {
    pub closed spec fn spec_index(&self) -> usize {
        self.ivars.index
    }

    pub fn new(index: usize) -> (p: BtRsUITextPosition)
        ensures
            p.spec_index() == index,
    {
        BtRsUITextPosition { ivars: PositionIvars { index } }
    }

    /// Byte index of this position.
    pub fn index(&self) -> (r: usize)
        ensures
            r == self.spec_index(),
    {
        self.ivars.index
    }
}

/// A range between two optional positions.
pub struct BtRsUITextRange {
    start: Option<BtRsUITextPosition>,
    end: Option<BtRsUITextPosition>,
}

pub open spec fn index_or_zero(p: Option<BtRsUITextPosition>) -> usize {
    match p {
        Some(q) => q.spec_index(),
        None => 0,
    }
}

impl BtRsUITextRange {
    pub closed spec fn spec_start(&self) -> Option<BtRsUITextPosition> {
        self.start
    }

    pub closed spec fn spec_end(&self) -> Option<BtRsUITextPosition> {
        self.end
    }

    pub fn new(start: BtRsUITextPosition, end: BtRsUITextPosition) -> (r: BtRsUITextRange)
        ensures
            r.spec_start() == Some(start),
            r.spec_end() == Some(end),
    {
        BtRsUITextRange { start: Some(start), end: Some(end) }
    }

    /// Byte index of the start position, or 0 if unset.
    pub fn start_index(&self) -> (r: usize)
        ensures
            r == index_or_zero(self.spec_start()),
    {
        match &self.start {
            Some(p) => p.index(),
            None => 0,
        }
    }

    /// Byte index of the end position, or 0 if unset.
    pub fn end_index(&self) -> (r: usize)
        ensures
            r == index_or_zero(self.spec_end()),
    {
        match &self.end {
            Some(p) => p.index(),
            None => 0,
        }
    }

    /// Whether the range is empty: its ends have equal indices.
    pub fn is_empty(&self) -> (r: bool)
        ensures
            r == (index_or_zero(self.spec_start()) == index_or_zero(self.spec_end())),
    {
        self.start_index() == self.end_index()
    }
}

/// Whether byte `b` continues a UTF-8 sequence.
pub open spec fn is_continuation(b: u8) -> bool {
    b & 0xC0 == 0x80
}

/// Whether byte `j` of `s` exists and continues a UTF-8 sequence.
pub open spec fn continues_at(s: Seq<u8>, j: int) -> bool {
    0 <= j < s.len() && is_continuation(s[j])
}

/// `idx` capped at the length of `s`.
pub open spec fn capped(s: Seq<u8>, idx: usize) -> int {
    if idx < s.len() { idx as int } else { s.len() as int }
}

/// `idx` (capped at the length) rounded down to the nearest UTF-8
/// character boundary of `s`.
pub fn floor_char_boundary(s: &str, idx: usize) -> (r: usize)
    ensures
        r <= capped(s.spec_bytes(), idx),
        r == 0 || !continues_at(s.spec_bytes(), r as int),
        forall|j: int| r < j <= capped(s.spec_bytes(), idx) ==> #[trigger] continues_at(s.spec_bytes(), j),
{
    let bytes = s.as_bytes();
    let n = bytes.len();
    let start = if idx < n { idx } else { n };
    let mut i = start;
    while i > 0 && i < n && (bytes[i] & 0xC0) == 0x80
        invariant
            i <= start <= n == s.spec_bytes().len(),
            bytes@ == s.spec_bytes(),
            start == capped(s.spec_bytes(), idx),
            forall|j: int| i < j <= start ==> #[trigger] continues_at(bytes@, j),
        decreases i,
    {
        assert(continues_at(bytes@, i as int));
        i = i - 1;
    }
    proof {
        if i > 0 && i < n {
            assert(!is_continuation(bytes@[i as int]));
        }
    }
    i
}

} // verus!
