//! OSC 133 ("FinalTerm") shell-integration events.
//!
//! A VT parser reports each OSC sequence as its `;`-separated parameters.
//! Sequences whose first parameter is `133` and whose second is `A`, `B`,
//! `C` or `D` become events; every other OSC is ignored. Parameters after
//! the kind are handed on verbatim as `key=value` attributes joined by `;`.
//! For `D`, the third parameter is the exit code when it parses as an
//! `i32`; otherwise it is already the first attribute.

use vstd::prelude::*;
use std::collections::VecDeque;
use crate::bytes::push_all;
use crate::dcs::{decimal_value, is_digit, lemma_decimal_push};

verus! {

/// One shell-integration boundary.
#[derive(Debug, Clone, PartialEq, Eq)]
pub enum Osc133Event {
    /// `ESC]133;A[;<attrs>]`: the shell is about to draw its prompt.
    PromptStart { attrs: Vec<u8> },
    /// `ESC]133;B[;<attrs>]`: the prompt finished drawing.
    CommandStart { attrs: Vec<u8> },
    /// `ESC]133;C[;<attrs>]`: command output starts.
    OutputStart { attrs: Vec<u8> },
    /// `ESC]133;D[;<exit>][;<attrs>]`: the command finished.
    CommandEnd { exit_code: Option<i32>, attrs: Vec<u8> },
}

/// Mathematical form of an [`Osc133Event`].
pub enum Osc133EventView {
    PromptStart { attrs: Seq<u8> },
    CommandStart { attrs: Seq<u8> },
    OutputStart { attrs: Seq<u8> },
    CommandEnd { exit_code: Option<i32>, attrs: Seq<u8> },
}

impl View for Osc133Event {
    type V = Osc133EventView;

    open spec fn view(&self) -> Osc133EventView {
        match self {
            Osc133Event::PromptStart { attrs } => Osc133EventView::PromptStart { attrs: attrs@ },
            Osc133Event::CommandStart { attrs } => Osc133EventView::CommandStart { attrs: attrs@ },
            Osc133Event::OutputStart { attrs } => Osc133EventView::OutputStart { attrs: attrs@ },
            Osc133Event::CommandEnd { exit_code, attrs } => Osc133EventView::CommandEnd {
                exit_code: *exit_code,
                attrs: attrs@,
            },
        }
    }
}

fn copy_bytes(v: &Vec<u8>) -> (r: Vec<u8>)
    ensures
        r@ == v@,
{
    let mut out: Vec<u8> = Vec::new();
    push_all(&mut out, v.as_slice());
    out
}

impl Osc133Event {
    /// A copy of this event.
    pub fn duplicate(&self) -> (r: Osc133Event)
        ensures
            r@ == self@,
    {
        match self {
            Osc133Event::PromptStart { attrs } => Osc133Event::PromptStart { attrs: copy_bytes(attrs) },
            Osc133Event::CommandStart { attrs } => Osc133Event::CommandStart { attrs: copy_bytes(attrs) },
            Osc133Event::OutputStart { attrs } => Osc133Event::OutputStart { attrs: copy_bytes(attrs) },
            Osc133Event::CommandEnd { exit_code, attrs } => Osc133Event::CommandEnd {
                exit_code: *exit_code,
                attrs: copy_bytes(attrs),
            },
        }
    }
}

// ---------------------------------------------------------------------------
// Attribute joining
// ---------------------------------------------------------------------------

/// The byte views of the parameters.
pub open spec fn param_views(params: Seq<&[u8]>) -> Seq<Seq<u8>> {
    params.map_values(|p: &[u8]| p@)
}

/// `parts` joined with `;` between neighbours.
pub open spec fn spec_join(parts: Seq<Seq<u8>>) -> Seq<u8>
    decreases parts.len(),
{
    if parts.len() == 0 {
        Seq::empty()
    } else if parts.len() == 1 {
        parts[0]
    } else {
        spec_join(parts.drop_last()) + seq![0x3Bu8] + parts.last()
    }
}

/// Join `parts[start..]` with `;`.
fn join_from(parts: &[&[u8]], start: usize) -> (r: Vec<u8>)
    requires
        start <= parts@.len(),
    ensures
        r@ == spec_join(param_views(parts@).subrange(start as int, parts@.len() as int)),
{
    let ghost pv = param_views(parts@);
    let mut out: Vec<u8> = Vec::new();
    let mut i = start;
    assert(pv.subrange(start as int, start as int) =~= Seq::<Seq<u8>>::empty());
    while i < parts.len()
        invariant
            start <= i <= parts@.len(),
            pv == param_views(parts@),
            out@ == spec_join(pv.subrange(start as int, i as int)),
        decreases parts@.len() - i,
    {
        let ghost before = out@;
        if i > start {
            out.push(0x3B);
        }
        push_all(&mut out, parts[i]);
        let ghost next = pv.subrange(start as int, i + 1);
        assert(next.drop_last() =~= pv.subrange(start as int, i as int));
        assert(next.last() == parts@[i as int]@);
        if i == start {
            assert(next.len() == 1);
            assert(out@ =~= next[0]);
        } else {
            assert(out@ =~= before + seq![0x3Bu8] + next.last());
        }
        i = i + 1;
    }
    out
}

/// The parameters joined back into one `;`-separated byte string.
pub fn join_attrs(parts: &[&[u8]]) -> (r: Vec<u8>)
    ensures
        r@ == spec_join(param_views(parts@)),
{
    let r = join_from(parts, 0);
    assert(param_views(parts@).subrange(0, parts@.len() as int) =~= param_views(parts@));
    r
}

// ---------------------------------------------------------------------------
// Exit code
// ---------------------------------------------------------------------------

pub open spec fn all_digits(d: Seq<u8>) -> bool {
    forall|k: int| 0 <= k < d.len() ==> is_digit(#[trigger] d[k])
}

/// Whether `s` starts with a sign byte (`-` or `+`).
pub open spec fn has_sign(s: Seq<u8>) -> bool {
    s.len() > 0 && (s[0] == 0x2D || s[0] == 0x2B)
}

/// Decimal `i32` syntax: an optional `+` or `-`, then one or more ASCII
/// digits, with the value in range; `None` otherwise.
pub open spec fn spec_parse_i32(s: Seq<u8>) -> Option<i32> {
    let digits = if has_sign(s) { s.drop_first() } else { s };
    let v: int = if has_sign(s) && s[0] == 0x2D {
        -(decimal_value(digits) as int)
    } else {
        decimal_value(digits) as int
    };
    if digits.len() == 0 || !all_digits(digits) || v < i32::MIN || v > i32::MAX {
        None
    } else {
        Some(v as i32)
    }
}

/// Parse a decimal `i32` the way `str::parse::<i32>` does.
pub fn parse_i32(s: &[u8]) -> (r: Option<i32>)
    ensures
        r == spec_parse_i32(s@),
{
    let n = s.len();
    if n == 0 {
        return None;
    }
    let negative = s[0] == 0x2D;
    let start: usize = if s[0] == 0x2D || s[0] == 0x2B { 1 } else { 0 };
    let ghost digits = if has_sign(s@) { s@.drop_first() } else { s@ };
    assert(digits =~= s@.subrange(start as int, n as int));
    if start == n {
        return None;
    }
    let limit: u64 = 2147483648;
    let mut mag: u64 = 0;
    let mut i = start;
    while i < n
        invariant
            start <= i <= n,
            n == s@.len(),
            digits == s@.subrange(start as int, n as int),
            digits == (if has_sign(s@) { s@.drop_first() } else { s@ }),
            limit == 2147483648,
            mag <= limit * 10 + 9,
            forall|k: int| start <= k < i ==> is_digit(#[trigger] s@[k]),
            mag <= limit ==> mag == decimal_value(s@.subrange(start as int, i as int)),
            mag > limit ==> decimal_value(s@.subrange(start as int, i as int)) > limit,
        decreases n - i,
    {
        let b = s[i];
        if b < 0x30 || b > 0x39 {
            assert(!all_digits(digits)) by {
                assert(digits[i - start] == b);
            }
            return None;
        }
        let d = (b - 0x30) as u64;
        proof {
            assert(s@.subrange(start as int, i + 1) =~= s@.subrange(start as int, i as int).push(b));
            lemma_decimal_push(s@.subrange(start as int, i as int), b);
        }
        if mag <= limit {
            mag = mag * 10 + d;
        } else {
            mag = limit + 1;
        }
        i = i + 1;
    }
    assert(all_digits(digits)) by {
        assert forall|k: int| 0 <= k < digits.len() implies is_digit(#[trigger] digits[k]) by {
            assert(digits[k] == s@[start + k]);
        }
    }
    if negative {
        if mag <= limit {
            Some((0 - (mag as i64)) as i32)
        } else {
            None
        }
    } else if mag < limit {
        Some(mag as i32)
    } else {
        None
    }
}

// ---------------------------------------------------------------------------
// Dispatch
// ---------------------------------------------------------------------------

/// `133`
pub open spec fn osc133_id() -> Seq<u8> {
    seq![0x31u8, 0x33, 0x33]
}

/// The event that one OSC sequence with `params` describes, if any.
pub open spec fn spec_osc133(params: Seq<Seq<u8>>) -> Option<Osc133EventView> {
    if params.len() < 2 || params[0] != osc133_id() {
        None
    } else {
        let kind = params[1];
        let tail2 = spec_join(params.subrange(2, params.len() as int));
        if kind == seq![0x41u8] {
            Some(Osc133EventView::PromptStart { attrs: tail2 })
        } else if kind == seq![0x42u8] {
            Some(Osc133EventView::CommandStart { attrs: tail2 })
        } else if kind == seq![0x43u8] {
            Some(Osc133EventView::OutputStart { attrs: tail2 })
        } else if kind == seq![0x44u8] {
            match if params.len() > 2 { spec_parse_i32(params[2]) } else { None } {
                Some(code) => Some(Osc133EventView::CommandEnd {
                    exit_code: Some(code),
                    attrs: spec_join(params.subrange(3, params.len() as int)),
                }),
                None => Some(Osc133EventView::CommandEnd { exit_code: None, attrs: tail2 }),
            }
        } else {
            None
        }
    }
}

fn is_single(p: &[u8], b: u8) -> (r: bool)
    ensures
        r == (p@ == seq![b]),
{
    let r = p.len() == 1 && p[0] == b;
    proof {
        if p@.len() == 1 && p@[0] == b {
            assert(p@ =~= seq![b]);
        }
    }
    r
}

pub open spec fn event_views(v: Seq<Osc133Event>) -> Seq<Osc133EventView> {
    v.map_values(|e: Osc133Event| e@)
}

pub open spec fn opt_event_seq(e: Option<Osc133EventView>) -> Seq<Osc133EventView> {
    match e {
        Some(x) => seq![x],
        None => Seq::empty(),
    }
}

/// The event for one OSC sequence, if it is a FinalTerm boundary.
pub fn osc133_event(params: &[&[u8]]) -> (r: Option<Osc133Event>)
    ensures
        match r {
            Some(e) => spec_osc133(param_views(params@)) == Some(e@),
            None => spec_osc133(param_views(params@)) is None,
        },
{
    let ghost pv = param_views(params@);
    if params.len() < 2 {
        return None;
    }
    let first = params[0];
    let is_133 = first.len() == 3 && first[0] == 0x31 && first[1] == 0x33 && first[2] == 0x33;
    proof {
        if is_133 {
            assert(pv[0] =~= osc133_id());
        } else {
            assert(pv[0] != osc133_id()) by {
                if pv[0] == osc133_id() {
                    assert(pv[0].len() == 3);
                }
            }
        }
    }
    if !is_133 {
        return None;
    }
    let kind = params[1];
    assert(pv[1] == kind@);
    if is_single(kind, 0x41) {
        Some(Osc133Event::PromptStart { attrs: join_from(params, 2) })
    } else if is_single(kind, 0x42) {
        Some(Osc133Event::CommandStart { attrs: join_from(params, 2) })
    } else if is_single(kind, 0x43) {
        Some(Osc133Event::OutputStart { attrs: join_from(params, 2) })
    } else if is_single(kind, 0x44) {
        let code = if params.len() > 2 { parse_i32(params[2]) } else { None };
        match code {
            Some(c) => Some(Osc133Event::CommandEnd { exit_code: Some(c), attrs: join_from(params, 3) }),
            None => Some(Osc133Event::CommandEnd { exit_code: None, attrs: join_from(params, 2) }),
        }
    } else {
        None
    }
}

/// Event queue fed by a VT parser's OSC callback.
pub struct Osc133Sink {
    events: VecDeque<Osc133Event>,
}

impl Osc133Sink {
    /// Queued events, oldest first.
    pub closed spec fn queue(&self) -> Seq<Osc133EventView> {
        event_views(self.events@)
    }

    pub fn new() -> (r: Osc133Sink)
        ensures
            r.queue() == Seq::<Osc133EventView>::empty(),
    {
        let r = Osc133Sink { events: VecDeque::new() };
        assert(event_views(r.events@) =~= Seq::<Osc133EventView>::empty());
        r
    }

    /// An OSC sequence ended with `params`: a FinalTerm boundary is queued.
    pub fn osc_dispatch(&mut self, params: &[&[u8]])
        ensures
            final(self).queue() == old(self).queue() + opt_event_seq(spec_osc133(param_views(params@))),
    {
        let ghost q = event_views(self.events@);
        match osc133_event(params) {
            Some(e) => {
                self.events.push_back(e);
                assert(event_views(self.events@) =~= q + seq![e@]);
            },
            None => {
                assert(q + Seq::<Osc133EventView>::empty() =~= q);
            },
        }
    }

    /// Take the oldest queued event.
    pub fn pop(&mut self) -> (r: Option<Osc133Event>)
        ensures
            old(self).queue().len() == 0 ==> r is None && final(self).queue() == old(self).queue(),
            old(self).queue().len() > 0 ==> (r matches Some(e) && e@ == old(self).queue()[0]),
            old(self).queue().len() > 0 ==> final(self).queue() == old(self).queue().drop_first(),
    {
        let r = self.events.pop_front();
        proof {
            if old(self).events@.len() > 0 {
                assert(event_views(self.events@) =~= event_views(old(self).events@).drop_first());
            }
        }
        r
    }

    /// Number of queued events.
    pub fn pending(&self) -> (n: usize)
        ensures
            n == self.queue().len(),
    {
        self.events.len()
    }

    /// Drop every queued event.
    pub fn clear(&mut self)
        ensures
            final(self).queue() == Seq::<Osc133EventView>::empty(),
    {
        self.events.clear();
        assert(event_views(self.events@) =~= Seq::<Osc133EventView>::empty());
    }

    /// Copies of the queued events at index `start` and later.
    pub fn events_from(&self, start: usize) -> (r: Vec<Osc133Event>)
        ensures
            event_views(r@) == self.queue().subrange(
                if start <= self.queue().len() { start as int } else { self.queue().len() as int },
                self.queue().len() as int),
    {
        let n = self.events.len();
        let mut i = if start <= n { start } else { n };
        let ghost first = i;
        let mut out: Vec<Osc133Event> = Vec::new();
        while i < n
            invariant
                n == self.events@.len(),
                first <= i <= n,
                event_views(out@) == event_views(self.events@).subrange(first as int, i as int),
            decreases n - i,
        {
            let ghost before = out@;
            let e = self.events[i].duplicate();
            out.push(e);
            assert(out@ == before.push(e));
            i = i + 1;
            assert(event_views(out@) =~= event_views(before).push(e@));
            assert(event_views(self.events@).subrange(first as int, i as int)
                =~= event_views(self.events@).subrange(first as int, i - 1).push(event_views(self.events@)[i - 1]));
        }
        out
    }
}

} // verus!
