//! Replay of an asciinema cast: output rows released by the host's clock.
//!
//! The first line is a JSON header; `"version": 3` makes row times deltas
//! from the previous row, anything else makes them absolute. Each further
//! line `[<seconds>, "o", "<data>"]` is an output row; rows of other kinds
//! and malformed lines are skipped. Turning the seconds into milliseconds
//! is left to the caller: [`parse_cast`] hands back each row's time text.

use vstd::prelude::*;
use vstd::string::StringSliceAdditionalSpecFns;
use vstd::utf8::{encode_scalar, not_surrogate, valid_utf8};
use crate::bytes::push_range;
use crate::dcs::{hex_nibble, nibble, push_code_unit, simple_escape};
use crate::mock_tty::program::{Program, ProgramKind, ProgramModel, Signal, TermiosMode, model_switch};
use crate::text::{find_from, matches_at, spec_trim, strip_quotes, strip_quotes_bounds, trim_bounds, utf8_valid, ws_len_at_start, ws_start};

verus! {

// ---------------------------------------------------------------------------
// Lines (`str::lines`)
// ---------------------------------------------------------------------------

/// Index of the first `\n` at or after `i`, or the length.
pub open spec fn first_nl(s: Seq<u8>, i: int) -> int
    decreases s.len() - i,
{
    if i < 0 || i >= s.len() {
        s.len() as int
    } else if s[i] == 0x0A {
        i
    } else {
        first_nl(s, i + 1)
    }
}

/// The first newline from `i`: no newline before it, and a newline at it
/// unless it is the end.
pub proof fn lemma_first_nl(s: Seq<u8>, i: int)
    requires
        0 <= i <= s.len(),
    ensures
        i <= first_nl(s, i) <= s.len(),
        forall|k: int| i <= k < first_nl(s, i) ==> s[k] != 0x0A,
        first_nl(s, i) < s.len() ==> s[first_nl(s, i)] == 0x0A,
    decreases s.len() - i,
{
    if i < s.len() && s[i] != 0x0A {
        lemma_first_nl(s, i + 1);
    }
}

/// A line with its terminator removed: `\n`, or `\r\n`.
pub open spec fn strip_cr(l: Seq<u8>) -> Seq<u8> {
    if l.len() > 0 && l.last() == 0x0D { l.drop_last() } else { l }
}

/// The lines of `s` from byte `i` on.
pub open spec fn lines_from(s: Seq<u8>, i: int) -> Seq<Seq<u8>>
    decreases s.len() - i,
{
    if i < 0 || i >= s.len() {
        Seq::empty()
    } else {
        let e = first_nl(s, i);
        proof {
            lemma_first_nl(s, i);
        }
        if e >= s.len() {
            seq![s.subrange(i, s.len() as int)]
        } else {
            seq![strip_cr(s.subrange(i, e))] + lines_from(s, e + 1)
        }
    }
}

pub open spec fn lines_view(v: Seq<Vec<u8>>) -> Seq<Seq<u8>> {
    v.map_values(|l: Vec<u8>| l@)
}

fn split_lines(s: &[u8]) -> (r: Vec<Vec<u8>>)
    ensures
        lines_view(r@) == lines_from(s@, 0),
{
    let n = s.len();
    let mut out: Vec<Vec<u8>> = Vec::new();
    let mut start: usize = 0;
    while start < n
        invariant
            start <= n == s@.len(),
            lines_from(s@, 0) == lines_view(out@) + lines_from(s@, start as int),
        decreases n - start,
    {
        let mut j = start;
        proof { lemma_first_nl(s@, start as int); }
        while j < n && s[j] != 0x0A
            invariant
                start <= j <= n == s@.len(),
                first_nl(s@, start as int) == first_nl(s@, j as int),
            decreases n - j,
        {
            j = j + 1;
        }
        let ghost before = lines_view(out@);
        let mut line: Vec<u8> = Vec::new();
        if j < n {
            let end = if j > start && s[j - 1] == 0x0D { j - 1 } else { j };
            push_range(&mut line, s, start, end);
            proof {
                let l = s@.subrange(start as int, j as int);
                assert(line@ =~= strip_cr(l));
            }
            out.push(line);
            assert(lines_view(out@) =~= before + seq![strip_cr(s@.subrange(start as int, j as int))]);
            start = j + 1;
        } else {
            push_range(&mut line, s, start, n);
            out.push(line);
            assert(lines_view(out@) =~= before + seq![s@.subrange(start as int, n as int)]);
            start = n;
        }
    }
    assert(lines_view(out@) + Seq::<Seq<u8>>::empty() =~= lines_view(out@));
    out
}

// ---------------------------------------------------------------------------
// Header
// ---------------------------------------------------------------------------

/// `"version"`
pub open spec fn version_key() -> Seq<u8> {
    seq![0x22u8, 0x76, 0x65, 0x72, 0x73, 0x69, 0x6F, 0x6E, 0x22]
}

/// `s` without leading `:` and white space.
pub open spec fn skip_colon_ws(s: Seq<u8>) -> Seq<u8>
    decreases s.len(),
{
    let k = if s.len() > 0 && s[0] == 0x3A { 1 } else { ws_len_at_start(s) };
    if k > 0 { skip_colon_ws(s.subrange(k, s.len() as int)) } else { s }
}

/// Whether a cast header declares version 3: the first `"version"` is
/// followed, after colons and white space, by `3`.
pub open spec fn spec_header_is_v3(h: Seq<u8>) -> bool {
    match find_from(h, version_key(), 0) {
        Some(p) => {
            let rest = skip_colon_ws(h.subrange(p + 9, h.len() as int));
            rest.len() > 0 && rest[0] == 0x33
        },
        None => false,
    }
}

/// Whether a cast header declares version 3 (see [`spec_header_is_v3`]).
pub fn header_is_v3(h: &[u8]) -> (r: bool)
    ensures
        r == spec_header_is_v3(h@),
{
    let key: [u8; 9] = [0x22, 0x76, 0x65, 0x72, 0x73, 0x69, 0x6F, 0x6E, 0x22];
    assert(key@ =~= version_key());
    let n = h.len();
    let mut i: usize = 0;
    let mut found = false;
    while n >= 9 && i <= n - 9
        invariant_except_break
            !found,
        invariant
            n == h@.len(),
            key@ == version_key(),
            find_from(h@, version_key(), 0) == find_from(h@, version_key(), i as int),
        ensures
            find_from(h@, version_key(), 0) == (if found { Some(i as int) } else { None::<int> }),
        decreases n - i,
    {
        if matches_at(h, i, key.as_slice()) {
            assert(find_from(h@, version_key(), i as int) == Some(i as int));
            found = true;
            break;
        }
        i = i + 1;
    }
    proof {
        if !found {
            assert(find_from(h@, version_key(), i as int) is None);
        }
    }
    if !found {
        return false;
    }
    let mut p = i + 9;
    assert(h@.subrange(p as int, n as int) =~= h@.subrange(i + 9, h@.len() as int));
    while p < n
        invariant
            i + 9 <= p <= n == h@.len(),
            skip_colon_ws(h@.subrange(p as int, n as int)) == skip_colon_ws(h@.subrange(i + 9, n as int)),
        ensures
            skip_colon_ws(h@.subrange(p as int, n as int)) == skip_colon_ws(h@.subrange(i + 9, n as int)),
            p < n ==> h@[p as int] != 0x3A && ws_len_at_start(h@.subrange(p as int, n as int)) == 0,
        decreases n - p,
    {
        let k = if h[p] == 0x3A { 1 } else { ws_start(h, p) };
        if k == 0 {
            break;
        }
        assert(h@.subrange(p as int, n as int).subrange(k as int, (n - p) as int)
            =~= h@.subrange(p + k, n as int));
        p = p + k;
    }
    let ghost rest = h@.subrange(p as int, n as int);
    assert(skip_colon_ws(rest) == rest);
    p < n && h[p] == 0x33
}

// ---------------------------------------------------------------------------
// Row syntax
// ---------------------------------------------------------------------------

/// Whether a `"` at `k` opens or closes a string (it is not escaped).
pub open spec fn toggles(s: Seq<u8>, k: int) -> bool {
    s[k] == 0x22 && (k == 0 || s[k - 1] != 0x5C)
}

/// Whether byte `i` lies inside a string literal.
pub open spec fn in_string(s: Seq<u8>, i: int) -> bool
    decreases i,
{
    if i <= 0 { false } else { in_string(s, i - 1) != toggles(s, i - 1) }
}

/// The first comma at or after `i` outside a string literal.
pub open spec fn comma_from(s: Seq<u8>, i: int) -> Option<int>
    decreases s.len() - i,
{
    if i < 0 || i >= s.len() {
        None
    } else if s[i] == 0x2C && !in_string(s, i) {
        Some(i)
    } else {
        comma_from(s, i + 1)
    }
}

/// Split at the first comma outside a string literal.
pub open spec fn spec_split_first_comma(s: Seq<u8>) -> Option<(Seq<u8>, Seq<u8>)> {
    match comma_from(s, 0) {
        Some(i) => Some((s.subrange(0, i), s.subrange(i + 1, s.len() as int))),
        None => None,
    }
}

/// Index of the first comma outside a string literal.
pub fn split_first_comma(s: &[u8]) -> (r: Option<usize>)
    ensures
        r matches Some(i) ==> i < s@.len(),
        match r {
            Some(i) => comma_from(s@, 0) == Some(i as int),
            None => comma_from(s@, 0) is None,
        },
{
    let n = s.len();
    let mut inside = false;
    let mut i: usize = 0;
    while i < n
        invariant
            i <= n == s@.len(),
            inside == in_string(s@, i as int),
            comma_from(s@, 0) == comma_from(s@, i as int),
        decreases n - i,
    {
        let c = s[i];
        if c == 0x22 && (i == 0 || s[i - 1] != 0x5C) {
            inside = !inside;
        }
        if !inside && c == 0x2C {
            return Some(i);
        }
        i = i + 1;
    }
    None
}

// ---------------------------------------------------------------------------
// String data
// ---------------------------------------------------------------------------

pub open spec fn all_hex(d: Seq<u8>) -> bool {
    forall|k: int| 0 <= k < d.len() ==> (#[trigger] hex_nibble(d[k])) is Some
}

pub open spec fn hex_value(d: Seq<u8>) -> nat
    decreases d.len(),
{
    if d.len() == 0 { 0 } else { hex_value(d.drop_last()) * 16 + hex_nibble(d.last()).unwrap() as nat }
}

/// `u32::from_str_radix(h, 16)` for four bytes: an optional `+`, then hex
/// digits only.
pub open spec fn radix16(h: Seq<u8>) -> Option<u32> {
    let d = if h.len() > 0 && h[0] == 0x2B { h.drop_first() } else { h };
    if d.len() == 0 || !all_hex(d) { None } else { Some(hex_value(d) as u32) }
}

/// What `\u` followed by the four bytes `h` contributes: the UTF-8 of the
/// code point they spell (code point 0 when they are not UTF-8), nothing
/// when they are no number or a surrogate.
pub open spec fn unicode_escape(h: Seq<u8>) -> Seq<u8> {
    let cp = if valid_utf8(h) { radix16(h) } else { Some(0u32) };
    match cp {
        Some(c) => if not_surrogate(c) { encode_scalar(c) } else { Seq::empty() },
        None => Seq::empty(),
    }
}

/// Decoded JSON string contents from byte `i` on. Unknown escapes keep the
/// escaped byte; a trailing lone `\` ends the string; a `\u` without four
/// following bytes and one more is dropped.
pub open spec fn cast_unescape(s: Seq<u8>, i: int) -> Seq<u8>
    decreases s.len() - i,
{
    if i < 0 || i >= s.len() {
        Seq::empty()
    } else if s[i] != 0x5C {
        seq![s[i]] + cast_unescape(s, i + 1)
    } else if i + 1 >= s.len() {
        Seq::empty()
    } else if s[i + 1] == 0x75 {
        if i + 5 < s.len() {
            unicode_escape(s.subrange(i + 2, i + 6)) + cast_unescape(s, i + 6)
        } else {
            cast_unescape(s, i + 2)
        }
    } else {
        seq![
            match simple_escape(s[i + 1]) {
                Some(x) => x,
                None => s[i + 1],
            },
        ] + cast_unescape(s, i + 2)
    }
}

proof fn lemma_hex_value_bound(d: Seq<u8>)
    requires
        all_hex(d),
    ensures
        hex_value(d) < pow16(d.len()),
    decreases d.len(),
{
    if d.len() > 0 {
        assert(all_hex(d.drop_last())) by {
            assert forall|k: int| 0 <= k < d.drop_last().len() implies (#[trigger] hex_nibble(d.drop_last()[k])) is Some by {
                assert(d.drop_last()[k] == d[k]);
            }
        }
        lemma_hex_value_bound(d.drop_last());
        assert(hex_nibble(d[d.len() - 1]) is Some);
    }
}

pub open spec fn pow16(n: nat) -> nat
    decreases n,
{
    if n == 0 { 1 } else { 16 * pow16((n - 1) as nat) }
}

fn radix16_exec(s: &[u8], p: usize) -> (r: Option<u32>)
    requires
        p + 4 <= s@.len(),
    ensures
        r == radix16(s@.subrange(p as int, p + 4)),
        r matches Some(c) ==> c <= 0xFFFF,
{
    let ghost h = s@.subrange(p as int, p + 4);
    let n = s.len();
    let end = p + 4;
    let start = if s[p] == 0x2B { p + 1 } else { p };
    let ghost d = if h[0] == 0x2B { h.drop_first() } else { h };
    assert(d =~= s@.subrange(start as int, p + 4));
    let mut v: u32 = 0;
    let mut k = start;
    while k < end
        invariant
            end == p + 4,
            p <= start <= k <= p + 4 <= s@.len(),
            h == s@.subrange(p as int, p + 4),
            d == (if h[0] == 0x2B { h.drop_first() } else { h }),
            d == s@.subrange(start as int, p + 4),
            forall|t: int| start <= t < k ==> (#[trigger] hex_nibble(s@[t])) is Some,
            v == hex_value(s@.subrange(start as int, k as int)),
            v < pow16((k - start) as nat),
        decreases end - k,
    {
        let x = match nibble(s[k]) {
            Some(x) => x,
            None => {
                assert(!all_hex(d)) by {
                    assert(d[k - start] == s@[k as int]);
                }
                return None;
            },
        };
        proof {
            assert(s@.subrange(start as int, k + 1).drop_last() =~= s@.subrange(start as int, k as int));
            assert(pow16((k + 1 - start) as nat) == 16 * pow16((k - start) as nat));
            assert(pow16(4) == 65536) by {
                reveal_with_fuel(pow16, 5);
            }
            assert(pow16((k - start) as nat) <= 4096) by {
                reveal_with_fuel(pow16, 5);
            }
        }
        v = v * 16 + x as u32;
        k = k + 1;
    }
    if start == end {
        return None;
    }
    assert(all_hex(d)) by {
        assert forall|t: int| 0 <= t < d.len() implies (#[trigger] hex_nibble(d[t])) is Some by {
            assert(d[t] == s@[start + t]);
        }
    }
    proof {
        assert(pow16((p + 4 - start) as nat) <= 65536) by {
            reveal_with_fuel(pow16, 5);
        }
    }
    Some(v)
}

fn push_unicode_escape(out: &mut Vec<u8>, s: &[u8], p: usize)
    requires
        p + 4 <= s@.len(),
    ensures
        final(out)@ == old(out)@ + unicode_escape(s@.subrange(p as int, p + 4)),
{
    let ghost h = s@.subrange(p as int, p + 4);
    let n = s.len();
    assert(p + 4 <= n);
    let mut quad: Vec<u8> = Vec::new();
    push_range(&mut quad, s, p, p + 4);
    let cp = if utf8_valid(quad.as_slice()) { radix16_exec(s, p) } else { Some(0u32) };
    match cp {
        Some(c) => {
            if c < 0xD800 || c > 0xDFFF {
                push_code_unit(out, c);
            } else {
                assert(out@ =~= old(out)@ + unicode_escape(h));
            }
        },
        None => {
            assert(out@ =~= old(out)@ + unicode_escape(h));
        },
    }
}

/// Decode the contents of a JSON string literal (see [`cast_unescape`]).
pub fn decode_json_string(s: &[u8]) -> (r: Vec<u8>)
    ensures
        r@ == cast_unescape(s@, 0),
{
    let n = s.len();
    let mut out: Vec<u8> = Vec::new();
    let mut i: usize = 0;
    while i < n
        invariant
            i <= n == s@.len(),
            cast_unescape(s@, 0) == out@ + cast_unescape(s@, i as int),
        decreases n - i,
    {
        let ghost before = out@;
        let c = s[i];
        if c != 0x5C {
            out.push(c);
            i = i + 1;
            assert(out@ =~= before + seq![c]);
        } else if i + 1 >= n {
            assert(out@ + Seq::<u8>::empty() =~= out@);
            return out;
        } else {
            let e = s[i + 1];
            if e == 0x75 {
                if n - i > 5 {
                    push_unicode_escape(&mut out, s, i + 2);
                    i = i + 6;
                } else {
                    i = i + 2;
                }
            } else {
                let x = if e == 0x6E {
                    0x0A
                } else if e == 0x72 {
                    0x0D
                } else if e == 0x74 {
                    0x09
                } else if e == 0x62 {
                    0x08
                } else if e == 0x66 {
                    0x0C
                } else {
                    e
                };
                out.push(x);
                assert(out@ =~= before + seq![x]);
                i = i + 2;
            }
        }
        assert forall|x: Seq<u8>, y: Seq<u8>, z: Seq<u8>| #![auto] (x + y) + z =~= x + (y + z) by {}
    }
    assert(out@ + Seq::<u8>::empty() =~= out@);
    out
}

// ---------------------------------------------------------------------------
// Rows
// ---------------------------------------------------------------------------

/// One output row: its time text (seconds, still to be converted) and its
/// decoded data.
pub struct CastRow {
    pub time_text: Vec<u8>,
    pub data: Vec<u8>,
}

/// The output row that a line describes: `[<time>, "o", "<data>"]` after
/// trimming, with commas inside string literals not counting.
pub open spec fn spec_cast_row(line: Seq<u8>) -> Option<(Seq<u8>, Seq<u8>)> {
    let t = spec_trim(line);
    if t.len() < 2 || t[0] != 0x5B || t.last() != 0x5D {
        None
    } else {
        let inner = t.subrange(1, t.len() - 1);
        match spec_split_first_comma(inner) {
            None => None,
            Some((a, b)) => match spec_split_first_comma(b) {
                None => None,
                Some((k, r)) => {
                    let raw = spec_trim(r);
                    if strip_quotes(spec_trim(k)) != seq![0x6Fu8] {
                        None
                    } else if raw.len() < 2 || raw[0] != 0x22 || raw.last() != 0x22 {
                        None
                    } else {
                        Some((spec_trim(a), cast_unescape(raw.subrange(1, raw.len() - 1), 0)))
                    }
                },
            },
        }
    }
}

fn slice_copy(s: &[u8], from: usize, to: usize) -> (r: Vec<u8>)
    requires
        from <= to <= s@.len(),
    ensures
        r@ == s@.subrange(from as int, to as int),
{
    let mut v: Vec<u8> = Vec::new();
    push_range(&mut v, s, from, to);
    assert(v@ =~= s@.subrange(from as int, to as int));
    v
}

/// The output row a line describes, if any (see [`spec_cast_row`]).
pub fn cast_row(line: &[u8]) -> (r: Option<CastRow>)
    ensures
        match r {
            Some(row) => spec_cast_row(line@) == Some((row.time_text@, row.data@)),
            None => spec_cast_row(line@) is None,
        },
{
    let (ts, te) = trim_bounds(line);
    let t = slice_copy(line, ts, te);
    let tl = t.len();
    if tl < 2 || t[0] != 0x5B || t[tl - 1] != 0x5D {
        return None;
    }
    let inner = slice_copy(t.as_slice(), 1, tl - 1);
    let c1 = match split_first_comma(inner.as_slice()) {
        Some(c) => c,
        None => return None,
    };
    let a = slice_copy(inner.as_slice(), 0, c1);
    let b = slice_copy(inner.as_slice(), c1 + 1, inner.len());
    let c2 = match split_first_comma(b.as_slice()) {
        Some(c) => c,
        None => return None,
    };
    let k = slice_copy(b.as_slice(), 0, c2);
    let r = slice_copy(b.as_slice(), c2 + 1, b.len());
    let (ks, ke) = trim_bounds(k.as_slice());
    let (qs, qe) = strip_quotes_bounds(k.as_slice(), ks, ke);
    if !(qe == qs + 1 && k[qs] == 0x6F) {
        proof {
            let q = k@.subrange(qs as int, qe as int);
            if q == seq![0x6Fu8] {
                assert(q.len() == 1 && q[0] == 0x6F);
            }
        }
        return None;
    }
    assert(k@.subrange(qs as int, qe as int) =~= seq![0x6Fu8]);
    let (rs, re) = trim_bounds(r.as_slice());
    if re - rs < 2 || r[rs] != 0x22 || r[re - 1] != 0x22 {
        return None;
    }
    let body = slice_copy(r.as_slice(), rs + 1, re - 1);
    let data = decode_json_string(body.as_slice());
    let (as_, ae) = trim_bounds(a.as_slice());
    let time_text = slice_copy(a.as_slice(), as_, ae);
    proof {
        let raw = r@.subrange(rs as int, re as int);
        assert(raw.subrange(1, raw.len() - 1) =~= body@);
    }
    Some(CastRow { time_text, data })
}

pub open spec fn rows_view(v: Seq<CastRow>) -> Seq<(Seq<u8>, Seq<u8>)> {
    v.map_values(|r: CastRow| (r.time_text@, r.data@))
}

/// The output rows among `lines`, in order.
pub open spec fn spec_cast_rows(lines: Seq<Seq<u8>>) -> Seq<(Seq<u8>, Seq<u8>)>
    decreases lines.len(),
{
    if lines.len() == 0 {
        Seq::empty()
    } else {
        spec_cast_rows(lines.drop_last()) + match spec_cast_row(lines.last()) {
            Some(x) => seq![x],
            None => Seq::empty(),
        }
    }
}

/// The header line of a cast (empty when the text is).
pub open spec fn cast_header(text: Seq<u8>) -> Seq<u8> {
    if lines_from(text, 0).len() > 0 { lines_from(text, 0)[0] } else { Seq::empty() }
}

/// The lines after the header.
pub open spec fn cast_body(text: Seq<u8>) -> Seq<Seq<u8>> {
    if lines_from(text, 0).len() > 0 { lines_from(text, 0).drop_first() } else { Seq::empty() }
}

/// A parsed cast: whether its times are deltas, and its output rows.
pub struct CastText {
    pub is_v3: bool,
    pub rows: Vec<CastRow>,
}

/// Parse a cast's text into its header flag and its candidate output rows.
pub fn parse_cast(text: &str) -> (r: CastText)
    ensures
        r.is_v3 == spec_header_is_v3(cast_header(text.spec_bytes())),
        rows_view(r.rows@) == spec_cast_rows(cast_body(text.spec_bytes())),
{
    let lines = split_lines(text.as_bytes());
    let ghost lv = lines_view(lines@);
    let empty: Vec<u8> = Vec::new();
    let is_v3 = if lines.len() > 0 { header_is_v3(lines[0].as_slice()) } else { header_is_v3(empty.as_slice()) };
    let mut rows: Vec<CastRow> = Vec::new();
    let mut i: usize = 1;
    if lines.len() == 0 {
        assert(empty@ =~= Seq::<u8>::empty());
        return CastText { is_v3, rows };
    }
    assert(lv.subrange(1, 1) =~= Seq::<Seq<u8>>::empty());
    while i < lines.len()
        invariant
            1 <= i <= lines@.len(),
            lv == lines_view(lines@),
            rows_view(rows@) == spec_cast_rows(lv.subrange(1, i as int)),
        decreases lines@.len() - i,
    {
        let ghost before = rows_view(rows@);
        assert(lv.subrange(1, i + 1).drop_last() =~= lv.subrange(1, i as int));
        assert(lv[i as int] == lines@[i as int]@);
        match cast_row(lines[i].as_slice()) {
            Some(row) => {
                rows.push(row);
                assert(rows_view(rows@) =~= before + seq![(row.time_text@, row.data@)]);
            },
            None => {
                assert(rows_view(rows@) =~= before + Seq::<(Seq<u8>, Seq<u8>)>::empty());
            },
        }
        i = i + 1;
    }
    assert(lv.subrange(1, lv.len() as int) =~= lv.drop_first());
    CastText { is_v3, rows }
}

// ---------------------------------------------------------------------------
// The program
// ---------------------------------------------------------------------------

/// Release times: absolute, or (version 3) running sums of the deltas,
/// saturating at `u64::MAX`.
pub open spec fn release_times(deltas: bool, times: Seq<u64>) -> Seq<u64>
    decreases times.len(),
{
    if times.len() == 0 {
        Seq::empty()
    } else {
        let prev = release_times(deltas, times.drop_last());
        let t = times.last();
        prev.push(
            if !deltas {
                t
            } else {
                let acc = if prev.len() == 0 { 0u64 } else { prev.last() };
                if acc + t > u64::MAX { u64::MAX } else { (acc + t) as u64 }
            },
        )
    }
}

/// With deltas, release times never go backwards.
pub proof fn law_delta_times_nondecreasing(times: Seq<u64>, i: int, j: int)
    requires
        0 <= i <= j < times.len(),
    ensures
        release_times(true, times).len() == times.len(),
        release_times(true, times)[i] <= release_times(true, times)[j],
    decreases times.len(),
{
    lemma_release_len(true, times);
    let prev = times.drop_last();
    if j == times.len() - 1 {
        if i < j {
            law_delta_times_nondecreasing(prev, i, j - 1);
            lemma_release_len(true, prev);
            assert(release_times(true, times)[i] == release_times(true, prev)[i]);
            assert(release_times(true, times)[j - 1] == release_times(true, prev)[j - 1]);
        }
    } else {
        law_delta_times_nondecreasing(prev, i, j);
        lemma_release_len(true, prev);
    }
}

proof fn lemma_release_len(deltas: bool, times: Seq<u64>)
    ensures
        release_times(deltas, times).len() == times.len(),
    decreases times.len(),
{
    if times.len() > 0 {
        lemma_release_len(deltas, times.drop_last());
    }
}

/// Rows released by a tick are a run of the pending rows: the cursor never
/// moves back or past the end, every row it passes is due, and the row it
/// stops at is not.
pub proof fn law_release_in_order(times: Seq<u64>, from: int, now: u64)
    requires
        0 <= from <= times.len(),
    ensures
        from <= released_until(times, from, now) <= times.len(),
        forall|k: int| from <= k < released_until(times, from, now) ==> #[trigger] times[k] <= now,
        released_until(times, from, now) < times.len() ==> times[released_until(times, from, now)] > now,
    decreases times.len() - from,
{
    if from < times.len() && times[from] <= now {
        law_release_in_order(times, from + 1, now);
        let e = released_until(times, from, now);
        assert(e == released_until(times, from + 1, now));
        assert forall|k: int| from <= k < e implies #[trigger] times[k] <= now by {
            if k > from {
                assert(from + 1 <= k < released_until(times, from + 1, now));
            }
        }
    }
}

pub open spec fn event_times(v: Seq<(u64, Vec<u8>)>) -> Seq<u64> {
    v.map_values(|e: (u64, Vec<u8>)| e.0)
}

pub open spec fn event_data(v: Seq<(u64, Vec<u8>)>) -> Seq<Seq<u8>> {
    v.map_values(|e: (u64, Vec<u8>)| e.1@)
}

/// Mathematical state of a replay.
pub struct ReplayView {
    pub times: Seq<u64>,
    pub data: Seq<Seq<u8>>,
    pub next: int,
    pub return_to_echo: bool,
}

/// A replay after the clock ticked at each of `ts`, in order.
pub open spec fn after_ticks(v: ReplayView, ts: Seq<u64>) -> ReplayView
    decreases ts.len(),
{
    if ts.len() == 0 {
        v
    } else {
        let w = after_ticks(v, ts.drop_last());
        ReplayView { next: released_until(w.times, w.next, ts.last()), ..w }
    }
}

/// A replay hands over to the shell at most once: one built without a
/// return never asks, and once it has asked it never asks again, whatever
/// ticks follow.
pub proof fn law_replay_switches_once(v: ReplayView, ts: Seq<u64>)
    ensures
        !v.return_to_echo ==> model_switch(ProgramModel::Replay(after_ticks(v, ts))).0 is None,
        model_switch(ProgramModel::Replay(v)).0 is Some ==> model_switch(ProgramModel::Replay(after_ticks(
            ReplayView { return_to_echo: false, ..v }, ts))).0 is None,
{
    lemma_ticks_keep_return(v, ts);
    lemma_ticks_keep_return(ReplayView { return_to_echo: false, ..v }, ts);
}

proof fn lemma_ticks_keep_return(v: ReplayView, ts: Seq<u64>)
    ensures
        after_ticks(v, ts).return_to_echo == v.return_to_echo,
    decreases ts.len(),
{
    if ts.len() > 0 {
        lemma_ticks_keep_return(v, ts.drop_last());
    }
}

/// Output rows released by the host's clock.
pub struct Replay {
    events: Vec<(u64, Vec<u8>)>,
    next: usize,
    return_to_echo: bool,
}

impl View for Replay {
    type V = ReplayView;

    closed spec fn view(&self) -> ReplayView {
        ReplayView {
            times: event_times(self.events@),
            data: event_data(self.events@),
            next: self.next as int,
            return_to_echo: self.return_to_echo,
        }
    }
}

/// Concatenation of `data[from..to]`.
pub open spec fn concat_range(data: Seq<Seq<u8>>, from: int, to: int) -> Seq<u8>
    decreases to - from,
{
    if to <= from { Seq::empty() } else { concat_range(data, from, to - 1) + data[to - 1] }
}

/// The first index at or after `from` whose time is later than `now`.
pub open spec fn released_until(times: Seq<u64>, from: int, now: u64) -> int
    decreases times.len() - from,
{
    if from < 0 || from >= times.len() || times[from] > now {
        from
    } else {
        released_until(times, from + 1, now)
    }
}

impl Replay {
    /// A replay of rows with times in milliseconds, in the order given;
    /// `deltas` makes each time relative to the previous row.
    pub fn from_timed_rows(deltas: bool, rows: Vec<(u64, Vec<u8>)>, return_to_echo: bool) -> (r: Replay)
        ensures
            r@.times == release_times(deltas, event_times(rows@)),
            r@.data == event_data(rows@),
            r@.next == 0,
            r@.return_to_echo == return_to_echo,
    {
        let mut events: Vec<(u64, Vec<u8>)> = Vec::new();
        let mut acc: u64 = 0;
        let mut rows = rows;
        let ghost all = rows@;
        let n = rows.len();
        let mut i: usize = 0;
        while i < n
            invariant
                i <= n == all.len(),
                rows@ == all.subrange(i as int, n as int),
                event_times(events@) == release_times(deltas, event_times(all.subrange(0, i as int))),
                event_data(events@) == event_data(all.subrange(0, i as int)),
                deltas && i > 0 ==> acc == event_times(events@).last(),
                deltas && i == 0 ==> acc == 0,
            decreases n - i,
        {
            let (t, d) = rows.remove(0);
            assert(rows@ =~= all.subrange(i + 1, n as int));
            let ghost te = event_times(events@);
            let ghost de = event_data(events@);
            let at = if !deltas {
                t
            } else {
                acc = if t > u64::MAX - acc { u64::MAX } else { acc + t };
                acc
            };
            let ghost dv = d@;
            events.push((at, d));
            proof {
                let sub = all.subrange(0, i + 1);
                assert(sub.drop_last() =~= all.subrange(0, i as int));
                assert(event_times(sub).drop_last() =~= event_times(all.subrange(0, i as int)));
                assert(event_times(sub).last() == t);
                assert(event_times(events@) =~= te.push(at));
                assert(event_data(events@) =~= de.push(dv));
                assert(event_data(sub) =~= event_data(all.subrange(0, i as int)).push(dv));
            }
            i = i + 1;
        }
        assert(all.subrange(0, n as int) =~= all);
        Replay { events, next: 0, return_to_echo }
    }
}

impl Default for Replay {
    fn default() -> (r: Replay)
        ensures
            r@.times.len() == 0,
            r@.data.len() == 0,
            r@.next == 0,
            !r@.return_to_echo,
    {
        Replay { events: Vec::new(), next: 0, return_to_echo: false }
    }
}

proof fn lemma_prefix(a: Seq<u8>, b: Seq<u8>)
    ensures
        a.is_prefix_of(a + b),
{
    assert((a + b).subrange(0, a.len() as int) =~= a);
}

impl Program for Replay {
    open spec fn model(&self) -> ProgramModel {
        ProgramModel::Replay(self@)
    }

    /// A replay prints nothing until its rows are due.
    fn boot(&mut self, out: &mut Vec<u8>)
        ensures
            final(self)@ == old(self)@,
            final(out)@ == old(out)@,
    {
        proof { lemma_prefix(old(out)@, Seq::<u8>::empty()); assert(old(out)@ + Seq::<u8>::empty() =~= old(out)@); }
    }

    fn on_byte(&mut self, byte: u8, out: &mut Vec<u8>)
        ensures
            final(self)@ == old(self)@,
            final(out)@ == old(out)@,
    {
        proof { lemma_prefix(old(out)@, Seq::<u8>::empty()); assert(old(out)@ + Seq::<u8>::empty() =~= old(out)@); }
    }

    fn wants_raw(&self) -> (r: bool)
        ensures
            r,
    {
        true
    }

    /// Release every row whose time has come, in order.
    fn on_tick(&mut self, now_ms: u64, out: &mut Vec<u8>)
        ensures
            final(self)@ == (ReplayView { next: released_until(old(self)@.times, old(self)@.next, now_ms), ..old(self)@ }),
            final(out)@ == old(out)@ + concat_range(old(self)@.data, old(self)@.next,
                released_until(old(self)@.times, old(self)@.next, now_ms)),
    {
        let ghost v = self@;
        let n = self.events.len();
        while self.next < n && self.events[self.next].0 <= now_ms
            invariant
                n == self.events@.len(),
                self@ == (ReplayView { next: self.next as int, ..v }),
                v.next <= self.next,
                self.next > n ==> self.next == v.next,
                released_until(v.times, v.next, now_ms) == released_until(v.times, self.next as int, now_ms),
                out@ == old(out)@ + concat_range(v.data, v.next, self.next as int),
            decreases n - self.next,
        {
            let k = self.next;
            assert(v.data[k as int] == self.events@[k as int].1@);
            assert(v.times[k as int] == self.events@[k as int].0);
            push_range(out, self.events[k].1.as_slice(), 0, self.events[k].1.len());
            assert(self.events@[k as int].1@.subrange(0, self.events@[k as int].1@.len() as int)
                =~= self.events@[k as int].1@);
            self.next = k + 1;
        }
        proof { lemma_prefix(old(out)@, concat_range(v.data, v.next, self.next as int)); }
    }

    /// Once every row has been released, a replay started with
    /// `return_to_echo` asks once to hand over to the echo shell.
    fn pending_switch(&mut self) -> (r: Option<ProgramKind>)
        ensures
            (old(self)@.return_to_echo && old(self)@.next >= old(self)@.times.len()) ==> (r == Some(ProgramKind::EchoShell)
                && final(self)@ == (ReplayView { return_to_echo: false, ..old(self)@ })),
            !(old(self)@.return_to_echo && old(self)@.next >= old(self)@.times.len()) ==> (r is None
                && final(self)@ == old(self)@),
    {
        if self.return_to_echo && self.next >= self.events.len() {
            self.return_to_echo = false;
            return Some(ProgramKind::EchoShell);
        }
        None
    }
    /// A replay ignores the window size.
    fn on_resize(&mut self, cols: u16, rows: u16, out: &mut Vec<u8>) {
        assert(out@ =~= old(out)@ + Seq::<u8>::empty());
        assert(out@.subrange(0, old(out)@.len() as int) =~= old(out)@);
    }

    /// A replay ignores signals.
    fn on_signal(&mut self, sig: Signal, out: &mut Vec<u8>) {
        assert(out@ =~= old(out)@ + Seq::<u8>::empty());
        assert(out@.subrange(0, old(out)@.len() as int) =~= old(out)@);
    }

    /// Never asks for another line discipline.
    fn mode_request(&mut self) -> (r: Option<TermiosMode>) {
        None
    }
}

} // verus!
