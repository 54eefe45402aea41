//! Shell-integration DCS protocol.
//!
//! Wire frame: `ESC P $ d <hex-of-JSON> ST`, where ST is either the 8-bit
//! terminator `0x9C` or the 7-bit pair `ESC \`. The hex body decodes to a
//! JSON object tagged by `"hook"`:
//!
//! ```text
//! {"hook":"Precmd",          "value": {"pwd":"/Users/alice"}}
//! {"hook":"Preexec",         "value": {"command":"ls"}}
//! {"hook":"CommandFinished", "value": {"exit_code":0}}
//! ```
//!
//! Only these three hooks are consumed; any other hook, malformed hex or
//! malformed JSON is dropped silently so the protocol stays
//! forward-compatible.

use vstd::prelude::*;
use vstd::utf8::*;
use std::collections::VecDeque;
use crate::bytes::{bytes_eq, string_from_utf8, utf8_text};

verus! {

pub const ESC: u8 = 0x1B;
pub const ST_8BIT: u8 = 0x9C;
pub const BACKSLASH: u8 = 0x5C;
pub const QUOTE: u8 = 0x22;
pub const COLON: u8 = 0x3A;

// ---------------------------------------------------------------------------
// Hex
// ---------------------------------------------------------------------------

/// Value of one hex digit (either case), if it is one.
pub open spec fn hex_nibble(b: u8) -> Option<u8> {
    if 0x30 <= b <= 0x39 {
        Some((b - 0x30) as u8)
    } else if 0x61 <= b <= 0x66 {
        Some((b - 0x61 + 10) as u8)
    } else if 0x41 <= b <= 0x46 {
        Some((b - 0x41 + 10) as u8)
    } else {
        None
    }
}

/// Hex decoding: defined exactly when the input has even length and every
/// byte is a hex digit; byte `k` of the output is the pair at `2k, 2k+1`.
pub open spec fn spec_hex_decode(s: Seq<u8>) -> Option<Seq<u8>> {
    if s.len() % 2 == 0 && (forall|i: int| 0 <= i < s.len() ==> (#[trigger] hex_nibble(s[i])) is Some) {
        Some(Seq::new((s.len() / 2) as nat, |k: int|
            (hex_nibble(s[2 * k]).unwrap() * 16 + hex_nibble(s[2 * k + 1]).unwrap()) as u8))
    } else {
        None
    }
}

pub(crate) fn nibble(b: u8) -> (r: Option<u8>)
    ensures
        r == hex_nibble(b),
        r matches Some(v) ==> v < 16,
{
    if b >= 0x30 && b <= 0x39 {
        Some(b - 0x30)
    } else if b >= 0x61 && b <= 0x66 {
        Some(b - 0x61 + 10)
    } else if b >= 0x41 && b <= 0x46 {
        Some(b - 0x41 + 10)
    } else {
        None
    }
}

/// Hex-decode `input`; odd length or any non-hex byte yields `None`.
pub fn hex_decode(input: &[u8]) -> (r: Option<Vec<u8>>)
    ensures
        match r {
            Some(v) => spec_hex_decode(input@) == Some(v@),
            None => spec_hex_decode(input@) is None,
        },
{
    if input.len() % 2 != 0 {
        return None;
    }
    let mut out: Vec<u8> = Vec::new();
    let mut k: usize = 0;
    let n = input.len() / 2;
    while k < n
        invariant
            n == input@.len() / 2,
            input@.len() % 2 == 0,
            2 * n == input@.len(),
            input@.len() == input.len(),
            0 <= k <= n,
            out@.len() == k,
            forall|i: int| 0 <= i < 2 * k ==> (#[trigger] hex_nibble(input@[i])) is Some,
            forall|j: int| 0 <= j < k ==> #[trigger] out@[j] == (hex_nibble(input@[2 * j]).unwrap() * 16
                + hex_nibble(input@[2 * j + 1]).unwrap()) as u8,
        decreases n - k,
    {
        let hi = match nibble(input[2 * k]) {
            Some(v) => v,
            None => {
                assert(!(forall|i: int| 0 <= i < input@.len() ==> (#[trigger] hex_nibble(input@[i])) is Some));
                return None;
            }
        };
        let lo = match nibble(input[2 * k + 1]) {
            Some(v) => v,
            None => {
                assert(!(forall|i: int| 0 <= i < input@.len() ==> (#[trigger] hex_nibble(input@[i])) is Some));
                return None;
            }
        };
        out.push(hi * 16 + lo);
        k = k + 1;
        assert forall|i: int| 0 <= i < 2 * k implies (#[trigger] hex_nibble(input@[i])) is Some by {
            if i >= 2 * k - 2 {
                assert(i == 2 * (k - 1) || i == 2 * (k - 1) + 1);
            }
        }
    }
    assert(out@ =~= Seq::new((input@.len() / 2) as nat, |j: int|
        (hex_nibble(input@[2 * j]).unwrap() * 16 + hex_nibble(input@[2 * j + 1]).unwrap()) as u8));
    Some(out)
}

// ---------------------------------------------------------------------------
// String terminators
// ---------------------------------------------------------------------------

/// A string terminator starts at `i`: the 8-bit `0x9C`, or `ESC \`.
pub open spec fn is_st_at(s: Seq<u8>, i: int) -> bool {
    &&& 0 <= i < s.len()
    &&& (s[i] == ST_8BIT || (s[i] == ESC && i + 1 < s.len() && s[i + 1] == BACKSLASH))
}

/// `i` is the first terminator at or after `from`.
pub open spec fn is_first_st_from(s: Seq<u8>, from: int, i: int) -> bool {
    &&& from <= i
    &&& is_st_at(s, i)
    &&& forall|j: int| from <= j < i ==> !is_st_at(s, j)
}

/// The offset of the first string terminator at or after `from`.
pub open spec fn first_st_from(s: Seq<u8>, from: int) -> Option<int> {
    if exists|i: int| is_first_st_from(s, from, i) {
        Some(choose|i: int| is_first_st_from(s, from, i))
    } else {
        None
    }
}

/// The first terminator from `from` is the one at `i` when `i` is it.
pub proof fn lemma_first_st_unique(s: Seq<u8>, from: int, i: int)
    requires
        is_first_st_from(s, from, i),
    ensures
        first_st_from(s, from) == Some(i),
{
    let k = choose|k: int| is_first_st_from(s, from, k);
    assert(is_first_st_from(s, from, k));
    if k < i {
        assert(!is_st_at(s, k));
    } else if i < k {
        assert(!is_st_at(s, i));
    }
}

/// Find the next string terminator at or after `from`; returns the offset
/// of its first byte (`0x9C`, or the `ESC` of `ESC \`).
fn find_st(bytes: &[u8], from: usize) -> (r: Option<usize>)
    ensures
        match r {
            Some(i) => first_st_from(bytes@, from as int) == Some(i as int),
            None => first_st_from(bytes@, from as int) is None,
        },
{
    let mut i = from;
    while i < bytes.len()
        invariant
            from <= i,
            forall|j: int| from <= j < i ==> !is_st_at(bytes@, j),
        decreases bytes@.len() - i,
    {
        if bytes[i] == ST_8BIT {
            proof { lemma_first_st_unique(bytes@, from as int, i as int); }
            return Some(i);
        }
        if bytes[i] == ESC && i + 1 < bytes.len() && bytes[i + 1] == BACKSLASH {
            proof { lemma_first_st_unique(bytes@, from as int, i as int); }
            return Some(i);
        }
        i = i + 1;
    }
    assert(!exists|k: int| is_first_st_from(bytes@, from as int, k));
    None
}


// ---------------------------------------------------------------------------
// Minimal JSON field lookup
// ---------------------------------------------------------------------------

/// JSON insignificant whitespace.
pub open spec fn is_json_ws(b: u8) -> bool {
    b == 0x20 || b == 0x09 || b == 0x0A || b == 0x0D
}

/// The first offset at or after `p` that is not whitespace (or the end).
pub open spec fn skip_ws(s: Seq<u8>, p: int) -> int
    decreases s.len() - p,
{
    if 0 <= p < s.len() && is_json_ws(s[p]) {
        skip_ws(s, p + 1)
    } else {
        p
    }
}

/// The pattern `"<key>":` starts at offset `i`.
pub open spec fn key_at(json: Seq<u8>, key: Seq<u8>, i: int) -> bool {
    &&& 0 <= i
    &&& i + key.len() + 3 <= json.len()
    &&& json[i] == QUOTE
    &&& json.subrange(i + 1, i + 1 + key.len()) == key
    &&& json[i + 1 + key.len()] == QUOTE
    &&& json[i + 2 + key.len()] == COLON
}

/// `i` is the first offset where `"<key>":` occurs.
pub open spec fn is_first_key_at(json: Seq<u8>, key: Seq<u8>, i: int) -> bool {
    &&& key_at(json, key, i)
    &&& forall|j: int| 0 <= j < i ==> !key_at(json, key, j)
}

/// Offset of the value of the first `"<key>":` in `json`, after any
/// whitespace following the colon. The lookup is deliberately flat: it
/// does not track object nesting.
pub open spec fn spec_value_start(json: Seq<u8>, key: Seq<u8>) -> Option<int> {
    if exists|i: int| is_first_key_at(json, key, i) {
        let i = choose|i: int| is_first_key_at(json, key, i);
        Some(skip_ws(json, i + key.len() + 3))
    } else {
        None
    }
}

/// The value of the first `"<key>":` starts after the one at `i` when
/// `i` is the first.
pub proof fn lemma_first_key_unique(json: Seq<u8>, key: Seq<u8>, i: int)
    requires
        is_first_key_at(json, key, i),
    ensures
        spec_value_start(json, key) == Some(skip_ws(json, i + key.len() + 3)),
{
    let k = choose|k: int| is_first_key_at(json, key, k);
    assert(is_first_key_at(json, key, k));
    if k < i {
        assert(!key_at(json, key, k));
    } else if i < k {
        assert(!key_at(json, key, i));
    }
}

proof fn lemma_skip_ws_bounds(s: Seq<u8>, p: int)
    requires
        0 <= p <= s.len(),
    ensures
        p <= skip_ws(s, p) <= s.len(),
    decreases s.len() - p,
{
    if 0 <= p < s.len() && is_json_ws(s[p]) {
        lemma_skip_ws_bounds(s, p + 1);
    }
}

fn key_matches_at(json: &[u8], key: &[u8], i: usize) -> (r: bool)
    requires
        i + key@.len() + 3 <= json@.len(),
    ensures
        r == key_at(json@, key@, i as int),
{
    if json[i] != QUOTE {
        return false;
    }
    let klen = key.len();
    let n = json.len();
    let mut j: usize = 0;
    while j < klen
        invariant
            klen == key@.len(),
            n == json@.len(),
            i + klen + 3 <= json@.len(),
            0 <= j <= klen,
            forall|t: int| 0 <= t < j ==> json@[i + 1 + t] == key@[t],
        decreases klen - j,
    {
        if json[i + 1 + j] != key[j] {
            assert(json@.subrange(i + 1, i + 1 + klen)[j as int] != key@[j as int]);
            return false;
        }
        j = j + 1;
    }
    assert(json@.subrange(i + 1, i + 1 + klen as int) =~= key@);
    json[i + 1 + klen] == QUOTE && json[i + 2 + klen] == COLON
}

/// Locate `"<key>":` and return the offset just after the colon and any
/// following whitespace.
fn find_value_start(json: &[u8], key: &[u8]) -> (r: Option<usize>)
    requires
        key@.len() + 3 <= usize::MAX,
    ensures
        match r {
            Some(v) => spec_value_start(json@, key@) == Some(v as int),
            None => spec_value_start(json@, key@) is None,
        },
{
    let needle_len = key.len() + 3;
    let n = json.len();
    let mut i: usize = 0;
    while needle_len <= n && i <= n - needle_len
        invariant
            needle_len == key@.len() + 3,
            n == json@.len(),
            forall|j: int| 0 <= j < i ==> !key_at(json@, key@, j),
        decreases json@.len() - i,
    {
        if key_matches_at(json, key, i) {
            let mut start = i + 3 + key.len();
            while start < json.len() && (json[start] == 0x20 || json[start] == 0x09
                || json[start] == 0x0A || json[start] == 0x0D)
                invariant
                    i + 3 + key@.len() <= start <= json@.len(),
                    skip_ws(json@, start as int) == skip_ws(json@, i + 3 + key@.len()),
                decreases json@.len() - start,
            {
                start = start + 1;
            }
            proof {
                lemma_first_key_unique(json@, key@, i as int);
            }
            return Some(start);
        }
        i = i + 1;
    }
    assert forall|j: int| !is_first_key_at(json@, key@, j) by {
        if is_first_key_at(json@, key@, j) {
            assert(j < i);
        }
    }
    None
}

/// Four hex digits at `p..p+4`, as a code unit.
pub open spec fn hex4(s: Seq<u8>, p: int) -> Option<u32> {
    if p + 4 <= s.len() && hex_nibble(s[p]) is Some && hex_nibble(s[p + 1]) is Some
        && hex_nibble(s[p + 2]) is Some && hex_nibble(s[p + 3]) is Some {
        Some((hex_nibble(s[p]).unwrap() * 4096 + hex_nibble(s[p + 1]).unwrap() * 256
            + hex_nibble(s[p + 2]).unwrap() * 16 + hex_nibble(s[p + 3]).unwrap()) as u32)
    } else {
        None
    }
}

/// The byte that a single-letter escape stands for.
pub open spec fn simple_escape(esc: u8) -> Option<u8> {
    if esc == QUOTE || esc == BACKSLASH || esc == 0x2F {
        Some(esc)
    } else if esc == 0x6E {
        Some(0x0Au8)
    } else if esc == 0x72 {
        Some(0x0Du8)
    } else if esc == 0x74 {
        Some(0x09u8)
    } else if esc == 0x62 {
        Some(0x08u8)
    } else if esc == 0x66 {
        Some(0x0Cu8)
    } else {
        None
    }
}

/// Decoded contents of a JSON string whose body starts at `i` (just after
/// the opening quote), up to the closing quote. Escapes: `\" \\ \/ \n
/// \r \t \b \f` and `\uXXXX` for a non-surrogate code unit, which is
/// written out in UTF-8. `None` on a bad escape or a missing closing quote.
pub open spec fn json_str_body(s: Seq<u8>, i: int) -> Option<Seq<u8>>
    decreases s.len() - i,
{
    if i < 0 || i >= s.len() {
        None
    } else if s[i] == QUOTE {
        Some(Seq::empty())
    } else if s[i] == BACKSLASH {
        if i + 1 >= s.len() {
            None
        } else if simple_escape(s[i + 1]) is Some {
            match json_str_body(s, i + 2) {
                Some(rest) => Some(seq![simple_escape(s[i + 1]).unwrap()] + rest),
                None => None,
            }
        } else if s[i + 1] == 0x75 {
            match hex4(s, i + 2) {
                Some(code) => if !not_surrogate(code) {
                    None
                } else {
                    match json_str_body(s, i + 6) {
                        Some(rest) => Some(encode_scalar(code) + rest),
                        None => None,
                    }
                },
                None => None,
            }
        } else {
            None
        }
    } else {
        match json_str_body(s, i + 1) {
            Some(rest) => Some(seq![s[i]] + rest),
            None => None,
        }
    }
}

/// A byte as JSON writes it inside a string: the quote, the backslash and
/// the control bytes LF, CR, TAB, BS and FF as their two-byte escapes,
/// anything else as itself.
pub open spec fn json_char(b: u8) -> Seq<u8> {
    if b == QUOTE {
        seq![BACKSLASH, QUOTE]
    } else if b == BACKSLASH {
        seq![BACKSLASH, BACKSLASH]
    } else if b == 0x0A {
        seq![BACKSLASH, 0x6Eu8]
    } else if b == 0x0D {
        seq![BACKSLASH, 0x72u8]
    } else if b == 0x09 {
        seq![BACKSLASH, 0x74u8]
    } else if b == 0x08 {
        seq![BACKSLASH, 0x62u8]
    } else if b == 0x0C {
        seq![BACKSLASH, 0x66u8]
    } else {
        seq![b]
    }
}

/// A text as JSON writes it inside a string, byte by byte.
pub open spec fn json_text(t: Seq<u8>) -> Seq<u8>
    decreases t.len(),
{
    if t.len() == 0 {
        Seq::empty()
    } else {
        json_char(t[0]) + json_text(t.drop_first())
    }
}

proof fn lemma_json_text_reads_back(p: Seq<u8>, t: Seq<u8>, r: Seq<u8>)
    ensures
        json_str_body(p + json_text(t) + seq![QUOTE] + r, p.len() as int) == Some(t),
    decreases t.len(),
{
    let s = p + json_text(t) + seq![QUOTE] + r;
    if t.len() == 0 {
        assert(s[p.len() as int] == QUOTE);
        assert(t =~= Seq::<u8>::empty());
    } else {
        let c = json_char(t[0]);
        let rest = t.drop_first();
        lemma_json_text_reads_back(p + c, rest, r);
        assert(p + c + json_text(rest) + seq![QUOTE] + r =~= s);
        assert(t =~= seq![t[0]] + rest);
        let i = p.len() as int;
        assert(s[i] == c[0]);
        if c.len() == 2 {
            assert(s[i + 1] == c[1]);
        }
    }
}

/// Reading a JSON string undoes JSON escaping: for every text, the text
/// written between quotes with its quotes, backslashes and control bytes
/// escaped reads back as the text itself — `\n` as a line feed (0x0A),
/// `\r` as a carriage return, `\t` as a tab, `\b` and `\f` as backspace
/// and form feed.
pub proof fn law_json_string_reads_back(t: Seq<u8>, rest: Seq<u8>)
    ensures
        json_string_at(seq![QUOTE] + json_text(t) + seq![QUOTE] + rest, 0) == Some(t),
{
    lemma_json_text_reads_back(seq![QUOTE], t, rest);
}

/// A JSON string starting with its opening quote at `start`.
pub open spec fn json_string_at(s: Seq<u8>, start: int) -> Option<Seq<u8>> {
    if 0 <= start < s.len() && s[start] == QUOTE {
        json_str_body(s, start + 1)
    } else {
        None
    }
}

/// `acc ++ x` when `x` is present.
pub open spec fn prepend_opt(acc: Seq<u8>, x: Option<Seq<u8>>) -> Option<Seq<u8>> {
    match x {
        Some(r) => Some(acc + r),
        None => None,
    }
}

pub(crate) fn push_code_unit(out: &mut Vec<u8>, code: u32)
    requires
        code <= 0xFFFF,
        not_surrogate(code),
    ensures
        final(out)@ == old(out)@ + encode_scalar(code),
{
    if code < 0x80 {
        out.push((code & 0x7F) as u8);
    } else if code < 0x800 {
        out.push(0xC0 | ((code >> 6) & 0x1F) as u8);
        out.push(0x80 | (code & 0x3F) as u8);
    } else {
        out.push(0xE0 | ((code >> 12) & 0x0F) as u8);
        out.push(0x80 | ((code >> 6) & 0x3F) as u8);
        out.push(0x80 | (code & 0x3F) as u8);
    }
}

fn read_hex4(json: &[u8], p: usize) -> (r: Option<u32>)
    requires
        p + 4 <= json@.len(),
    ensures
        r == hex4(json@, p as int),
        r matches Some(c) ==> c <= 0xFFFF,
{
    let a = match nibble(json[p]) { Some(v) => v, None => return None };
    let b = match nibble(json[p + 1]) { Some(v) => v, None => return None };
    let c = match nibble(json[p + 2]) { Some(v) => v, None => return None };
    let d = match nibble(json[p + 3]) { Some(v) => v, None => return None };
    Some(a as u32 * 4096 + b as u32 * 256 + c as u32 * 16 + d as u32)
}

/// Read a JSON string value whose opening quote is at `start`.
fn read_json_string(json: &[u8], start: usize) -> (r: Option<Vec<u8>>)
    ensures
        match r {
            Some(v) => json_string_at(json@, start as int) == Some(v@),
            None => json_string_at(json@, start as int) is None,
        },
{
    if start >= json.len() || json[start] != QUOTE {
        return None;
    }
    let mut i = start + 1;
    let mut out: Vec<u8> = Vec::new();
    while i < json.len()
        invariant
            start + 1 <= i,
            json_string_at(json@, start as int) == prepend_opt(out@, json_str_body(json@, i as int)),
        decreases json@.len() - i,
    {
        let ghost before = out@;
        let c = json[i];
        if c == QUOTE {
            assert(out@ + Seq::<u8>::empty() =~= out@);
            return Some(out);
        } else if c == BACKSLASH {
            if i + 1 >= json.len() {
                return None;
            }
            let esc = json[i + 1];
            if esc == QUOTE || esc == BACKSLASH || esc == 0x2F {
                out.push(esc);
                i = i + 2;
            } else if esc == 0x6E {
                out.push(0x0A);
                i = i + 2;
            } else if esc == 0x72 {
                out.push(0x0D);
                i = i + 2;
            } else if esc == 0x74 {
                out.push(0x09);
                i = i + 2;
            } else if esc == 0x62 {
                out.push(0x08);
                i = i + 2;
            } else if esc == 0x66 {
                out.push(0x0C);
                i = i + 2;
            } else if esc == 0x75 {
                if json.len() - i < 6 {
                    return None;
                }
                let code = match read_hex4(json, i + 2) {
                    Some(c) => c,
                    None => return None,
                };
                if code >= 0xD800 && code <= 0xDFFF {
                    return None;
                }
                push_code_unit(&mut out, code);
                i = i + 6;
            } else {
                return None;
            }
        } else {
            out.push(c);
            i = i + 1;
        }
        proof {
            assert forall|x: Seq<u8>, y: Seq<u8>, z: Seq<u8>| #![auto] (x + y) + z =~= x + (y + z) by {}
        }
    }
    None
}

/// Value of a run of ASCII decimal digits.
pub open spec fn decimal_value(d: Seq<u8>) -> nat
    decreases d.len(),
{
    if d.len() == 0 {
        0
    } else {
        decimal_value(d.drop_last()) * 10 + (d.last() - 0x30) as nat
    }
}

pub open spec fn is_digit(b: u8) -> bool {
    0x30 <= b <= 0x39
}

/// End of the run of digits starting at `p`.
pub open spec fn digit_run_end(s: Seq<u8>, p: int) -> int
    decreases s.len() - p,
{
    if 0 <= p < s.len() && is_digit(s[p]) {
        digit_run_end(s, p + 1)
    } else {
        p
    }
}

/// Integer value of `"<key>":` followed by an optional `-` and a run of
/// digits; `None` when the key is missing, no digit follows, or the
/// magnitude exceeds `i64::MAX`.
pub open spec fn spec_find_int(json: Seq<u8>, key: Seq<u8>) -> Option<i64> {
    match spec_value_start(json, key) {
        None => None,
        Some(v) => {
            let negative = 0 <= v < json.len() && json[v] == 0x2D;
            let p = if negative { v + 1 } else { v };
            let e = digit_run_end(json, p);
            let mag = decimal_value(json.subrange(p, e));
            if e == p || mag > i64::MAX {
                None
            } else if negative {
                Some((-mag) as i64)
            } else {
                Some(mag as i64)
            }
        },
    }
}

proof fn lemma_digit_run_end_bounds(s: Seq<u8>, p: int)
    requires
        0 <= p <= s.len(),
    ensures
        p <= digit_run_end(s, p) <= s.len(),
        forall|k: int| p <= k < digit_run_end(s, p) ==> is_digit(#[trigger] s[k]),
    decreases s.len() - p,
{
    if 0 <= p < s.len() && is_digit(s[p]) {
        lemma_digit_run_end_bounds(s, p + 1);
    }
}

/// Appending a digit multiplies the decimal value by ten and adds it.
pub proof fn lemma_decimal_push(d: Seq<u8>, b: u8)
    ensures
        decimal_value(d.push(b)) == decimal_value(d) * 10 + (b - 0x30) as nat,
{
    assert(d.push(b).drop_last() =~= d);
}

proof fn lemma_decimal_monotone(d: Seq<u8>, k: int)
    requires
        0 <= k <= d.len(),
        forall|t: int| 0 <= t < d.len() ==> is_digit(#[trigger] d[t]),
    ensures
        decimal_value(d.subrange(0, k)) <= decimal_value(d),
    decreases d.len() - k,
{
    if k < d.len() {
        lemma_decimal_monotone(d, k + 1);
        assert(d.subrange(0, k + 1) =~= d.subrange(0, k).push(d[k]));
        lemma_decimal_push(d.subrange(0, k), d[k]);
    } else {
        assert(d.subrange(0, k) =~= d);
    }
}

fn find_int_in_value(json: &[u8], key: &[u8]) -> (r: Option<i64>)
    requires
        key@.len() + 3 <= usize::MAX,
    ensures
        r == spec_find_int(json@, key@),
{
    let v = match find_value_start(json, key) {
        Some(v) => v,
        None => return None,
    };
    proof {
        let i = choose|i: int| is_first_key_at(json@, key@, i);
        lemma_skip_ws_bounds(json@, i + key@.len() + 3);
    }
    let negative = v < json.len() && json[v] == 0x2D;
    let start = if negative { v + 1 } else { v };
    let mut end = start;
    let mut mag: u64 = 0;
    proof {
        lemma_digit_run_end_bounds(json@, start as int);
    }
    while end < json.len() && json[end] >= 0x30 && json[end] <= 0x39
        invariant
            start <= end <= json@.len(),
            digit_run_end(json@, start as int) == digit_run_end(json@, end as int),
            mag <= i64::MAX ==> mag == decimal_value(json@.subrange(start as int, end as int)),
            mag > i64::MAX ==> decimal_value(json@.subrange(start as int, end as int)) > i64::MAX,
        decreases json@.len() - end,
    {
        let d = (json[end] - 0x30) as u64;
        proof {
            assert(json@.subrange(start as int, end + 1) =~= json@.subrange(start as int, end as int).push(json@[end as int]));
            lemma_decimal_push(json@.subrange(start as int, end as int), json@[end as int]);
        }
        if mag <= i64::MAX as u64 {
            if mag > (i64::MAX as u64 - d) / 10 {
                mag = i64::MAX as u64 + 1;
            } else {
                mag = mag * 10 + d;
            }
        }
        end = end + 1;
    }
    if end == start {
        return None;
    }
    if mag > i64::MAX as u64 {
        return None;
    }
    assert(json@.subrange(start as int, end as int) == json@.subrange(start as int, digit_run_end(json@, start as int)));
    if negative {
        Some(-(mag as i64))
    } else {
        Some(mag as i64)
    }
}


// ---------------------------------------------------------------------------
// Events
// ---------------------------------------------------------------------------

/// One shell-integration event.
#[derive(Debug, Clone, PartialEq, Eq)]
pub enum DcsEvent {
    /// The shell is about to draw a prompt. `pwd` is the directory the
    /// upcoming command will run in; `git_branch` is absent when empty or
    /// not shipped.
    Precmd { pwd: Option<String>, git_branch: Option<String> },
    /// The user pressed Enter on `command`.
    Preexec { command: String },
    /// The command returned `exit_code`.
    CommandFinished { exit_code: i32 },
}

/// Mathematical form of a [`DcsEvent`].
pub enum DcsEventView {
    Precmd { pwd: Option<Seq<char>>, git_branch: Option<Seq<char>> },
    Preexec { command: Seq<char> },
    CommandFinished { exit_code: i32 },
}

pub open spec fn opt_string_view(s: Option<String>) -> Option<Seq<char>> {
    match s {
        Some(x) => Some(x@),
        None => None,
    }
}

impl View for DcsEvent {
    type V = DcsEventView;

    open spec fn view(&self) -> DcsEventView {
        match self {
            DcsEvent::Precmd { pwd, git_branch } => DcsEventView::Precmd {
                pwd: opt_string_view(*pwd),
                git_branch: opt_string_view(*git_branch),
            },
            DcsEvent::Preexec { command } => DcsEventView::Preexec { command: command@ },
            DcsEvent::CommandFinished { exit_code } => DcsEventView::CommandFinished {
                exit_code: *exit_code,
            },
        }
    }
}

fn clone_opt_string(s: &Option<String>) -> (r: Option<String>)
    ensures
        opt_string_view(r) == opt_string_view(*s),
{
    match s {
        Some(x) => Some(x.clone()),
        None => None,
    }
}

impl DcsEvent {
    /// A copy of this event.
    pub fn duplicate(&self) -> (r: DcsEvent)
        ensures
            r@ == self@,
    {
        match self {
            DcsEvent::Precmd { pwd, git_branch } => DcsEvent::Precmd {
                pwd: clone_opt_string(pwd),
                git_branch: clone_opt_string(git_branch),
            },
            DcsEvent::Preexec { command } => DcsEvent::Preexec { command: command.clone() },
            DcsEvent::CommandFinished { exit_code } => DcsEvent::CommandFinished {
                exit_code: *exit_code,
            },
        }
    }
}

pub open spec fn key_hook() -> Seq<u8> { seq![0x68u8, 0x6F, 0x6F, 0x6B] }
pub open spec fn key_pwd() -> Seq<u8> { seq![0x70u8, 0x77, 0x64] }
pub open spec fn key_git_branch() -> Seq<u8> {
    seq![0x67u8, 0x69, 0x74, 0x5F, 0x62, 0x72, 0x61, 0x6E, 0x63, 0x68]
}
pub open spec fn key_command() -> Seq<u8> { seq![0x63u8, 0x6F, 0x6D, 0x6D, 0x61, 0x6E, 0x64] }
pub open spec fn key_exit_code() -> Seq<u8> {
    seq![0x65u8, 0x78, 0x69, 0x74, 0x5F, 0x63, 0x6F, 0x64, 0x65]
}
pub open spec fn hook_precmd() -> Seq<u8> { seq![0x50u8, 0x72, 0x65, 0x63, 0x6D, 0x64] }
pub open spec fn hook_preexec() -> Seq<u8> { seq![0x50u8, 0x72, 0x65, 0x65, 0x78, 0x65, 0x63] }
pub open spec fn hook_command_finished() -> Seq<u8> {
    seq![0x43u8, 0x6F, 0x6D, 0x6D, 0x61, 0x6E, 0x64, 0x46, 0x69, 0x6E, 0x69, 0x73, 0x68, 0x65, 0x64]
}

/// The string value of the first `"<key>":` in `json`.
pub open spec fn spec_find_string(json: Seq<u8>, key: Seq<u8>) -> Option<Seq<u8>> {
    match spec_value_start(json, key) {
        Some(v) => json_string_at(json, v),
        None => None,
    }
}

/// `None` for an empty string.
pub open spec fn non_empty(t: Option<Seq<char>>) -> Option<Seq<char>> {
    match t {
        Some(x) => if x.len() == 0 { None } else { Some(x) },
        None => None,
    }
}

/// The event that a decoded JSON payload describes, if any.
#[verifier::opaque]
pub open spec fn spec_parse_json(json: Seq<u8>) -> Option<DcsEventView> {
    match spec_find_string(json, key_hook()) {
        None => None,
        Some(hook) => if hook == hook_precmd() {
            Some(DcsEventView::Precmd {
                pwd: utf8_text(spec_find_string(json, key_pwd())),
                git_branch: non_empty(utf8_text(spec_find_string(json, key_git_branch()))),
            })
        } else if hook == hook_preexec() {
            Some(DcsEventView::Preexec {
                command: match utf8_text(spec_find_string(json, key_command())) {
                    Some(c) => c,
                    None => Seq::empty(),
                },
            })
        } else if hook == hook_command_finished() {
            match spec_find_int(json, key_exit_code()) {
                Some(n) => Some(DcsEventView::CommandFinished { exit_code: n as i32 }),
                None => None,
            }
        } else {
            None
        },
    }
}

/// The event that a hex frame body describes, if any.
pub open spec fn spec_parse_body(body: Seq<u8>) -> Option<DcsEventView> {
    match spec_hex_decode(body) {
        Some(json) => spec_parse_json(json),
        None => None,
    }
}

fn find_string(json: &[u8], key: &[u8]) -> (r: Option<Vec<u8>>)
    requires
        key@.len() + 3 <= usize::MAX,
    ensures
        match r {
            Some(v) => spec_find_string(json@, key@) == Some(v@),
            None => spec_find_string(json@, key@) is None,
        },
{
    match find_value_start(json, key) {
        Some(v) => read_json_string(json, v),
        None => None,
    }
}

fn find_text(json: &[u8], key: &[u8]) -> (r: Option<String>)
    requires
        key@.len() + 3 <= usize::MAX,
    ensures
        opt_string_view(r) == utf8_text(spec_find_string(json@, key@)),
{
    match find_string(json, key) {
        Some(v) => string_from_utf8(v),
        None => None,
    }
}

/// Hex-decode a frame body and dispatch on the `"hook"` discriminator.
/// Malformed input and unknown hooks yield `None`.
#[verifier::spinoff_prover]
#[verifier::rlimit(40)]
pub fn parse_body(body: &[u8]) -> (r: Option<DcsEvent>)
    ensures
        match r {
            Some(e) => spec_parse_body(body@) == Some(e@),
            None => spec_parse_body(body@) is None,
        },
{
    proof {
        reveal(spec_parse_json);
    }
    let json = match hex_decode(body) {
        Some(j) => j,
        None => return None,
    };
    let js = json.as_slice();
    let k_hook: [u8; 4] = [0x68, 0x6F, 0x6F, 0x6B];
    assert(k_hook@ =~= key_hook());
    let hook = match find_string(js, k_hook.as_slice()) {
        Some(h) => h,
        None => return None,
    };
    let h_precmd: [u8; 6] = [0x50, 0x72, 0x65, 0x63, 0x6D, 0x64];
    let h_preexec: [u8; 7] = [0x50, 0x72, 0x65, 0x65, 0x78, 0x65, 0x63];
    let h_finished: [u8; 15] = [0x43, 0x6F, 0x6D, 0x6D, 0x61, 0x6E, 0x64, 0x46, 0x69, 0x6E, 0x69, 0x73,
        0x68, 0x65, 0x64];
    assert(h_precmd@ =~= hook_precmd());
    assert(h_preexec@ =~= hook_preexec());
    assert(h_finished@ =~= hook_command_finished());
    if bytes_eq(hook.as_slice(), h_precmd.as_slice()) {
        let k_pwd: [u8; 3] = [0x70, 0x77, 0x64];
        let k_branch: [u8; 10] = [0x67, 0x69, 0x74, 0x5F, 0x62, 0x72, 0x61, 0x6E, 0x63, 0x68];
        assert(k_pwd@ =~= key_pwd());
        assert(k_branch@ =~= key_git_branch());
        let pwd = find_text(js, k_pwd.as_slice());
        let branch = find_text(js, k_branch.as_slice());
        let git_branch = match branch {
            Some(b) => if b.as_str().is_empty() { None } else { Some(b) },
            None => None,
        };
        Some(DcsEvent::Precmd { pwd, git_branch })
    } else if bytes_eq(hook.as_slice(), h_preexec.as_slice()) {
        let k_command: [u8; 7] = [0x63, 0x6F, 0x6D, 0x6D, 0x61, 0x6E, 0x64];
        assert(k_command@ =~= key_command());
        let command = match find_text(js, k_command.as_slice()) {
            Some(c) => c,
            None => String::new(),
        };
        Some(DcsEvent::Preexec { command })
    } else if bytes_eq(hook.as_slice(), h_finished.as_slice()) {
        let k_exit: [u8; 9] = [0x65, 0x78, 0x69, 0x74, 0x5F, 0x63, 0x6F, 0x64, 0x65];
        assert(k_exit@ =~= key_exit_code());
        match find_int_in_value(js, k_exit.as_slice()) {
            Some(n) => Some(DcsEvent::CommandFinished { exit_code: n as i32 }),
            None => None,
        }
    } else {
        None
    }
}


// ---------------------------------------------------------------------------
// Stateless scanner
// ---------------------------------------------------------------------------

/// A located event: the frame occupies `start..end_exclusive` of the input.
#[derive(Debug, Clone, PartialEq, Eq)]
pub struct LocatedDcsEvent {
    pub start: usize,
    pub end_exclusive: usize,
    pub event: DcsEvent,
}

impl View for LocatedDcsEvent {
    type V = (int, int, DcsEventView);

    open spec fn view(&self) -> (int, int, DcsEventView) {
        (self.start as int, self.end_exclusive as int, self.event@)
    }
}

pub open spec fn located_views(v: Seq<LocatedDcsEvent>) -> Seq<(int, int, DcsEventView)> {
    v.map_values(|l: LocatedDcsEvent| l@)
}

/// Offset just past the terminator whose first byte is at `st`.
pub open spec fn st_end(s: Seq<u8>, st: int) -> int {
    if s[st] == ST_8BIT { st + 1 } else { st + 2 }
}

/// The frames found by scanning `bytes` from `idx`: each `ESC P $ d`
/// introducer whose body is closed by a terminator yields its event (if the
/// body parses); foreign `ESC P` sequences are skipped up to their
/// terminator; a frame without terminator ends the scan.
#[verifier::opaque]
pub open spec fn spec_scan(bytes: Seq<u8>, idx: int) -> Seq<(int, int, DcsEventView)>
    decreases bytes.len() - idx,
{
    if idx < 0 || idx + 4 > bytes.len() {
        Seq::empty()
    } else if bytes[idx] != ESC || bytes[idx + 1] != 0x50 {
        spec_scan(bytes, idx + 1)
    } else if bytes[idx + 2] != 0x24 || bytes[idx + 3] != 0x64 {
        match first_st_from(bytes, idx + 2) {
            Some(st) => spec_scan(bytes, st_end(bytes, st)),
            None => Seq::empty(),
        }
    } else {
        match first_st_from(bytes, idx + 4) {
            Some(be) => {
                let fe = st_end(bytes, be);
                match spec_parse_body(bytes.subrange(idx + 4, be)) {
                    Some(e) => seq![(idx, fe, e)] + spec_scan(bytes, fe),
                    None => spec_scan(bytes, fe),
                }
            },
            None => Seq::empty(),
        }
    }
}

proof fn lemma_first_st_props(s: Seq<u8>, from: int)
    ensures
        first_st_from(s, from) matches Some(i) ==> is_first_st_from(s, from, i),
{
    if exists|i: int| is_first_st_from(s, from, i) {
        let i = choose|i: int| is_first_st_from(s, from, i);
        assert(is_first_st_from(s, from, i));
    }
}

/// Scan a byte slice for `ESC P $ d <hex> ST` frames and return their byte
/// offsets with the parsed events. Foreign DCS sequences and frames whose
/// body does not parse are skipped; an unterminated frame ends the scan.
#[verifier::spinoff_prover]
#[verifier::rlimit(60)]
pub fn scan_dcs_events(bytes: &[u8]) -> (r: Vec<LocatedDcsEvent>)
    ensures
        located_views(r@) == spec_scan(bytes@, 0),
{
    proof {
        reveal(spec_scan);
    }
    let mut out: Vec<LocatedDcsEvent> = Vec::new();
    let n = bytes.len();
    let mut idx: usize = 0;
    while n >= 4 && idx <= n - 4
        invariant
            n == bytes@.len(),
            0 <= idx <= n,
            spec_scan(bytes@, 0) == located_views(out@) + spec_scan(bytes@, idx as int),
        decreases n - idx,
    {
        proof {
            reveal(spec_scan);
        }
        let ghost prev = located_views(out@);
        if bytes[idx] != ESC || bytes[idx + 1] != 0x50 {
            idx = idx + 1;
            continue;
        }
        if bytes[idx + 2] != 0x24 || bytes[idx + 3] != 0x64 {
            match find_st(bytes, idx + 2) {
                Some(st) => {
                    proof { lemma_first_st_props(bytes@, idx + 2); }
                    idx = if bytes[st] == ST_8BIT { st + 1 } else { st + 2 };
                }
                None => {
                    assert(located_views(out@) + Seq::<(int, int, DcsEventView)>::empty() =~= located_views(out@));
                    return out;
                }
            }
            continue;
        }
        let body_start = idx + 4;
        let body_end = match find_st(bytes, body_start) {
            Some(be) => be,
            None => {
                assert(located_views(out@) + Seq::<(int, int, DcsEventView)>::empty() =~= located_views(out@));
                return out;
            }
        };
        proof { lemma_first_st_props(bytes@, body_start as int); }
        let frame_end = if bytes[body_end] == ST_8BIT { body_end + 1 } else { body_end + 2 };
        let body = vstd::slice::slice_subrange(bytes, body_start, body_end);
        match parse_body(body) {
            Some(event) => {
                let item = LocatedDcsEvent { start: idx, end_exclusive: frame_end, event };
                out.push(item);
                proof {
                    assert(located_views(out@) =~= prev.push(item@));
                    assert(prev.push(item@) + spec_scan(bytes@, frame_end as int)
                        =~= prev + (seq![item@] + spec_scan(bytes@, frame_end as int)));
                }
            }
            None => {}
        }
        idx = frame_end;
    }
    assert(located_views(out@) + Seq::<(int, int, DcsEventView)>::empty() =~= located_views(out@));
    out
}

// ---------------------------------------------------------------------------
// Stateful sink driven by a VT parser
// ---------------------------------------------------------------------------

/// The `$ d` DCS family: intermediates exactly `$` and final byte `d`.
pub open spec fn is_our_dcs(intermediates: Seq<u8>, action: char) -> bool {
    action == 'd' && intermediates == seq![0x24u8]
}

/// Event queue fed by a VT parser's DCS callbacks (`hook`, `put`,
/// `unhook`). Only frames of the `$ d` family are collected; their bodies
/// are parsed when the parser reports the terminator.
pub struct DcsSink {
    is_ours: bool,
    buf: Vec<u8>,
    events: VecDeque<DcsEvent>,
}

pub open spec fn event_views(v: Seq<DcsEvent>) -> Seq<DcsEventView> {
    v.map_values(|e: DcsEvent| e@)
}

pub open spec fn opt_event_seq(e: Option<DcsEventView>) -> Seq<DcsEventView> {
    match e {
        Some(x) => seq![x],
        None => Seq::empty(),
    }
}

impl DcsSink {
    /// Queued events, oldest first.
    pub closed spec fn queue(&self) -> Seq<DcsEventView> {
        event_views(self.events@)
    }

    /// Whether a `$ d` frame is being collected.
    pub closed spec fn collecting(&self) -> bool {
        self.is_ours
    }

    /// Body bytes collected for the current frame.
    pub closed spec fn body(&self) -> Seq<u8> {
        self.buf@
    }

    pub fn new() -> (r: DcsSink)
        ensures
            r.queue() == Seq::<DcsEventView>::empty(),
            !r.collecting(),
            r.body() == Seq::<u8>::empty(),
    {
        DcsSink { is_ours: false, buf: Vec::new(), events: VecDeque::new() }
    }

    /// A DCS sequence started with `intermediates` and final byte `action`.
    pub fn hook(&mut self, intermediates: &[u8], action: char)
        ensures
            final(self).collecting() == is_our_dcs(intermediates@, action),
            final(self).body() == Seq::<u8>::empty(),
            final(self).queue() == old(self).queue(),
    {
        self.is_ours = action == 'd' && intermediates.len() == 1 && intermediates[0] == 0x24;
        proof {
            if intermediates@.len() == 1 && intermediates@[0] == 0x24 {
                assert(intermediates@ =~= seq![0x24u8]);
            }
        }
        self.buf.clear();
    }

    /// One byte of the DCS body.
    pub fn put(&mut self, byte: u8)
        ensures
            final(self).collecting() == old(self).collecting(),
            final(self).body() == if old(self).collecting() { old(self).body().push(byte) } else { old(self).body() },
            final(self).queue() == old(self).queue(),
    {
        if self.is_ours {
            self.buf.push(byte);
        }
    }

    /// The DCS sequence ended: a collected body is parsed and, if it
    /// describes an event, queued.
    pub fn unhook(&mut self)
        ensures
            !final(self).collecting(),
            final(self).queue() == if old(self).collecting() {
                old(self).queue() + opt_event_seq(spec_parse_body(old(self).body()))
            } else {
                old(self).queue()
            },
    {
        if !self.is_ours {
            return;
        }
        self.is_ours = false;
        let ghost q = event_views(self.events@);
        match parse_body(self.buf.as_slice()) {
            Some(event) => {
                self.events.push_back(event);
                assert(event_views(self.events@) =~= q + seq![event@]);
            }
            None => {
                assert(q + Seq::<DcsEventView>::empty() =~= q);
            }
        }
    }

    /// Take the oldest queued event.
    pub fn pop(&mut self) -> (r: Option<DcsEvent>)
        ensures
            old(self).queue().len() == 0 ==> r is None && final(self).queue() == old(self).queue(),
            old(self).queue().len() > 0 ==> (r matches Some(e) && e@ == old(self).queue()[0]),
            old(self).queue().len() > 0 ==> final(self).queue() == old(self).queue().drop_first(),
            final(self).collecting() == old(self).collecting(),
            final(self).body() == old(self).body(),
    {
        let r = self.events.pop_front();
        proof {
            if old(self).events@.len() > 0 {
                assert(event_views(self.events@) =~= event_views(old(self).events@).drop_first());
            }
        }
        r
    }

    /// Number of queued events.
    pub fn pending(&self) -> (n: usize)
        ensures
            n == self.queue().len(),
    {
        self.events.len()
    }

    /// Drop every queued event.
    pub fn clear(&mut self)
        ensures
            final(self).queue() == Seq::<DcsEventView>::empty(),
            final(self).collecting() == old(self).collecting(),
            final(self).body() == old(self).body(),
    {
        self.events.clear();
        assert(event_views(self.events@) =~= Seq::<DcsEventView>::empty());
    }

    /// Copies of the queued events at index `start` and later.
    pub fn events_from(&self, start: usize) -> (r: Vec<DcsEvent>)
        ensures
            event_views(r@) == self.queue().subrange(
                if start <= self.queue().len() { start as int } else { self.queue().len() as int },
                self.queue().len() as int),
    {
        let n = self.events.len();
        let mut i = if start <= n { start } else { n };
        let ghost first = i;
        let mut out: Vec<DcsEvent> = Vec::new();
        while i < n
            invariant
                n == self.events@.len(),
                first <= i <= n,
                event_views(out@) == event_views(self.events@).subrange(first as int, i as int),
            decreases n - i,
        {
            let ghost before = out@;
            let e = self.events[i].duplicate();
            assert(e@ == self.events@[i as int]@);
            out.push(e);
            assert(out@ == before.push(e));
            i = i + 1;
            assert(event_views(out@) =~= event_views(before).push(e@));
            assert(event_views(self.events@).subrange(first as int, i as int)
                =~= event_views(self.events@).subrange(first as int, i - 1).push(event_views(self.events@)[i - 1]));
            assert(event_views(out@) =~= event_views(self.events@).subrange(first as int, i as int));
        }
        out
    }
}

/// Where a frame completed by the byte at `i` really ends: a 7-bit
/// terminator `ESC \` is reported when its `ESC` arrives, so the trailing
/// backslash belongs to the frame too.
pub fn completed_frame_end(bytes: &[u8], i: usize) -> (end: usize)
    requires
        i < bytes@.len(),
    ensures
        end == if bytes@[i as int] == ESC && i + 1 < bytes@.len() && bytes@[i + 1] == BACKSLASH {
            i + 2
        } else {
            i + 1
        },
{
    if bytes[i] == ESC && i + 1 < bytes.len() && bytes[i + 1] == BACKSLASH {
        i + 2
    } else {
        i + 1
    }
}

/// Where scanning resumes after the byte at `i` went to the parser, which
/// had `before` events queued and now has `after`: with new events, just
/// past their frame's end (the parser must then also be fed the `\` of a
/// 7-bit terminator, flagged by the second field), else at the next byte.
/// The third field says whether events completed.
pub fn located_step(bytes: &[u8], i: usize, before: usize, after: usize) -> (r: (usize, bool, bool))
    requires
        i < bytes@.len(),
    ensures
        r.2 == (after > before),
        after > before ==> r.0 == (if bytes@[i as int] == ESC && i + 1 < bytes@.len() && bytes@[i + 1]
            == BACKSLASH {
            i + 2
        } else {
            i + 1
        }) && r.1 == (r.0 == i + 2),
        after <= before ==> r.0 == i + 1 && !r.1,
{
    let _n = bytes.len();
    if after > before {
        let end = completed_frame_end(bytes, i);
        (end, end - i == 2, true)
    } else {
        (i + 1, false, false)
    }
}

} // verus!
