//! Argument and sidecar parsing of the offline renderer: `WxH` sizes and
//! the tiny value extractors of the `.meta.json` rendering context.

use vstd::prelude::*;
use vstd::string::StringSliceAdditionalSpecFns;
use crate::bytes::{push_range, string_from_utf8, utf8_text};
use crate::dcs::opt_string_view;
use crate::text::{find_bytes, find_from, parse_unsigned, spec_parse_unsigned, spec_trim, strip_quotes,
    strip_quotes_bounds, trim_bounds};

verus! {

pub fn sub_bytes(s: &[u8], from: usize, to: usize) -> (r: Vec<u8>)
    requires
        from <= to <= s@.len(),
    ensures
        r@ == s@.subrange(from as int, to as int),
{
    let mut v: Vec<u8> = Vec::new();
    push_range(&mut v, s, from, to);
    assert(v@ =~= s@.subrange(from as int, to as int));
    v
}

/// `x`
pub open spec fn x_sep() -> Seq<u8> {
    seq![0x78u8]
}

/// `WxH` with `str::split('x')`: the first two `x`-separated fields, each
/// an unsigned decimal; fields after the second are ignored.
pub open spec fn spec_parse_dims(s: Seq<u8>) -> Option<(u32, u32)> {
    match find_from(s, x_sep(), 0) {
        None => None,
        Some(i) => {
            let end = match find_from(s, x_sep(), i + 1) {
                Some(j) => j,
                None => s.len() as int,
            };
            match spec_parse_unsigned(s.subrange(0, i), u32::MAX as nat) {
                Some(w) => match spec_parse_unsigned(s.subrange(i + 1, end), u32::MAX as nat) {
                    Some(h) => Some((w as u32, h as u32)),
                    None => None,
                },
                None => None,
            }
        },
    }
}

/// Parse `WxH` (see [`spec_parse_dims`]).
pub fn parse_dims(s: &str) -> (r: Option<(u32, u32)>)
    ensures
        r == spec_parse_dims(s.spec_bytes()),
{
    let b = s.as_bytes();
    let n = b.len();
    let x: [u8; 1] = [0x78];
    assert(x@ =~= x_sep());
    let i = match find_bytes(b, x.as_slice(), 0) {
        Some(i) => i,
        None => return None,
    };
    let end = match find_bytes(b, x.as_slice(), i + 1) {
        Some(j) => j,
        None => b.len(),
    };
    proof {
        lemma_find_from_bounds(b@, x_sep(), i + 1);
    }
    let w = match parse_unsigned(sub_bytes(b, 0, i).as_slice(), 0xFFFF_FFFF) {
        Some(w) => w,
        None => return None,
    };
    let h = match parse_unsigned(sub_bytes(b, i + 1, end).as_slice(), 0xFFFF_FFFF) {
        Some(h) => h,
        None => return None,
    };
    Some((w as u32, h as u32))
}

// ---------------------------------------------------------------------------
// Sidecar value extractors
// ---------------------------------------------------------------------------

/// Byte length of the UTF-8 character that `s` starts with (its lead byte).
pub open spec fn first_char_len(s: Seq<u8>) -> int {
    if s.len() == 0 {
        0
    } else if s[0] < 0x80 {
        1
    } else if s[0] < 0xE0 {
        2
    } else if s[0] < 0xF0 {
        3
    } else {
        4
    }
}

/// `s.split(key).nth(1)`: the text between the first and the second
/// occurrence of `key` (or the end). With an empty key the pieces are the
/// characters, so it is the first character.
pub open spec fn after_key(s: Seq<u8>, key: Seq<u8>) -> Option<Seq<u8>> {
    if key.len() == 0 {
        let k = first_char_len(s);
        Some(s.subrange(0, if k <= s.len() { k } else { s.len() as int }))
    } else {
        match find_from(s, key, 0) {
            None => None,
            Some(p) => {
                let st = p + key.len();
                let e = match find_from(s, key, st) {
                    Some(q) => q,
                    None => s.len() as int,
                };
                Some(s.subrange(st, e))
            },
        }
    }
}

/// Index of the first byte of `s` at or after `i` that is in `stops`, or
/// the length.
pub open spec fn stop_at(s: Seq<u8>, i: int, stops: Seq<u8>) -> int
    decreases s.len() - i,
{
    if i < 0 || i >= s.len() {
        s.len() as int
    } else if stops.contains(s[i]) {
        i
    } else {
        stop_at(s, i + 1, stops)
    }
}

/// The text before the first `,`.
pub open spec fn first_field(s: Seq<u8>) -> Seq<u8> {
    s.subrange(0, stop_at(s, 0, seq![0x2Cu8]))
}

fn after_key_exec(s: &[u8], key: &[u8]) -> (r: Option<Vec<u8>>)
    ensures
        match r {
            Some(v) => after_key(s@, key@) == Some(v@),
            None => after_key(s@, key@) is None,
        },
{
    let n = s.len();
    if key.len() == 0 {
        let k: usize = if n == 0 {
            0
        } else if s[0] < 0x80 {
            1
        } else if s[0] < 0xE0 {
            2
        } else if s[0] < 0xF0 {
            3
        } else {
            4
        };
        let e = if k <= n { k } else { n };
        return Some(sub_bytes(s, 0, e));
    }
    let p = match find_bytes(s, key, 0) {
        Some(p) => p,
        None => return None,
    };
    let st = p + key.len();
    let e = match find_bytes(s, key, st) {
        Some(q) => q,
        None => n,
    };
    proof {
        match find_from(s@, key@, st as int) {
            Some(q) => {
                lemma_find_from_bounds(s@, key@, st as int);
            },
            None => {},
        }
    }
    Some(sub_bytes(s, st, e))
}

/// A match found from `i` lies at or after `i` and inside the haystack.
pub proof fn lemma_find_from_bounds(h: Seq<u8>, needle: Seq<u8>, i: int)
    ensures
        find_from(h, needle, i) matches Some(q) ==> i <= q && q + needle.len() <= h.len(),
    decreases h.len() + 1 - i,
{
    if i >= 0 && i + needle.len() <= h.len() && h.subrange(i, i + needle.len()) != needle {
        lemma_find_from_bounds(h, needle, i + 1);
    }
}

fn stop_at_exec(s: &[u8], i: usize, stops: &[u8]) -> (r: usize)
    requires
        i <= s@.len(),
    ensures
        r == stop_at(s@, i as int, stops@),
        i <= r <= s@.len(),
{
    let n = s.len();
    let mut j = i;
    while j < n
        invariant
            i <= j <= n == s@.len(),
            stop_at(s@, i as int, stops@) == stop_at(s@, j as int, stops@),
        decreases n - j,
    {
        let b = s[j];
        let mut k: usize = 0;
        let mut hit = false;
        while k < stops.len()
            invariant
                k <= stops@.len(),
                hit == exists|t: int| 0 <= t < k && stops@[t] == b,
            decreases stops@.len() - k,
        {
            if stops[k] == b {
                hit = true;
            }
            k = k + 1;
        }
        if hit {
            assert(stops@.contains(b));
            return j;
        }
        assert(!stops@.contains(b));
        j = j + 1;
    }
    j
}

/// `s.split(key).nth(1)?.split(',').next()?.trim().parse::<u32>()`.
pub open spec fn spec_extract_u32(s: Seq<u8>, key: Seq<u8>) -> Option<u32> {
    match after_key(s, key) {
        None => None,
        Some(seg) => match spec_parse_unsigned(spec_trim(first_field(seg)), u32::MAX as nat) {
            Some(v) => Some(v as u32),
            None => None,
        },
    }
}

fn trimmed_field(seg: &[u8], from: usize, stops: &[u8]) -> (r: Vec<u8>)
    requires
        from <= seg@.len(),
    ensures
        r@ == spec_trim(seg@.subrange(from as int, stop_at(seg@, from as int, stops@))),
{
    let e = stop_at_exec(seg, from, stops);
    let f = sub_bytes(seg, from, e);
    let (a, b) = trim_bounds(f.as_slice());
    sub_bytes(f.as_slice(), a, b)
}

/// The first comma-separated field after `key`, as a `u32`.
pub fn extract_u32(s: &str, key: &str) -> (r: Option<u32>)
    ensures
        r == spec_extract_u32(s.spec_bytes(), key.spec_bytes()),
{
    let seg = match after_key_exec(s.as_bytes(), key.as_bytes()) {
        Some(seg) => seg,
        None => return None,
    };
    let comma: [u8; 1] = [0x2C];
    assert(comma@ =~= seq![0x2Cu8]);
    let f = trimmed_field(seg.as_slice(), 0, comma.as_slice());
    assert(seg@.subrange(0, stop_at(seg@, 0, seq![0x2Cu8])) == first_field(seg@));
    match parse_unsigned(f.as_slice(), 0xFFFF_FFFF) {
        Some(v) => Some(v as u32),
        None => None,
    }
}

/// The leading ASCII digits of `s`.
pub open spec fn digit_prefix(s: Seq<u8>) -> Seq<u8> {
    s.subrange(0, stop_at_non_digit(s, 0))
}

pub open spec fn stop_at_non_digit(s: Seq<u8>, i: int) -> int
    decreases s.len() - i,
{
    if i < 0 || i >= s.len() {
        s.len() as int
    } else if !(0x30 <= s[i] <= 0x39) {
        i
    } else {
        stop_at_non_digit(s, i + 1)
    }
}

/// `s.split(key).nth(1)?.split(',').nth(1)?.trim()`, cut at its first
/// non-digit, as a `u32`.
pub open spec fn spec_extract_u32_after_comma(s: Seq<u8>, key: Seq<u8>) -> Option<u32> {
    match after_key(s, key) {
        None => None,
        Some(seg) => {
            let c1 = stop_at(seg, 0, seq![0x2Cu8]);
            if c1 >= seg.len() {
                None
            } else {
                let f = spec_trim(seg.subrange(c1 + 1, stop_at(seg, c1 + 1, seq![0x2Cu8])));
                match spec_parse_unsigned(digit_prefix(f), u32::MAX as nat) {
                    Some(v) => Some(v as u32),
                    None => None,
                }
            }
        },
    }
}

/// The second comma-separated field after `key`, its leading digits as a `u32`.
pub fn extract_u32_after_comma(s: &str, key: &str) -> (r: Option<u32>)
    ensures
        r == spec_extract_u32_after_comma(s.spec_bytes(), key.spec_bytes()),
{
    let seg = match after_key_exec(s.as_bytes(), key.as_bytes()) {
        Some(seg) => seg,
        None => return None,
    };
    let comma: [u8; 1] = [0x2C];
    assert(comma@ =~= seq![0x2Cu8]);
    let c1 = stop_at_exec(seg.as_slice(), 0, comma.as_slice());
    if c1 >= seg.len() {
        return None;
    }
    let f = trimmed_field(seg.as_slice(), c1 + 1, comma.as_slice());
    let n = f.len();
    let mut k: usize = 0;
    while k < n && f[k] >= 0x30 && f[k] <= 0x39
        invariant
            k <= n == f@.len(),
            stop_at_non_digit(f@, 0) == stop_at_non_digit(f@, k as int),
        decreases n - k,
    {
        k = k + 1;
    }
    let d = sub_bytes(f.as_slice(), 0, k);
    match parse_unsigned(d.as_slice(), 0xFFFF_FFFF) {
        Some(v) => Some(v as u32),
        None => None,
    }
}

/// `null`
pub open spec fn null_word() -> Seq<u8> {
    seq![0x6Eu8, 0x75, 0x6C, 0x6C]
}

/// The first comma-separated field after `key`: `None` for `null`,
/// otherwise a `u16`.
pub open spec fn spec_extract_optional_u16(s: Seq<u8>, key: Seq<u8>) -> Option<u16> {
    match after_key(s, key) {
        None => None,
        Some(seg) => {
            let v = spec_trim(first_field(seg));
            if v == null_word() {
                None
            } else {
                match spec_parse_unsigned(v, u16::MAX as nat) {
                    Some(x) => Some(x as u16),
                    None => None,
                }
            }
        },
    }
}

fn is_null_word(v: &[u8]) -> (r: bool)
    ensures
        r == (v@ == null_word()),
{
    let r = v.len() == 4 && v[0] == 0x6E && v[1] == 0x75 && v[2] == 0x6C && v[3] == 0x6C;
    proof {
        if r {
            assert(v@ =~= null_word());
        }
    }
    r
}

/// The first comma-separated field after `key`, as an optional `u16`.
pub fn extract_optional_u16(s: &str, key: &str) -> (r: Option<u16>)
    ensures
        r == spec_extract_optional_u16(s.spec_bytes(), key.spec_bytes()),
{
    let seg = match after_key_exec(s.as_bytes(), key.as_bytes()) {
        Some(seg) => seg,
        None => return None,
    };
    let comma: [u8; 1] = [0x2C];
    assert(comma@ =~= seq![0x2Cu8]);
    let v = trimmed_field(seg.as_slice(), 0, comma.as_slice());
    assert(seg@.subrange(0, stop_at(seg@, 0, seq![0x2Cu8])) == first_field(seg@));
    if is_null_word(v.as_slice()) {
        return None;
    }
    match parse_unsigned(v.as_slice(), 0xFFFF) {
        Some(x) => Some(x as u16),
        None => None,
    }
}

/// The text after `key` up to `,`, a line feed or `}`, trimmed: `None` for
/// `null`, otherwise without its quotes, as UTF-8 text.
pub open spec fn spec_extract_optional_string(s: Seq<u8>, key: Seq<u8>) -> Option<Seq<char>> {
    match after_key(s, key) {
        None => None,
        Some(seg) => {
            let v = spec_trim(seg.subrange(0, stop_at(seg, 0, seq![0x2Cu8, 0x0A, 0x7D])));
            if v == null_word() { None } else { utf8_text(Some(strip_quotes(v))) }
        },
    }
}

/// The optional string value after `key`.
pub fn extract_optional_string(s: &str, key: &str) -> (r: Option<String>)
    ensures
        opt_string_view(r) == spec_extract_optional_string(s.spec_bytes(), key.spec_bytes()),
{
    let seg = match after_key_exec(s.as_bytes(), key.as_bytes()) {
        Some(seg) => seg,
        None => return None,
    };
    let stops: [u8; 3] = [0x2C, 0x0A, 0x7D];
    assert(stops@ =~= seq![0x2Cu8, 0x0A, 0x7D]);
    let v = trimmed_field(seg.as_slice(), 0, stops.as_slice());
    if is_null_word(v.as_slice()) {
        return None;
    }
    let (a, b) = strip_quotes_bounds(v.as_slice(), 0, v.len());
    assert(v@.subrange(0, v@.len() as int) =~= v@);
    string_from_utf8(sub_bytes(v.as_slice(), a, b))
}

} // verus!
