//! Text helpers on UTF-8 bytes: white-space trimming as `str::trim` does it.

use vstd::prelude::*;
use vstd::utf8::valid_utf8;

verus! {

/// Whether `bytes` is well-formed UTF-8 (`std::str::from_utf8` succeeds).
#[verifier::external_body]
pub fn utf8_valid(bytes: &[u8]) -> (r: bool)
    ensures
        r == valid_utf8(bytes@),
{
    std::str::from_utf8(bytes).is_ok()
}

// ---------------------------------------------------------------------------
// Trimming (`str::trim` on UTF-8 bytes)
// ---------------------------------------------------------------------------

pub open spec fn is_ascii_ws(b: u8) -> bool {
    (0x09 <= b <= 0x0D) || b == 0x20
}

/// The three-byte encodings of Unicode white space: U+1680, U+2000..U+200A,
/// U+2028, U+2029, U+202F, U+205F, U+3000.
pub open spec fn is_ws3(a: u8, b: u8, c: u8) -> bool {
    ||| (a == 0xE1 && b == 0x9A && c == 0x80)
    ||| (a == 0xE2 && b == 0x80 && ((0x80 <= c <= 0x8A) || c == 0xA8 || c == 0xA9 || c == 0xAF))
    ||| (a == 0xE2 && b == 0x81 && c == 0x9F)
    ||| (a == 0xE3 && b == 0x80 && c == 0x80)
}

/// The two-byte encodings of Unicode white space: U+0085, U+00A0.
pub open spec fn is_ws2(a: u8, b: u8) -> bool {
    a == 0xC2 && (b == 0x85 || b == 0xA0)
}

/// Byte length of the white-space character that `s` starts with (0: none).
pub open spec fn ws_len_at_start(s: Seq<u8>) -> int {
    if s.len() >= 1 && is_ascii_ws(s[0]) {
        1
    } else if s.len() >= 2 && is_ws2(s[0], s[1]) {
        2
    } else if s.len() >= 3 && is_ws3(s[0], s[1], s[2]) {
        3
    } else {
        0
    }
}

/// Byte length of the white-space character that `s` ends with (0: none).
pub open spec fn ws_len_at_end(s: Seq<u8>) -> int {
    let n = s.len() as int;
    if n >= 1 && is_ascii_ws(s[n - 1]) {
        1
    } else if n >= 2 && is_ws2(s[n - 2], s[n - 1]) {
        2
    } else if n >= 3 && is_ws3(s[n - 3], s[n - 2], s[n - 1]) {
        3
    } else {
        0
    }
}

pub open spec fn trim_start(s: Seq<u8>) -> Seq<u8>
    decreases s.len(),
{
    let k = ws_len_at_start(s);
    if k > 0 { trim_start(s.subrange(k, s.len() as int)) } else { s }
}

pub open spec fn trim_end(s: Seq<u8>) -> Seq<u8>
    decreases s.len(),
{
    let k = ws_len_at_end(s);
    if k > 0 { trim_end(s.subrange(0, s.len() - k)) } else { s }
}

/// `s` without leading and trailing white space (`str::trim`).
pub open spec fn spec_trim(s: Seq<u8>) -> Seq<u8> {
    trim_end(trim_start(s))
}

pub fn ws_start(s: &[u8], i: usize) -> (k: usize)
    requires
        i <= s@.len(),
    ensures
        k == ws_len_at_start(s@.subrange(i as int, s@.len() as int)),
{
    let ghost t = s@.subrange(i as int, s@.len() as int);
    let n = s.len();
    if i < n && ((0x09 <= s[i] && s[i] <= 0x0D) || s[i] == 0x20) {
        1
    } else if n - i >= 2 && s[i] == 0xC2 && (s[i + 1] == 0x85 || s[i + 1] == 0xA0) {
        2
    } else if n - i >= 3 && ((s[i] == 0xE1 && s[i + 1] == 0x9A && s[i + 2] == 0x80) || (s[i] == 0xE2
        && s[i + 1] == 0x80 && ((0x80 <= s[i + 2] && s[i + 2] <= 0x8A) || s[i + 2] == 0xA8 || s[i + 2]
        == 0xA9 || s[i + 2] == 0xAF)) || (s[i] == 0xE2 && s[i + 1] == 0x81 && s[i + 2] == 0x9F) || (s[i]
        == 0xE3 && s[i + 1] == 0x80 && s[i + 2] == 0x80)) {
        3
    } else {
        0
    }
}

fn ws_end(s: &[u8], i: usize, j: usize) -> (k: usize)
    requires
        i <= j <= s@.len(),
    ensures
        k == ws_len_at_end(s@.subrange(i as int, j as int)),
        k <= j - i,
{
    let ghost t = s@.subrange(i as int, j as int);
    let m = j - i;
    if m >= 1 && ((0x09 <= s[j - 1] && s[j - 1] <= 0x0D) || s[j - 1] == 0x20) {
        1
    } else if m >= 2 && s[j - 2] == 0xC2 && (s[j - 1] == 0x85 || s[j - 1] == 0xA0) {
        2
    } else if m >= 3 && ((s[j - 3] == 0xE1 && s[j - 2] == 0x9A && s[j - 1] == 0x80) || (s[j - 3] == 0xE2
        && s[j - 2] == 0x80 && ((0x80 <= s[j - 1] && s[j - 1] <= 0x8A) || s[j - 1] == 0xA8 || s[j - 1]
        == 0xA9 || s[j - 1] == 0xAF)) || (s[j - 3] == 0xE2 && s[j - 2] == 0x81 && s[j - 1] == 0x9F) || (s[j
        - 3] == 0xE3 && s[j - 2] == 0x80 && s[j - 1] == 0x80)) {
        3
    } else {
        0
    }
}

/// Bounds `(i, j)` of `s` without leading and trailing white space.
pub fn trim_bounds(s: &[u8]) -> (r: (usize, usize))
    ensures
        r.0 <= r.1 <= s@.len(),
        s@.subrange(r.0 as int, r.1 as int) == spec_trim(s@),
{
    let line = s;
    let n = line.len();
    let mut i: usize = 0;
    assert(line@.subrange(0, n as int) =~= line@);
    while i < n
        invariant
            i <= n == line@.len(),
            trim_start(line@.subrange(i as int, n as int)) == trim_start(line@),
        ensures
            i <= n,
            trim_start(line@.subrange(i as int, n as int)) == trim_start(line@),
            i == n || ws_len_at_start(line@.subrange(i as int, n as int)) == 0,
        decreases n - i,
    {
        let k = ws_start(line, i);
        if k == 0 {
            break;
        }
        assert(line@.subrange(i as int, n as int).subrange(k as int, (n - i) as int)
            =~= line@.subrange(i + k, n as int));
        i = i + k;
    }
    let ghost ts = line@.subrange(i as int, n as int);
    assert(trim_start(line@) == ts) by {
        if i == n {
            assert(ts.len() == 0);
        }
    }
    let mut j: usize = n;
    assert(ts =~= line@.subrange(i as int, j as int));
    while j > i
        invariant
            i <= j <= n == line@.len(),
            trim_end(line@.subrange(i as int, j as int)) == trim_end(ts),
        ensures
            i <= j <= n,
            trim_end(line@.subrange(i as int, j as int)) == trim_end(ts),
            j == i || ws_len_at_end(line@.subrange(i as int, j as int)) == 0,
        decreases j - i,
    {
        let k = ws_end(line, i, j);
        if k == 0 {
            break;
        }
        assert(line@.subrange(i as int, j as int).subrange(0, (j - i - k) as int)
            =~= line@.subrange(i as int, (j - k) as int));
        j = j - k;
    }
    assert(trim_end(ts) == line@.subrange(i as int, j as int)) by {
        if j == i {
            assert(line@.subrange(i as int, j as int).len() == 0);
        }
    }
    (i, j)
}

// ---------------------------------------------------------------------------
// Unsigned decimals (`str::parse` for unsigned integers)
// ---------------------------------------------------------------------------

pub open spec fn is_dec_digit(b: u8) -> bool {
    0x30 <= b <= 0x39
}

pub open spec fn all_dec_digits(d: Seq<u8>) -> bool {
    forall|k: int| 0 <= k < d.len() ==> is_dec_digit(#[trigger] d[k])
}

/// Value of a run of ASCII decimal digits.
pub open spec fn dec_value(d: Seq<u8>) -> nat
    decreases d.len(),
{
    if d.len() == 0 { 0 } else { dec_value(d.drop_last()) * 10 + (d.last() - 0x30) as nat }
}

/// Unsigned decimal syntax: an optional `+`, then one or more ASCII digits,
/// with a value at most `max`.
pub open spec fn spec_parse_unsigned(s: Seq<u8>, max: nat) -> Option<nat> {
    let d = if s.len() > 0 && s[0] == 0x2B { s.drop_first() } else { s };
    if d.len() == 0 || !all_dec_digits(d) || dec_value(d) > max { None } else { Some(dec_value(d)) }
}

proof fn lemma_dec_push(d: Seq<u8>, b: u8)
    ensures
        dec_value(d.push(b)) == dec_value(d) * 10 + (b - 0x30) as nat,
{
    assert(d.push(b).drop_last() =~= d);
}

/// Parse an unsigned decimal no larger than `max` (see [`spec_parse_unsigned`]).
pub fn parse_unsigned(s: &[u8], max: u64) -> (r: Option<u64>)
    requires
        max <= u32::MAX,
    ensures
        match r {
            Some(v) => spec_parse_unsigned(s@, max as nat) == Some(v as nat),
            None => spec_parse_unsigned(s@, max as nat) is None,
        },
{
    let n = s.len();
    let start: usize = if n > 0 && s[0] == 0x2B { 1 } else { 0 };
    let ghost d = if s@.len() > 0 && s@[0] == 0x2B { s@.drop_first() } else { s@ };
    assert(d =~= s@.subrange(start as int, n as int));
    if start == n {
        assert(d.len() == 0);
        return None;
    }
    let mut v: u64 = 0;
    let mut i = start;
    while i < n
        invariant
            start <= i <= n == s@.len(),
            max <= u32::MAX,
            d == s@.subrange(start as int, n as int),
            d == (if s@.len() > 0 && s@[0] == 0x2B { s@.drop_first() } else { s@ }),
            forall|k: int| start <= k < i ==> is_dec_digit(#[trigger] s@[k]),
            v <= max as u64 * 10 + 9,
            v <= max ==> v == dec_value(s@.subrange(start as int, i as int)),
            v > max ==> dec_value(s@.subrange(start as int, i as int)) > max,
        decreases n - i,
    {
        let b = s[i];
        if b < 0x30 || b > 0x39 {
            assert(!all_dec_digits(d)) by {
                assert(d[i - start] == b);
            }
            return None;
        }
        proof {
            assert(s@.subrange(start as int, i + 1) =~= s@.subrange(start as int, i as int).push(b));
            lemma_dec_push(s@.subrange(start as int, i as int), b);
        }
        if v <= max {
            v = v * 10 + (b - 0x30) as u64;
        } else {
            v = max + 1;
        }
        i = i + 1;
    }
    assert(all_dec_digits(d)) by {
        assert forall|k: int| 0 <= k < d.len() implies is_dec_digit(#[trigger] d[k]) by {
            assert(d[k] == s@[start + k]);
        }
    }
    if v <= max { Some(v) } else { None }
}

/// First index at or after `i` where `needle` occurs in `h`.
pub open spec fn find_from(h: Seq<u8>, needle: Seq<u8>, i: int) -> Option<int>
    decreases h.len() + 1 - i,
{
    if i < 0 || i + needle.len() > h.len() {
        None
    } else if h.subrange(i, i + needle.len()) == needle {
        Some(i)
    } else {
        find_from(h, needle, i + 1)
    }
}

/// Whether `needle` occurs in `h` at `i`.
pub fn matches_at(h: &[u8], i: usize, needle: &[u8]) -> (r: bool)
    requires
        i + needle@.len() <= h@.len(),
    ensures
        r == (h@.subrange(i as int, i + needle@.len()) == needle@),
{
    let hn = h.len();
    let mut k: usize = 0;
    while k < needle.len()
        invariant
            hn == h@.len(),
            k <= needle@.len(),
            i + needle@.len() <= h@.len(),
            forall|t: int| 0 <= t < k ==> h@[i + t] == needle@[t],
        decreases needle@.len() - k,
    {
        if h[i + k] != needle[k] {
            assert(h@.subrange(i as int, i + needle@.len())[k as int] != needle@[k as int]);
            return false;
        }
        k = k + 1;
    }
    assert(h@.subrange(i as int, i + needle@.len()) =~= needle@);
    true
}

/// First occurrence of `needle` in `h` at or after `from` (`str::find`).
pub fn find_bytes(h: &[u8], needle: &[u8], from: usize) -> (r: Option<usize>)
    ensures
        match r {
            Some(i) => find_from(h@, needle@, from as int) == Some(i as int) && i + needle@.len() <= h@.len(),
            None => find_from(h@, needle@, from as int) is None,
        },
{
    let n = h.len();
    let m = needle.len();
    if m > n {
        return None;
    }
    if m == 0 {
        if from <= n {
            assert(h@.subrange(from as int, from as int) =~= needle@);
            return Some(from);
        }
        return None;
    }
    let mut i = from;
    while i <= n - m
        invariant
            n == h@.len(),
            m == needle@.len(),
            0 < m <= n,
            from <= i,
            find_from(h@, needle@, from as int) == find_from(h@, needle@, i as int),
        decreases n - i,
    {
        if matches_at(h, i, needle) {
            return Some(i);
        }
        i = i + 1;
    }
    None
}

/// `s` without leading and trailing `"` (`trim_matches('"')`).
pub open spec fn strip_quotes(s: Seq<u8>) -> Seq<u8>
    decreases s.len(),
{
    if s.len() > 0 && s[0] == 0x22 {
        strip_quotes(s.drop_first())
    } else if s.len() > 0 && s.last() == 0x22 {
        strip_quotes(s.drop_last())
    } else {
        s
    }
}

pub fn strip_quotes_bounds(s: &[u8], from: usize, to: usize) -> (r: (usize, usize))
    requires
        from <= to <= s@.len(),
    ensures
        from <= r.0 <= r.1 <= to,
        s@.subrange(r.0 as int, r.1 as int) == strip_quotes(s@.subrange(from as int, to as int)),
{
    let mut i = from;
    let mut j = to;
    while i < j && (s[i] == 0x22 || s[j - 1] == 0x22)
        invariant
            from <= i <= j <= to <= s@.len(),
            strip_quotes(s@.subrange(i as int, j as int)) == strip_quotes(s@.subrange(from as int, to as int)),
        decreases j - i,
    {
        if s[i] == 0x22 {
            assert(s@.subrange(i as int, j as int).drop_first() =~= s@.subrange(i + 1, j as int));
            i = i + 1;
        } else {
            assert(s@.subrange(i as int, j as int).drop_last() =~= s@.subrange(i as int, j - 1));
            j = j - 1;
        }
    }
    (i, j)
}

} // verus!
