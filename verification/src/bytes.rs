//! Small byte-level helpers shared by the wire-format parsers.

use vstd::prelude::*;
use vstd::utf8::*;

verus! {

/// Byte equality of two slices.
pub fn bytes_eq(a: &[u8], b: &[u8]) -> (r: bool)
    ensures
        r == (a@ == b@),
{
    if a.len() != b.len() {
        return false;
    }
    let mut i: usize = 0;
    while i < a.len()
        invariant
            a@.len() == b@.len(),
            0 <= i <= a@.len(),
            forall|j: int| 0 <= j < i ==> a@[j] == b@[j],
        decreases a@.len() - i,
    {
        if a[i] != b[i] {
            return false;
        }
        i = i + 1;
    }
    assert(a@ =~= b@);
    true
}

/// Decode a byte buffer as UTF-8 (`String::from_utf8`).
#[verifier::external_body]
pub fn string_from_utf8(bytes: Vec<u8>) -> (r: Option<String>)
    ensures
        r is Some <==> valid_utf8(bytes@),
        r matches Some(s) ==> s@ == decode_utf8(bytes@),
{
    String::from_utf8(bytes).ok()
}

/// The text that a UTF-8 decode of `b` yields, when `b` is present and
/// well formed.
pub open spec fn utf8_text(b: Option<Seq<u8>>) -> Option<Seq<char>> {
    match b {
        Some(x) => if valid_utf8(x) { Some(decode_utf8(x)) } else { None },
        None => None,
    }
}

/// ASCII decimal digits of `n` (no leading zeros; `0` is `"0"`).
pub open spec fn dec_digits(n: nat) -> Seq<u8>
    decreases n,
{
    if n < 10 {
        seq![(0x30 + n) as u8]
    } else {
        dec_digits(n / 10).push((0x30 + n % 10) as u8)
    }
}

/// ASCII decimal form of a signed integer, with a leading `-` when negative.
pub open spec fn dec_signed(n: int) -> Seq<u8> {
    if n < 0 {
        seq![0x2Du8] + dec_digits((-n) as nat)
    } else {
        dec_digits(n as nat)
    }
}

/// Append the decimal digits of `n` to `out`.
pub fn push_decimal(out: &mut Vec<u8>, n: u64)
    ensures
        final(out)@ == old(out)@ + dec_digits(n as nat),
    decreases n,
{
    if n < 10 {
        out.push(0x30 + n as u8);
        assert(dec_digits(n as nat) =~= seq![(0x30 + n) as u8]);
    } else {
        let ghost before = out@;
        push_decimal(out, n / 10);
        out.push(0x30 + (n % 10) as u8);
        assert(out@ =~= before + dec_digits(n as nat));
    }
}

/// Append the decimal digits of `n + 1` to `out`.
pub fn push_decimal_succ(out: &mut Vec<u8>, n: u64)
    ensures
        final(out)@ == old(out)@ + dec_digits(n as nat + 1),
{
    if n < u64::MAX {
        push_decimal(out, n + 1);
    } else {
        let digits: [u8; 20] = [0x31, 0x38, 0x34, 0x34, 0x36, 0x37, 0x34, 0x34, 0x30, 0x37, 0x33, 0x37, 0x30,
            0x39, 0x35, 0x35, 0x31, 0x36, 0x31, 0x36];
        assert(dec_digits(18446744073709551616nat) == seq![0x31u8, 0x38, 0x34, 0x34, 0x36, 0x37, 0x34, 0x34,
            0x30, 0x37, 0x33, 0x37, 0x30, 0x39, 0x35, 0x35, 0x31, 0x36, 0x31, 0x36]) by {
            reveal_with_fuel(dec_digits, 21);
        }
        assert(digits@ =~= dec_digits(n as nat + 1));
        push_all(out, digits.as_slice());
    }
}

/// Append the signed decimal form of `n` to `out`.
pub fn push_signed_decimal(out: &mut Vec<u8>, n: i64)
    ensures
        final(out)@ == old(out)@ + dec_signed(n as int),
{
    let ghost before = out@;
    if n < 0 {
        out.push(0x2D);
        let mag: u64 = if n == i64::MIN { 9223372036854775808u64 } else { (-n) as u64 };
        push_decimal(out, mag);
        assert(out@ =~= before + dec_signed(n as int));
    } else {
        push_decimal(out, n as u64);
    }
}

/// Append `src[from..to]` to `out`.
pub fn push_range(out: &mut Vec<u8>, src: &[u8], from: usize, to: usize)
    requires
        from <= to <= src@.len(),
    ensures
        final(out)@ == old(out)@ + src@.subrange(from as int, to as int),
{
    let ghost before = out@;
    let mut i: usize = from;
    while i < to
        invariant
            from <= i <= to <= src@.len(),
            out@ == before + src@.subrange(from as int, i as int),
        decreases to - i,
    {
        out.push(src[i]);
        i = i + 1;
        assert(out@ =~= before + src@.subrange(from as int, i as int));
    }
}

/// Append every byte of `src` to `out`.
pub fn push_all(out: &mut Vec<u8>, src: &[u8])
    ensures
        final(out)@ == old(out)@ + src@,
{
    let ghost before = out@;
    let mut i: usize = 0;
    while i < src.len()
        invariant
            0 <= i <= src@.len(),
            out@ == before + src@.subrange(0, i as int),
        decreases src@.len() - i,
    {
        out.push(src[i]);
        i = i + 1;
        assert(out@ =~= before + src@.subrange(0, i as int));
    }
    assert(src@.subrange(0, i as int) =~= src@);
}

} // verus!
