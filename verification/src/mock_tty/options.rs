//! The mock TTY's option blob: a flat JSON object whose string values are
//! looked up by key and unescaped.

use vstd::prelude::*;
use vstd::string::StringSliceAdditionalSpecFns;
use vstd::utf8::{encode_scalar, encode_utf8, decode_utf8, valid_utf8, encode_utf8_valid_utf8,
    encode_utf8_decode_utf8};
use crate::bytes::{push_all, push_range, string_from_utf8, utf8_text};
use crate::dcs::{opt_string_view, push_code_unit};
use crate::text::{find_bytes, find_from};

verus! {

/// `"<key>":"`
pub open spec fn opt_needle(key: Seq<u8>) -> Seq<u8> {
    seq![0x22u8] + key + seq![0x22u8, 0x3A, 0x22]
}

/// The first unescaped `"` at or after `i`.
pub open spec fn closing_quote_from(s: Seq<u8>, i: int) -> Option<int>
    decreases s.len() - i,
{
    if i < 0 || i >= s.len() {
        None
    } else if s[i] == 0x22 && (i == 0 || s[i - 1] != 0x5C) {
        Some(i)
    } else {
        closing_quote_from(s, i + 1)
    }
}

/// The raw (still escaped) string value of `"<key>":"` in `raw`.
pub open spec fn spec_extract_opt(raw: Seq<u8>, key: Seq<u8>) -> Option<Seq<u8>> {
    match find_from(raw, opt_needle(key), 0) {
        None => None,
        Some(p) => {
            let st = p + opt_needle(key).len();
            match closing_quote_from(raw, st) {
                Some(e) => Some(raw.subrange(st, e)),
                None => None,
            }
        },
    }
}

/// The raw string value of `key` in the option blob, as text.
pub fn extract_opt(raw: &str, key: &str) -> (r: Option<String>)
    ensures
        opt_string_view(r) == match spec_extract_opt(raw.spec_bytes(), key.spec_bytes()) {
            Some(b) => utf8_text(Some(b)),
            None => None,
        },
{
    let b = raw.as_bytes();
    let n = b.len();
    let mut needle: Vec<u8> = Vec::new();
    needle.push(0x22);
    push_all(&mut needle, key.as_bytes());
    needle.push(0x22);
    needle.push(0x3A);
    needle.push(0x22);
    assert(needle@ =~= opt_needle(key.spec_bytes()));
    let p = match find_bytes(b, needle.as_slice(), 0) {
        Some(p) => p,
        None => return None,
    };
    let st = p + needle.len();
    let mut i = st;
    while i < n
        invariant
            st <= i <= n == b@.len(),
            b@ == raw.spec_bytes(),
            find_from(b@, opt_needle(key.spec_bytes()), 0) == Some(p as int),
            st == p + opt_needle(key.spec_bytes()).len(),
            closing_quote_from(b@, st as int) == closing_quote_from(b@, i as int),
        decreases n - i,
    {
        if b[i] == 0x22 && (i == 0 || b[i - 1] != 0x5C) {
            let mut v: Vec<u8> = Vec::new();
            push_range(&mut v, b, st, i);
            assert(closing_quote_from(b@, i as int) == Some(i as int));
            assert(v@ =~= b@.subrange(st as int, i as int));
            return string_from_utf8(v);
        }
        i = i + 1;
    }
    None
}

/// The character that `\<e>` stands for, or `None` when the escape is kept
/// verbatim.
pub open spec fn inline_escape(e: u8) -> Option<char> {
    if e == 0x6E {
        Some('\n')
    } else if e == 0x72 {
        Some('\r')
    } else if e == 0x74 {
        Some('\t')
    } else if e == 0x22 {
        Some('"')
    } else if e == 0x5C {
        Some('\\')
    } else {
        None
    }
}

/// Unescaped text from byte `i` on: `\n \r \t \" \\` are decoded, any
/// other escape keeps its backslash, and every other byte `b` becomes the
/// character U+00`b`.
pub open spec fn unescape_from(s: Seq<u8>, i: int) -> Seq<char>
    decreases s.len() - i,
{
    if i < 0 || i >= s.len() {
        Seq::empty()
    } else if s[i] == 0x5C && i + 1 < s.len() {
        match inline_escape(s[i + 1]) {
            Some(c) => seq![c] + unescape_from(s, i + 2),
            None => seq!['\\', s[i + 1] as char] + unescape_from(s, i + 2),
        }
    } else {
        seq![s[i] as char] + unescape_from(s, i + 1)
    }
}

proof fn lemma_encode_push(a: Seq<char>, c: char)
    ensures
        encode_utf8(a.push(c)) == encode_utf8(a) + encode_scalar(c as u32),
    decreases a.len(),
{
    if a.len() == 0 {
        assert(a.push(c).drop_first() =~= Seq::<char>::empty());
        assert(encode_utf8(Seq::<char>::empty()) =~= Seq::<u8>::empty());
        assert(encode_scalar(c as u32) + Seq::<u8>::empty() =~= encode_scalar(c as u32));
    } else {
        assert(a.push(c).drop_first() =~= a.drop_first().push(c));
        lemma_encode_push(a.drop_first(), c);
        assert(encode_utf8(a.push(c)) =~= encode_scalar(a[0] as u32) + (encode_utf8(a.drop_first())
            + encode_scalar(c as u32)));
    }
}

fn push_char(out: &mut Vec<u8>, code: u8, Ghost(chars): Ghost<Seq<char>>) -> (next: Ghost<Seq<char>>)
    requires
        old(out)@ == encode_utf8(chars),
    ensures
        next@ == chars.push(code as char),
        final(out)@ == encode_utf8(next@),
{
    push_code_unit(out, code as u32);
    proof {
        lemma_encode_push(chars, code as char);
        assert((code as char) as u32 == code as u32);
    }
    Ghost(chars.push(code as char))
}

/// Decode the inline escapes of an option value (see [`unescape_from`]).
pub fn unescape_inline(s: &str) -> (r: String)
    ensures
        r@ == unescape_from(s.spec_bytes(), 0),
{
    let b = s.as_bytes();
    let n = b.len();
    let mut out: Vec<u8> = Vec::new();
    let ghost mut chars: Seq<char> = Seq::empty();
    assert(encode_utf8(chars) =~= Seq::<u8>::empty());
    let mut i: usize = 0;
    while i < n
        invariant
            i <= n == b@.len(),
            out@ == encode_utf8(chars),
            unescape_from(b@, 0) == chars + unescape_from(b@, i as int),
        decreases n - i,
    {
        let ghost before = chars;
        if b[i] == 0x5C && i + 1 < n {
            let e = b[i + 1];
            let c: Option<u8> = if e == 0x6E {
                Some(0x0A)
            } else if e == 0x72 {
                Some(0x0D)
            } else if e == 0x74 {
                Some(0x09)
            } else if e == 0x22 {
                Some(0x22)
            } else if e == 0x5C {
                Some(0x5C)
            } else {
                None
            };
            match c {
                Some(x) => {
                    let Ghost(next) = push_char(&mut out, x, Ghost(chars));
                    proof {
                        chars = next;
                        assert(chars =~= before + seq![inline_escape(e).unwrap()]);
                    }
                },
                None => {
                    let Ghost(mid) = push_char(&mut out, 0x5C, Ghost(chars));
                    let Ghost(next) = push_char(&mut out, e, Ghost(mid));
                    proof {
                        chars = next;
                        assert(chars =~= before + seq!['\\', e as char]);
                    }
                },
            }
            i = i + 2;
        } else {
            let Ghost(next) = push_char(&mut out, b[i], Ghost(chars));
            proof {
                chars = next;
                assert(chars =~= before + seq![b@[i as int] as char]);
            }
            i = i + 1;
        }
        assert forall|x: Seq<char>, y: Seq<char>, z: Seq<char>| #![auto] (x + y) + z =~= x + (y + z) by {}
    }
    assert(chars + Seq::<char>::empty() =~= chars);
    proof {
        encode_utf8_valid_utf8(chars);
        encode_utf8_decode_utf8(chars);
    }
    match string_from_utf8(out) {
        Some(t) => t,
        None => {
            assert(false);
            String::new()
        },
    }
}

} // verus!
