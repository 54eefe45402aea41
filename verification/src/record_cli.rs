//! Argument parsing of the session recorder.

use vstd::prelude::*;
use vstd::string::StringSliceAdditionalSpecFns;
use crate::render_cli::{sub_bytes, x_sep};
use crate::bytes::bytes_eq;
use crate::text::{find_bytes, find_from, parse_unsigned, spec_parse_unsigned, spec_trim, trim_bounds};

verus! {

/// `WxH` with `str::split_once('x')`: everything before the first `x` and
/// everything after it, each an unsigned decimal.
pub open spec fn spec_parse_dims(s: Seq<u8>) -> Option<(u32, u32)> {
    match find_from(s, x_sep(), 0) {
        None => None,
        Some(i) => match spec_parse_unsigned(s.subrange(0, i), u32::MAX as nat) {
            Some(w) => match spec_parse_unsigned(s.subrange(i + 1, s.len() as int), u32::MAX as nat) {
                Some(h) => Some((w as u32, h as u32)),
                None => None,
            },
            None => None,
        },
    }
}

/// Parse `WxH` (see [`spec_parse_dims`]).
pub fn parse_dims(s: &str) -> (r: Option<(u32, u32)>)
    ensures
        r == spec_parse_dims(s.spec_bytes()),
{
    let b = s.as_bytes();
    let n = b.len();
    let x: [u8; 1] = [0x78];
    assert(x@ =~= x_sep());
    let i = match find_bytes(b, x.as_slice(), 0) {
        Some(i) => i,
        None => return None,
    };
    let w = match parse_unsigned(sub_bytes(b, 0, i).as_slice(), 0xFFFF_FFFF) {
        Some(w) => w,
        None => return None,
    };
    let h = match parse_unsigned(sub_bytes(b, i + 1, n).as_slice(), 0xFFFF_FFFF) {
        Some(h) => h,
        None => return None,
    };
    Some((w as u32, h as u32))
}

/// A typed line that ends the session: it trims to `/exit` or `exit`.
pub open spec fn is_exit_line(line: Seq<char>) -> bool {
    spec_trim(vstd::utf8::encode_utf8(line)) == "/exit".spec_bytes() || spec_trim(vstd::utf8::encode_utf8(line)) == "exit".spec_bytes()
}

/// Where the typed prompt lines end: the index of the first exit line (or
/// the number of lines, with none), and whether there is one — then the
/// session is closed with `/exit`, else with `exit`.
pub fn split_exit(lines: &Vec<String>) -> (r: (usize, bool))
    ensures
        r.0 <= lines@.len(),
        r.1 <==> r.0 < lines@.len(),
        forall|k: int| 0 <= k < r.0 ==> !is_exit_line(#[trigger] lines@[k]@),
        r.1 ==> is_exit_line(lines@[r.0 as int]@),
{
    let mut i: usize = 0;
    while i < lines.len()
        invariant
            i <= lines@.len(),
            forall|k: int| 0 <= k < i ==> !is_exit_line(#[trigger] lines@[k]@),
        decreases lines@.len() - i,
    {
        let b = lines[i].as_str().as_bytes();
        let (a, z) = trim_bounds(b);
        let t = sub_bytes(b, a, z);
        if bytes_eq(t.as_slice(), "/exit".as_bytes()) || bytes_eq(t.as_slice(), "exit".as_bytes()) {
            return (i, true);
        }
        i = i + 1;
    }
    (i, false)
}

} // verus!
