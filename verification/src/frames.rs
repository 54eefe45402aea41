//! Building shell-integration frames: the JSON payloads of the three hooks
//! and their `ESC P $ d <hex> 0x9C` wrapping.

use vstd::prelude::*;
use vstd::string::StringSliceAdditionalSpecFns;
use crate::bytes::{dec_digits, dec_signed, push_all, push_signed_decimal};
use crate::dcs::{
    DcsEventView, ESC, ST_8BIT, first_st_from, hex_nibble, is_first_st_from, is_st_at, spec_hex_decode,
    spec_parse_body, spec_parse_json, spec_scan, st_end, key_at, is_first_key_at, spec_value_start,
    lemma_first_key_unique, json_str_body, json_string_at, spec_find_string, key_hook, key_command,
    hook_precmd, hook_preexec, hook_command_finished, skip_ws, QUOTE, BACKSLASH, key_pwd, key_git_branch,
    key_exit_code, spec_find_int, lemma_first_st_unique, digit_run_end, decimal_value, is_digit, lemma_decimal_push,
};
use crate::bytes::utf8_text;
use vstd::utf8::{encode_utf8_valid_utf8, encode_utf8_decode_utf8};

verus! {

/// Lowercase hex digit of `v < 16`.
pub open spec fn hex_digit(v: int) -> u8 {
    if v < 10 { (0x30 + v) as u8 } else { (0x61 + v - 10) as u8 }
}

/// Lowercase hex encoding, two digits per byte.
pub open spec fn spec_hex_encode(s: Seq<u8>) -> Seq<u8> {
    Seq::new(2 * s.len(), |k: int| if k % 2 == 0 { hex_digit((s[k / 2] / 16) as int) } else { hex_digit((s[k / 2] % 16) as int) })
}

/// The frame that carries `json`: `ESC P $ d`, its hex, then `0x9C`.
pub open spec fn spec_frame(json: Seq<u8>) -> Seq<u8> {
    seq![ESC, 0x50u8, 0x24u8, 0x64u8] + spec_hex_encode(json) + seq![ST_8BIT]
}

fn hex_digit_exec(v: u8) -> (d: u8)
    requires
        v < 16,
    ensures
        d == hex_digit(v as int),
{
    if v < 10 { 0x30 + v } else { 0x61 + v - 10 }
}

/// Lowercase hex encoding of `bytes`.
pub fn hex_encode(bytes: &[u8]) -> (r: Vec<u8>)
    ensures
        r@ == spec_hex_encode(bytes@),
{
    let mut out: Vec<u8> = Vec::new();
    let mut i: usize = 0;
    while i < bytes.len()
        invariant
            0 <= i <= bytes@.len(),
            out@ == spec_hex_encode(bytes@.subrange(0, i as int)),
        decreases bytes@.len() - i,
    {
        let b = bytes[i];
        out.push(hex_digit_exec(b / 16));
        out.push(hex_digit_exec(b % 16));
        i = i + 1;
        assert(out@ =~= spec_hex_encode(bytes@.subrange(0, i as int)));
    }
    assert(bytes@.subrange(0, i as int) =~= bytes@);
    out
}

/// Wrap a JSON payload into a frame: `ESC P $ d <hex(json)> 0x9C`.
pub fn dcs_event(json: &[u8]) -> (r: Vec<u8>)
    ensures
        r@ == spec_frame(json@),
{
    let mut v: Vec<u8> = Vec::new();
    v.push(ESC);
    v.push(0x50);
    v.push(0x24);
    v.push(0x64);
    let hex = hex_encode(json);
    push_all(&mut v, hex.as_slice());
    v.push(ST_8BIT);
    assert(v@ =~= spec_frame(json@));
    v
}

/// JSON string escaping of `\\` and `"` (every other byte is kept).
pub open spec fn spec_json_escape(s: Seq<u8>) -> Seq<u8>
    decreases s.len(),
{
    if s.len() == 0 {
        Seq::empty()
    } else {
        spec_json_escape(s.drop_last()) + escape_byte(s.last())
    }
}

pub open spec fn escape_byte(b: u8) -> Seq<u8> {
    if b == 0x5C {
        seq![0x5Cu8, 0x5Cu8]
    } else if b == 0x22 {
        seq![0x5Cu8, 0x22u8]
    } else {
        seq![b]
    }
}

/// Escape `\\` and `"` for embedding in a JSON string.
pub fn json_escape(s: &[u8]) -> (r: Vec<u8>)
    ensures
        r@ == spec_json_escape(s@),
{
    let mut out: Vec<u8> = Vec::new();
    let mut i: usize = 0;
    while i < s.len()
        invariant
            0 <= i <= s@.len(),
            out@ == spec_json_escape(s@.subrange(0, i as int)),
        decreases s@.len() - i,
    {
        let b = s[i];
        if b == 0x5C {
            out.push(0x5C);
            out.push(0x5C);
        } else if b == 0x22 {
            out.push(0x5C);
            out.push(0x22);
        } else {
            out.push(b);
        }
        i = i + 1;
        assert(s@.subrange(0, i as int).drop_last() =~= s@.subrange(0, i - 1));
        assert(out@ =~= spec_json_escape(s@.subrange(0, i as int)));
    }
    assert(s@.subrange(0, i as int) =~= s@);
    out
}

/// `{"hook":"Precmd","value":{}}`
pub open spec fn precmd_json() -> Seq<u8> {
    seq![0x7Bu8, 0x22, 0x68, 0x6F, 0x6F, 0x6B, 0x22, 0x3A, 0x22, 0x50, 0x72, 0x65, 0x63, 0x6D, 0x64, 0x22,
        0x2C, 0x22, 0x76, 0x61, 0x6C, 0x75, 0x65, 0x22, 0x3A, 0x7B, 0x7D, 0x7D]
}

/// `{"hook":"Preexec","value":{"command":"`
pub open spec fn preexec_prefix() -> Seq<u8> {
    seq![0x7Bu8, 0x22, 0x68, 0x6F, 0x6F, 0x6B, 0x22, 0x3A, 0x22, 0x50, 0x72, 0x65, 0x65, 0x78, 0x65, 0x63,
        0x22, 0x2C, 0x22, 0x76, 0x61, 0x6C, 0x75, 0x65, 0x22, 0x3A, 0x7B, 0x22, 0x63, 0x6F, 0x6D, 0x6D,
        0x61, 0x6E, 0x64, 0x22, 0x3A, 0x22]
}

/// `"}}`
pub open spec fn preexec_suffix() -> Seq<u8> {
    seq![0x22u8, 0x7D, 0x7D]
}

/// `{"hook":"CommandFinished","value":{"exit_code":`
pub open spec fn finished_prefix() -> Seq<u8> {
    seq![0x7Bu8, 0x22, 0x68, 0x6F, 0x6F, 0x6B, 0x22, 0x3A, 0x22, 0x43, 0x6F, 0x6D, 0x6D, 0x61, 0x6E, 0x64,
        0x46, 0x69, 0x6E, 0x69, 0x73, 0x68, 0x65, 0x64, 0x22, 0x2C, 0x22, 0x76, 0x61, 0x6C, 0x75, 0x65,
        0x22, 0x3A, 0x7B, 0x22, 0x65, 0x78, 0x69, 0x74, 0x5F, 0x63, 0x6F, 0x64, 0x65, 0x22, 0x3A]
}

/// `}}`
pub open spec fn finished_suffix() -> Seq<u8> {
    seq![0x7Du8, 0x7D]
}

pub open spec fn spec_preexec_json(cmd: Seq<u8>) -> Seq<u8> {
    preexec_prefix() + spec_json_escape(cmd) + preexec_suffix()
}

pub open spec fn spec_finished_json(exit_code: i32) -> Seq<u8> {
    finished_prefix() + dec_signed(exit_code as int) + finished_suffix()
}

/// Frame announcing a prompt (no `pwd`).
pub fn precmd_bytes() -> (r: Vec<u8>)
    ensures
        r@ == spec_frame(precmd_json()),
{
    let json: [u8; 28] = [0x7B, 0x22, 0x68, 0x6F, 0x6F, 0x6B, 0x22, 0x3A, 0x22, 0x50, 0x72, 0x65, 0x63, 0x6D,
        0x64, 0x22, 0x2C, 0x22, 0x76, 0x61, 0x6C, 0x75, 0x65, 0x22, 0x3A, 0x7B, 0x7D, 0x7D];
    assert(json@ =~= precmd_json());
    dcs_event(json.as_slice())
}

/// Frame announcing that `cmd` starts.
pub fn preexec_bytes(cmd: &str) -> (r: Vec<u8>)
    ensures
        r@ == spec_frame(spec_preexec_json(cmd.spec_bytes())),
{
    let prefix: [u8; 38] = [0x7B, 0x22, 0x68, 0x6F, 0x6F, 0x6B, 0x22, 0x3A, 0x22, 0x50, 0x72, 0x65, 0x65, 0x78,
        0x65, 0x63, 0x22, 0x2C, 0x22, 0x76, 0x61, 0x6C, 0x75, 0x65, 0x22, 0x3A, 0x7B, 0x22, 0x63, 0x6F, 0x6D,
        0x6D, 0x61, 0x6E, 0x64, 0x22, 0x3A, 0x22];
    let suffix: [u8; 3] = [0x22, 0x7D, 0x7D];
    assert(prefix@ =~= preexec_prefix());
    assert(suffix@ =~= preexec_suffix());
    let mut json: Vec<u8> = Vec::new();
    push_all(&mut json, prefix.as_slice());
    let escaped = json_escape(cmd.as_bytes());
    push_all(&mut json, escaped.as_slice());
    push_all(&mut json, suffix.as_slice());
    assert(json@ =~= spec_preexec_json(cmd.spec_bytes()));
    dcs_event(json.as_slice())
}

/// Frame announcing that the command finished with `exit_code`.
pub fn command_finished_bytes(exit_code: i32) -> (r: Vec<u8>)
    ensures
        r@ == spec_frame(spec_finished_json(exit_code)),
{
    let prefix: [u8; 47] = [0x7B, 0x22, 0x68, 0x6F, 0x6F, 0x6B, 0x22, 0x3A, 0x22, 0x43, 0x6F, 0x6D, 0x6D, 0x61,
        0x6E, 0x64, 0x46, 0x69, 0x6E, 0x69, 0x73, 0x68, 0x65, 0x64, 0x22, 0x2C, 0x22, 0x76, 0x61, 0x6C, 0x75,
        0x65, 0x22, 0x3A, 0x7B, 0x22, 0x65, 0x78, 0x69, 0x74, 0x5F, 0x63, 0x6F, 0x64, 0x65, 0x22, 0x3A];
    let suffix: [u8; 2] = [0x7D, 0x7D];
    assert(prefix@ =~= finished_prefix());
    assert(suffix@ =~= finished_suffix());
    let mut json: Vec<u8> = Vec::new();
    push_all(&mut json, prefix.as_slice());
    push_signed_decimal(&mut json, exit_code as i64);
    push_all(&mut json, suffix.as_slice());
    assert(json@ =~= spec_finished_json(exit_code));
    dcs_event(json.as_slice())
}

/// Wrap raw command output into one complete block: a `Precmd` frame, a
/// `Preexec` frame for `command` (`"unknown"` when absent), the output,
/// and a `CommandFinished` frame with `exit_code`.
pub fn wrap_with_dcs(user_bytes: &[u8], command: Option<&str>, exit_code: i32) -> (r: Vec<u8>)
    ensures
        r@ == spec_wrapped(
            user_bytes@,
            match command {
                Some(c) => c.spec_bytes(),
                None => "unknown".spec_bytes(),
            },
            exit_code,
        ),
{
    let mut out: Vec<u8> = Vec::new();
    let a = precmd_bytes();
    push_all(&mut out, a.as_slice());
    let b = match command {
        Some(c) => preexec_bytes(c),
        None => {
            preexec_bytes("unknown")
        },
    };
    push_all(&mut out, b.as_slice());
    push_all(&mut out, user_bytes);
    let c = command_finished_bytes(exit_code);
    push_all(&mut out, c.as_slice());
    assert(out@ =~= spec_wrapped(
        user_bytes@,
        match command {
            Some(c) => c.spec_bytes(),
            None => "unknown".spec_bytes(),
        },
        exit_code,
    ));
    out
}

// ---------------------------------------------------------------------------
// Round trip
// ---------------------------------------------------------------------------

proof fn lemma_hex_digit_nibble(v: int)
    requires
        0 <= v < 16,
    ensures
        hex_nibble(hex_digit(v)) == Some(v as u8),
{
}

/// Hex decoding undoes hex encoding.
pub proof fn law_hex_round_trip(s: Seq<u8>)
    ensures
        spec_hex_decode(spec_hex_encode(s)) == Some(s),
{
    let e = spec_hex_encode(s);
    assert forall|i: int| 0 <= i < e.len() implies (#[trigger] hex_nibble(e[i])) is Some by {
        lemma_hex_digit_nibble((s[i / 2] / 16) as int);
        lemma_hex_digit_nibble((s[i / 2] % 16) as int);
    }
    let d = spec_hex_decode(e).unwrap();
    assert forall|k: int| 0 <= k < s.len() implies #[trigger] d[k] == s[k] by {
        assert((2 * k) % 2 == 0);
        assert((2 * k + 1) % 2 == 1);
        assert((2 * k) / 2 == k);
        assert((2 * k + 1) / 2 == k);
        lemma_hex_digit_nibble((s[k] / 16) as int);
        lemma_hex_digit_nibble((s[k] % 16) as int);
    }
    assert(d =~= s);
}

/// A frame built from any JSON payload is found by the scanner as exactly
/// one frame spanning the whole input, carrying the payload's event — or
/// as no frame when the payload describes no event.
#[verifier::spinoff_prover]
#[verifier::rlimit(40)]
pub proof fn law_frame_scans_back(json: Seq<u8>)
    ensures
        spec_scan(spec_frame(json), 0) == match spec_parse_json(json) {
            Some(e) => seq![(0int, spec_frame(json).len() as int, e)],
            None => Seq::<(int, int, DcsEventView)>::empty(),
        },
{
    reveal(spec_scan);
    let f = spec_frame(json);
    let h = spec_hex_encode(json);
    let last = f.len() - 1;
    assert forall|j: int| 4 <= j < last implies !is_st_at(f, j) by {
        assert(f[j] == h[j - 4]);
        lemma_hex_digit_nibble((json[(j - 4) / 2] / 16) as int);
        lemma_hex_digit_nibble((json[(j - 4) / 2] % 16) as int);
    }
    assert(is_first_st_from(f, 4, last));
    let k = choose|k: int| is_first_st_from(f, 4, k);
    assert(is_first_st_from(f, 4, k));
    if k < last {
        assert(!is_st_at(f, k));
    } else if k > last {
        assert(!is_st_at(f, last));
    }
    assert(first_st_from(f, 4) == Some(last));
    assert(st_end(f, last) == f.len());
    assert(f.subrange(4, last) =~= h);
    law_hex_round_trip(json);
    assert(spec_parse_body(f.subrange(4, last)) == spec_parse_json(json));
    assert(spec_scan(f, f.len() as int) == Seq::<(int, int, DcsEventView)>::empty());
    match spec_parse_json(json) {
        Some(e) => {
            assert(seq![(0int, f.len() as int, e)] + Seq::<(int, int, DcsEventView)>::empty()
                =~= seq![(0int, f.len() as int, e)]);
        },
        None => {},
    }
}

// ---------------------------------------------------------------------------
// What the scanner reads back
// ---------------------------------------------------------------------------

proof fn lemma_escape_front(c: Seq<u8>)
    requires
        c.len() > 0,
    ensures
        spec_json_escape(c) == escape_byte(c[0]) + spec_json_escape(c.drop_first()),
    decreases c.len(),
{
    if c.len() == 1 {
        assert(c.drop_last() =~= Seq::<u8>::empty());
        assert(c.drop_first() =~= Seq::<u8>::empty());
        assert(spec_json_escape(Seq::<u8>::empty()) =~= Seq::<u8>::empty());
        assert(Seq::<u8>::empty() + escape_byte(c[0]) =~= escape_byte(c[0]) + Seq::<u8>::empty());
    } else {
        lemma_escape_front(c.drop_last());
        assert(c.drop_last().drop_first() =~= c.drop_first().drop_last());
        assert(c.drop_first().last() == c.last());
        assert(spec_json_escape(c) =~= escape_byte(c[0]) + spec_json_escape(c.drop_first()));
    }
}

/// A JSON string body holding `spec_json_escape(c)` and then a closing
/// quote decodes to `c`.
proof fn lemma_unescape(j: Seq<u8>, base: int, c: Seq<u8>)
    requires
        0 <= base,
        base + spec_json_escape(c).len() < j.len(),
        j.subrange(base, base + spec_json_escape(c).len()) == spec_json_escape(c),
        j[base + spec_json_escape(c).len()] == QUOTE,
    ensures
        json_str_body(j, base) == Some(c),
    decreases c.len(),
{
    if c.len() == 0 {
        assert(spec_json_escape(c) =~= Seq::<u8>::empty());
    } else {
        lemma_escape_front(c);
        let e = spec_json_escape(c);
        let head = escape_byte(c[0]);
        let rest = spec_json_escape(c.drop_first());
        assert(e == head + rest);
        let nb = base + head.len();
        assert(j.subrange(nb, nb + rest.len()) =~= e.subrange(head.len() as int, e.len() as int));
        assert(e.subrange(head.len() as int, e.len() as int) =~= rest);
        assert(j[nb + rest.len()] == QUOTE);
        lemma_unescape(j, nb, c.drop_first());
        assert(j[base] == e[0]);
        if c[0] == BACKSLASH || c[0] == QUOTE {
            assert(j[base + 1] == e[1]);
        }
        assert(seq![c[0]] + c.drop_first() =~= c);
    }
}

/// `{"hook":"Precmd","value":{}}` has no `pwd` or `git_branch` key.
proof fn lemma_no_key(j: Seq<u8>, key: Seq<u8>)
    requires
        j == precmd_json(),
        key.len() >= 3,
        key[0] == 0x70 || key[0] == 0x67,
    ensures
        spec_find_string(j, key) is None,
{
    assert forall|i: int| !key_at(j, key, i) by {
        if key_at(j, key, i) {
            assert(j[i] == QUOTE);
            assert(j[i + 1] == key[0]);
        }
    }
    assert(!exists|i: int| is_first_key_at(j, key, i));
}

/// The hook value of every frame payload built here: the first `"hook":`
/// is at offset 1 and its string starts at offset 8.
proof fn lemma_hook_at(j: Seq<u8>, name: Seq<u8>)
    requires
        j.len() > 9 + name.len(),
        j.subrange(0, 9) == seq![0x7Bu8, 0x22, 0x68, 0x6F, 0x6F, 0x6B, 0x22, 0x3A, 0x22],
        j.subrange(9, 9 + name.len() as int) == name,
        j[9 + name.len() as int] == QUOTE,
        forall|k: int| 0 <= k < name.len() ==> name[k] != QUOTE && name[k] != BACKSLASH,
    ensures
        spec_find_string(j, key_hook()) == Some(name),
{
    assert(key_at(j, key_hook(), 1)) by {
        assert(j.subrange(2, 6) =~= j.subrange(0, 9).subrange(2, 6));
        assert(j.subrange(2, 6) =~= key_hook());
    }
    assert(is_first_key_at(j, key_hook(), 1)) by {
        assert(j[0] == 0x7B);
    }
    lemma_first_key_unique(j, key_hook(), 1);
    assert(j[8] == QUOTE);
    assert(skip_ws(j, 8) == 8);
    assert(spec_json_escape(name) =~= name) by {
        lemma_escape_plain(name);
    }
    lemma_unescape(j, 9, name);
}

proof fn lemma_escape_plain(c: Seq<u8>)
    requires
        forall|k: int| 0 <= k < c.len() ==> c[k] != QUOTE && c[k] != BACKSLASH,
    ensures
        spec_json_escape(c) == c,
    decreases c.len(),
{
    if c.len() > 0 {
        lemma_escape_plain(c.drop_last());
        assert(c.drop_last().push(c.last()) =~= c);
    }
}

/// A command frame is read back as that command.
pub proof fn law_preexec_reads_back(cmd: &str)
    ensures
        spec_parse_json(spec_preexec_json(cmd.spec_bytes())) == Some(DcsEventView::Preexec { command: cmd@ }),
        spec_scan(spec_frame(spec_preexec_json(cmd.spec_bytes())), 0)
            == seq![(0int, spec_frame(spec_preexec_json(cmd.spec_bytes())).len() as int,
                DcsEventView::Preexec { command: cmd@ })],
{
    lemma_preexec_parse(cmd);
    law_frame_scans_back(spec_preexec_json(cmd.spec_bytes()));
}

proof fn lemma_preexec_parse(cmd: &str)
    ensures
        spec_parse_json(spec_preexec_json(cmd.spec_bytes())) == Some(DcsEventView::Preexec { command: cmd@ }),
{
    reveal(spec_parse_json);
    let c = cmd.spec_bytes();
    let j = spec_preexec_json(c);
    let p = preexec_prefix();
    let e = spec_json_escape(c);
    assert(j.len() == p.len() + e.len() + 3);
    assert(j.subrange(0, 9) =~= seq![0x7Bu8, 0x22, 0x68, 0x6F, 0x6F, 0x6B, 0x22, 0x3A, 0x22]);
    assert(j.subrange(9, 16) =~= hook_preexec());
    lemma_hook_at(j, hook_preexec());
    assert(hook_preexec() != hook_precmd()) by {
        assert(hook_preexec().len() != hook_precmd().len());
    }
    assert(key_at(j, key_command(), 27)) by {
        assert(j.subrange(28, 35) =~= key_command());
    }
    assert forall|i: int| 0 <= i < 27 implies !key_at(j, key_command(), i) by {
        if key_at(j, key_command(), i) {
            assert(j.subrange(i + 1, i + 8) == key_command());
            assert(j[i + 1] == 0x63);
        }
    }
    assert(is_first_key_at(j, key_command(), 27));
    lemma_first_key_unique(j, key_command(), 27);
    assert(skip_ws(j, 37) == 37);
    assert(j.subrange(38, 38 + e.len() as int) =~= e);
    assert(j[38 + e.len() as int] == QUOTE);
    lemma_unescape(j, 38, c);
    assert(json_string_at(j, 37) == Some(c));
    assert(spec_find_string(j, key_command()) == Some(c));
    encode_utf8_valid_utf8(cmd@);
    encode_utf8_decode_utf8(cmd@);
    assert(utf8_text(Some(c)) == Some(cmd@));
}

/// The prompt frame is read back as a prompt with no directory or branch.
pub proof fn law_precmd_reads_back()
    ensures
        spec_parse_json(precmd_json()) == Some(DcsEventView::Precmd { pwd: None, git_branch: None }),
        spec_scan(spec_frame(precmd_json()), 0)
            == seq![(0int, spec_frame(precmd_json()).len() as int, DcsEventView::Precmd { pwd: None, git_branch: None })],
{
    lemma_precmd_parse();
    law_frame_scans_back(precmd_json());
}

proof fn lemma_precmd_parse()
    ensures
        spec_parse_json(precmd_json()) == Some(DcsEventView::Precmd { pwd: None, git_branch: None }),
{
    reveal(spec_parse_json);
    let j = precmd_json();
    assert(j.subrange(0, 9) =~= seq![0x7Bu8, 0x22, 0x68, 0x6F, 0x6F, 0x6B, 0x22, 0x3A, 0x22]);
    assert(j.subrange(9, 15) =~= hook_precmd());
    lemma_hook_at(j, hook_precmd());
    lemma_no_key(j, key_pwd());
    lemma_no_key(j, key_git_branch());
}

proof fn lemma_dec_digits(n: nat)
    ensures
        dec_digits(n).len() > 0,
        forall|k: int| 0 <= k < dec_digits(n).len() ==> is_digit(#[trigger] dec_digits(n)[k]),
        decimal_value(dec_digits(n)) == n,
    decreases n,
{
    if n >= 10 {
        lemma_dec_digits(n / 10);
        let d = dec_digits(n / 10);
        let b = (0x30 + n % 10) as u8;
        lemma_decimal_push(d, b);
        assert(dec_digits(n) == d.push(b));
        assert(b - 0x30 == n % 10);
        assert((n / 10) * 10 + n % 10 == n);
    } else {
        let b = (0x30 + n) as u8;
        assert(dec_digits(n) == seq![b]);
        assert(seq![b].drop_last() =~= Seq::<u8>::empty());
        assert(decimal_value(seq![b]) == decimal_value(Seq::<u8>::empty()) * 10 + (b - 0x30) as nat);
    }
}

proof fn lemma_digit_run(s: Seq<u8>, i: int, end: int)
    requires
        0 <= i <= end < s.len(),
        forall|k: int| i <= k < end ==> is_digit(#[trigger] s[k]),
        !is_digit(s[end]),
    ensures
        digit_run_end(s, i) == end,
    decreases end - i,
{
    if i < end {
        lemma_digit_run(s, i + 1, end);
    }
}

/// An exit-status frame is read back as that exit status.
pub proof fn law_command_finished_reads_back(exit_code: i32)
    ensures
        spec_parse_json(spec_finished_json(exit_code)) == Some(DcsEventView::CommandFinished { exit_code }),
        spec_scan(spec_frame(spec_finished_json(exit_code)), 0)
            == seq![(0int, spec_frame(spec_finished_json(exit_code)).len() as int,
                DcsEventView::CommandFinished { exit_code })],
{
    lemma_finished_parse(exit_code);
    law_frame_scans_back(spec_finished_json(exit_code));
}

proof fn lemma_finished_parse(exit_code: i32)
    ensures
        spec_parse_json(spec_finished_json(exit_code)) == Some(DcsEventView::CommandFinished { exit_code }),
{
    reveal(spec_parse_json);
    let j = spec_finished_json(exit_code);
    let p = finished_prefix();
    let mag: nat = if exit_code < 0 { (-exit_code) as nat } else { exit_code as nat };
    let d = dec_digits(mag);
    lemma_dec_digits(mag);
    let ds = dec_signed(exit_code as int);
    assert(j.subrange(0, 9) =~= seq![0x7Bu8, 0x22, 0x68, 0x6F, 0x6F, 0x6B, 0x22, 0x3A, 0x22]);
    assert(j.subrange(9, 24) =~= hook_command_finished());
    lemma_hook_at(j, hook_command_finished());
    assert(hook_command_finished() != hook_precmd()) by {
        assert(hook_command_finished().len() != hook_precmd().len());
    }
    assert(hook_command_finished() != hook_preexec()) by {
        assert(hook_command_finished().len() != hook_preexec().len());
    }
    assert(key_at(j, key_exit_code(), 35)) by {
        assert(j.subrange(36, 45) =~= key_exit_code());
    }
    assert forall|i: int| 0 <= i < 35 implies !key_at(j, key_exit_code(), i) by {
        if key_at(j, key_exit_code(), i) {
            assert(j.subrange(i + 1, i + 10) == key_exit_code());
            assert(j[i + 1] == 0x65);
        }
    }
    assert(is_first_key_at(j, key_exit_code(), 35));
    lemma_first_key_unique(j, key_exit_code(), 35);
    let neg = exit_code < 0;
    let start: int = if neg { 48 } else { 47 };
    assert(j[47] == ds[0]);
    assert(skip_ws(j, 47) == 47);
    let end = start + d.len();
    assert forall|k: int| start <= k < end implies is_digit(#[trigger] j[k]) by {
        assert(j[k] == d[k - start]);
    }
    assert(j[end] == 0x7D);
    lemma_digit_run(j, start, end);
    assert(j.subrange(start, end) =~= d);
    assert(spec_find_int(j, key_exit_code()) == Some(exit_code as i64));
}

/// A frame found inside a larger stream: scanning from its first byte
/// yields its event (if its payload describes one) and then goes on right
/// after its terminator.
pub proof fn lemma_frame_in_stream(x: Seq<u8>, at: int, json: Seq<u8>)
    requires
        0 <= at,
        at + spec_frame(json).len() <= x.len(),
        x.subrange(at, at + spec_frame(json).len()) == spec_frame(json),
    ensures
        spec_scan(x, at) == (match spec_parse_json(json) {
            Some(e) => seq![(at, at + spec_frame(json).len(), e)],
            None => Seq::<(int, int, DcsEventView)>::empty(),
        }) + spec_scan(x, at + spec_frame(json).len()),
{
    reveal(spec_scan);
    let f = spec_frame(json);
    let h = spec_hex_encode(json);
    let last = at + f.len() - 1;
    assert forall|k: int| 0 <= k < f.len() implies #[trigger] x[at + k] == f[k] by {
        assert(x.subrange(at, at + f.len())[k] == f[k]);
    }
    assert(x[at] == ESC && x[at + 1] == 0x50 && x[at + 2] == 0x24 && x[at + 3] == 0x64) by {
        assert(x[at + 0] == f[0]);
        assert(x[at + 1] == f[1]);
        assert(x[at + 2] == f[2]);
        assert(x[at + 3] == f[3]);
    }
    assert forall|j: int| at + 4 <= j < last implies !is_st_at(x, j) by {
        assert(x[at + (j - at)] == f[j - at]);
        assert(f[j - at] == h[j - at - 4]);
        lemma_hex_digit_nibble((json[(j - at - 4) / 2] / 16) as int);
        lemma_hex_digit_nibble((json[(j - at - 4) / 2] % 16) as int);
    }
    assert(x[last] == ST_8BIT) by {
        assert(x[at + (f.len() - 1)] == f[f.len() - 1]);
    }
    assert(is_first_st_from(x, at + 4, last));
    lemma_first_st_unique(x, at + 4, last);
    assert(st_end(x, last) == at + f.len());
    assert(x.subrange(at + 4, last) =~= h) by {
        assert forall|i: int| 0 <= i < h.len() implies x.subrange(at + 4, last)[i] == h[i] by {
            assert(x[at + (4 + i)] == f[4 + i]);
        }
    }
    law_hex_round_trip(json);
    assert(spec_parse_body(x.subrange(at + 4, last)) == spec_parse_json(json));
    match spec_parse_json(json) {
        Some(e) => {},
        None => {
            assert(Seq::<(int, int, DcsEventView)>::empty() + spec_scan(x, at + f.len())
                =~= spec_scan(x, at + f.len()));
        },
    }
}

/// Bytes without `ESC` hold no frame: the scan passes over them.
pub proof fn lemma_scan_skips_plain(x: Seq<u8>, i: int, j: int)
    requires
        0 <= i <= j <= x.len(),
        forall|k: int| i <= k < j ==> x[k] != ESC,
    ensures
        spec_scan(x, i) == spec_scan(x, j),
    decreases j - i,
{
    reveal(spec_scan);
    if i < j {
        lemma_scan_skips_plain(x, i + 1, j);
    }
}

/// The bytes of a wrapped block: prompt frame, command frame, the output,
/// exit-status frame.
pub open spec fn spec_wrapped(user: Seq<u8>, command: Seq<u8>, exit_code: i32) -> Seq<u8> {
    spec_frame(precmd_json()) + spec_frame(spec_preexec_json(command)) + user
        + spec_frame(spec_finished_json(exit_code))
}

proof fn lemma_three_frames(
    j1: Seq<u8>,
    j2: Seq<u8>,
    user: Seq<u8>,
    j3: Seq<u8>,
    e1: DcsEventView,
    e2: DcsEventView,
    e3: DcsEventView,
)
    requires
        spec_parse_json(j1) == Some(e1),
        spec_parse_json(j2) == Some(e2),
        spec_parse_json(j3) == Some(e3),
        forall|k: int| 0 <= k < user.len() ==> user[k] != ESC,
    ensures
        ({
            let w = spec_frame(j1) + spec_frame(j2) + user + spec_frame(j3);
            let a = spec_frame(j1).len() as int;
            let b = a + spec_frame(j2).len();
            let c = b + user.len();
            spec_scan(w, 0) == seq![(0int, a, e1), (a, b, e2), (c, w.len() as int, e3)]
        }),
{
    let f1 = spec_frame(j1);
    let f2 = spec_frame(j2);
    let f3 = spec_frame(j3);
    let w = f1 + f2 + user + f3;
    let a = f1.len() as int;
    let b = a + f2.len();
    let c = b + user.len();
    assert(w.subrange(0, a) =~= f1);
    assert(w.subrange(a, b) =~= f2);
    assert(w.subrange(c, c + f3.len()) =~= f3);
    lemma_frame_in_stream(w, 0, j1);
    lemma_frame_in_stream(w, a, j2);
    assert forall|k: int| b <= k < c implies w[k] != ESC by {
        assert(w[k] == user[k - b]);
    }
    lemma_scan_skips_plain(w, b, c);
    lemma_frame_in_stream(w, c, j3);
    assert(spec_scan(w, w.len() as int) == Seq::<(int, int, DcsEventView)>::empty()) by {
        reveal(spec_scan);
    }
    assert(spec_scan(w, 0) =~= seq![(0int, a, e1), (a, b, e2), (c, w.len() as int, e3)]);
}

/// A wrapped block whose output holds no `ESC` is read back as exactly one
/// command block: a prompt, the command, and the exit status, with the
/// output lying between the command frame and the exit-status frame.
pub proof fn law_wrapped_block_reads_back(user: Seq<u8>, cmd: &str, exit_code: i32)
    requires
        forall|k: int| 0 <= k < user.len() ==> user[k] != ESC,
    ensures
        ({
            let a = spec_frame(precmd_json()).len() as int;
            let b = a + spec_frame(spec_preexec_json(cmd.spec_bytes())).len();
            let c = b + user.len();
            let w = spec_wrapped(user, cmd.spec_bytes(), exit_code);
            spec_scan(w, 0) == seq![
                (0int, a, DcsEventView::Precmd { pwd: None, git_branch: None }),
                (a, b, DcsEventView::Preexec { command: cmd@ }),
                (c, w.len() as int, DcsEventView::CommandFinished { exit_code }),
            ]
        }),
{
    lemma_precmd_parse();
    lemma_preexec_parse(cmd);
    lemma_finished_parse(exit_code);
    lemma_three_frames(
        precmd_json(),
        spec_preexec_json(cmd.spec_bytes()),
        user,
        spec_finished_json(exit_code),
        DcsEventView::Precmd { pwd: None, git_branch: None },
        DcsEventView::Preexec { command: cmd@ },
        DcsEventView::CommandFinished { exit_code },
    );
}

} // verus!
