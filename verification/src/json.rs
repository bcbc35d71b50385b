//! The crate's canonical JSON text: string escaping, numbers, and the
//! exact spec-level parsers that the wire codecs are proved against.
//!
//! Tickets, file headers and connect strings all travel as one
//! canonical JSON object.  The emitters below produce that canonical
//! form and the parsers accept exactly it, with parsing specified by
//! deterministic spec functions and a proved round trip.

use vstd::prelude::*;

use crate::text::{dec_digit, dec_of, dec_value, hex_digit, is_dec_digit, dec_val,
    dec_digit_exec, hex_digit_exec, emit_u64, lemma_dec_value_of, lemma_dec_of_digits};

verus! {

// ─── Hexadecimal digits (lowercase) ─────────────────────────────────

pub open spec fn is_hex_digit(c: char) -> bool {
    ('0' <= c && c <= '9') || ('a' <= c && c <= 'f')
}

pub open spec fn hex_val(c: char) -> nat {
    if '0' <= c && c <= '9' {
        ((c as int) - ('0' as int)) as nat
    } else {
        ((c as int) - ('a' as int) + 10) as nat
    }
}

pub proof fn lemma_hex_digit_val(d: nat)
    requires
        d < 16,
    ensures
        is_hex_digit(hex_digit(d)),
        hex_val(hex_digit(d)) == d,
{
}

// ─── String escaping ────────────────────────────────────────────────

/// How one character appears inside a canonical JSON string literal:
/// quote and backslash are escaped, control characters become
/// `\u00XX` with lowercase hex, everything else stands as itself.
pub open spec fn escape_char(c: char) -> Seq<char> {
    if c == '"' {
        seq!['\\', '"']
    } else if c == '\\' {
        seq!['\\', '\\']
    } else if (c as u32) < 32 {
        seq!['\\', 'u', '0', '0', hex_digit(((c as u32) / 16) as nat), hex_digit(
            ((c as u32) % 16) as nat,
        )]
    } else {
        seq![c]
    }
}

pub open spec fn escape_str(s: Seq<char>) -> Seq<char>
    decreases s.len(),
{
    if s.len() == 0 {
        Seq::empty()
    } else {
        escape_char(s.first()) + escape_str(s.drop_first())
    }
}

/// A canonical JSON string literal: quoted, escaped contents.
pub open spec fn json_string(s: Seq<char>) -> Seq<char> {
    seq!['"'] + escape_str(s) + seq!['"']
}

pub proof fn lemma_escape_str_append(a: Seq<char>, b: Seq<char>)
    ensures
        escape_str(a + b) == escape_str(a) + escape_str(b),
    decreases a.len(),
{
    if a.len() == 0 {
        assert(a + b =~= b);
        assert(escape_str(a) + escape_str(b) =~= escape_str(b));
    } else {
        lemma_escape_str_append(a.drop_first(), b);
        assert((a + b).drop_first() =~= a.drop_first() + b);
        assert((a + b).first() == a.first());
        assert(escape_str(a + b) =~= escape_str(a) + escape_str(b));
    }
}

/// Appends `escape_str(s@)` to `out`, between the two quotes.
pub fn emit_json_string(out: &mut Vec<char>, s: &Vec<char>)
    ensures
        final(out)@ == old(out)@ + json_string(s@),
{
    out.push('"');
    let ghost pre = out@;
    let mut i: usize = 0;
    while i < s.len()
        invariant
            i <= s.len(),
            out@ == pre + escape_str(s@.take(i as int)),
        decreases s.len() - i,
    {
        let c = s[i];
        let ghost before = out@;
        if c == '"' {
            out.push('\\');
            out.push('"');
        } else if c == '\\' {
            out.push('\\');
            out.push('\\');
        } else if (c as u32) < 32 {
            let code: u32 = c as u32;
            out.push('\\');
            out.push('u');
            out.push('0');
            out.push('0');
            out.push(hex_digit_exec((code / 16) as u8));
            out.push(hex_digit_exec((code % 16) as u8));
        } else {
            out.push(c);
        }
        proof {
            assert(out@ =~= before + escape_char(c));
            assert(s@.take(i as int + 1) =~= s@.take(i as int) + seq![c]);
            lemma_escape_str_append(s@.take(i as int), seq![c]);
            assert(seq![c].drop_first() =~= Seq::<char>::empty());
            assert(escape_str(seq![c].drop_first()) =~= Seq::<char>::empty());
            assert(escape_str(seq![c]) =~= escape_char(c));
        }
        i = i + 1;
    }
    proof {
        assert(s@.take(s@.len() as int) =~= s@);
    }
    out.push('"');
    proof {
        assert(out@ =~= old(out)@ + json_string(s@));
    }
}

// ─── The spec-level string parser ───────────────────────────────────

/// Reads one escape sequence; `v` starts right after the backslash.
/// Returns the decoded character and the total characters consumed,
/// counting the backslash itself.  Besides the forms the emitter
/// writes, the standard short escapes (`\n`, `\t`, `\r`, `\b`, `\f`,
/// `\/`) are read, so lines from producers that prefer them still
/// parse.
pub open spec fn unescape_head(v: Seq<char>) -> Option<(char, int)> {
    if v.len() < 1 {
        None
    } else if v[0] == '"' {
        Some(('"', 2))
    } else if v[0] == '\\' {
        Some(('\\', 2))
    } else if v[0] == '/' {
        Some(('/', 2))
    } else if v[0] == 'n' {
        Some(('\n', 2))
    } else if v[0] == 't' {
        Some(('\t', 2))
    } else if v[0] == 'r' {
        Some(('\r', 2))
    } else if v[0] == 'b' {
        Some(('\u{8}', 2))
    } else if v[0] == 'f' {
        Some(('\u{c}', 2))
    } else if v[0] == 'u' {
        if v.len() >= 5 && v[1] == '0' && v[2] == '0' && is_hex_digit(v[3]) && is_hex_digit(v[4])
            && hex_val(v[3]) * 16 + hex_val(v[4]) < 32 {
            Some(((((hex_val(v[3]) * 16 + hex_val(v[4])) as u8) as char), 6))
        } else {
            None
        }
    } else {
        None
    }
}

/// Parses the contents of a string literal up to and including the
/// closing quote; `v` starts right after the opening quote.  Returns
/// the decoded string and the characters consumed.
pub open spec fn parse_string_body(v: Seq<char>) -> Option<(Seq<char>, int)>
    decreases v.len(),
{
    if v.len() == 0 {
        None
    } else if v[0] == '"' {
        Some((Seq::empty(), 1))
    } else if v[0] == '\\' {
        match unescape_head(v.drop_first()) {
            Some((c, k)) => if 2 <= k <= v.len() {
                match parse_string_body(v.skip(k)) {
                    Some((s, m)) => Some((seq![c] + s, k + m)),
                    None => None,
                }
            } else {
                None
            },
            None => None,
        }
    } else if (v[0] as u32) < 32 {
        None
    } else {
        match parse_string_body(v.drop_first()) {
            Some((s, m)) => Some((seq![v[0]] + s, 1 + m)),
            None => None,
        }
    }
}

/// A parsed string body consumes at least its closing quote and no
/// more than the input.
pub proof fn lemma_parse_string_body_len(v: Seq<char>)
    ensures
        parse_string_body(v) matches Some((s, m)) ==> 1 <= m <= v.len(),
    decreases v.len(),
{
    if v.len() == 0 {
    } else if v[0] == '"' {
    } else if v[0] == '\\' {
        match unescape_head(v.drop_first()) {
            Some((c, k)) => {
                if 2 <= k <= v.len() {
                    lemma_parse_string_body_len(v.skip(k));
                }
            },
            None => {},
        }
    } else if (v[0] as u32) < 32 {
    } else {
        lemma_parse_string_body_len(v.drop_first());
    }
}

/// Round trip: the parser reads back exactly what the emitter wrote,
/// whatever follows the closing quote.
pub proof fn lemma_parse_escaped(s: Seq<char>, rest: Seq<char>)
    ensures
        parse_string_body(escape_str(s) + seq!['"'] + rest) == Some(
            (s, escape_str(s).len() + 1 as int),
        ),
    decreases s.len(),
{
    let v = escape_str(s) + seq!['"'] + rest;
    if s.len() == 0 {
        assert(v =~= seq!['"'] + rest);
        assert(v[0] == '"');
    } else {
        let c = s.first();
        let s1 = s.drop_first();
        let v1 = escape_str(s1) + seq!['"'] + rest;
        lemma_parse_escaped(s1, rest);
        assert(escape_str(s) == escape_char(c) + escape_str(s1));
        assert(v =~= escape_char(c) + v1);
        if c == '"' {
            assert(v[0] == '\\' && v[1] == '"');
            assert(v.drop_first()[0] == '"');
            assert(v.skip(2) =~= v1);
        } else if c == '\\' {
            assert(v[0] == '\\' && v[1] == '\\');
            assert(v.drop_first()[0] == '\\');
            assert(v.skip(2) =~= v1);
        } else if (c as u32) < 32 {
            let code = c as u32;
            assert(v[0] == '\\');
            let w = v.drop_first();
            assert(w[0] == 'u' && w[1] == '0' && w[2] == '0');
            assert(w[3] == hex_digit((code / 16) as nat));
            assert(w[4] == hex_digit((code % 16) as nat));
            lemma_hex_digit_val((code / 16) as nat);
            lemma_hex_digit_val((code % 16) as nat);
            assert(code == (code / 16) * 16 + code % 16) by (nonlinear_arith);
            assert(hex_val(w[3]) * 16 + hex_val(w[4]) == code);
            vstd::utf8::char_u32_cast(c, code);
            assert((code as char) == c);
            assert((((hex_val(w[3]) * 16 + hex_val(w[4])) as u8) as char) == (code as char));
            assert(unescape_head(w) == Some((c, 6int)));
            assert(v.skip(6) =~= v1);
        } else {
            assert(v[0] == c);
            assert(v[0] != '"' && v[0] != '\\' && (v[0] as u32) >= 32);
            assert(v.drop_first() =~= v1);
        }
    }
}

/// Parses a string literal at index `i` of `v`: `v[i]` must be the
/// opening quote.  Returns the decoded string and the index just past
/// the closing quote.
pub open spec fn parse_json_string_at(v: Seq<char>, i: int) -> Option<(Seq<char>, int)> {
    if 0 <= i < v.len() && v[i] == '"' {
        match parse_string_body(v.skip(i + 1)) {
            Some((s, m)) => Some((s, i + 1 + m)),
            None => None,
        }
    } else {
        None
    }
}

/// Exec string-literal parser; behaves exactly as
/// [`parse_json_string_at`].
pub fn parse_json_string(v: &Vec<char>, i: usize) -> (r: Option<(Vec<char>, usize)>)
    ensures
        match r {
            Some((s, e)) => {
                &&& parse_json_string_at(v@, i as int) == Some((s@, e as int))
                &&& i < e <= v@.len()
            },
            None => parse_json_string_at(v@, i as int) is None,
        },
{
    if i >= v.len() || v[i] != '"' {
        return None;
    }
    let ghost whole = v@.skip(i as int + 1);
    let mut out: Vec<char> = Vec::new();
    let mut j: usize = i + 1;
    loop
        invariant
            i as int + 1 <= j as int <= v@.len(),
            i < v@.len() && v@[i as int] == '"',
            whole == v@.skip(i as int + 1),
            out@.len() <= j - i - 1,
            (match parse_string_body(v@.skip(j as int)) {
                Some((s, m)) => parse_string_body(whole) == Some(
                    (out@ + s, (j - i - 1) as int + m),
                ),
                None => parse_string_body(whole) is None,
            }),
        decreases v@.len() - j,
    {
        let ghost tail = v@.skip(j as int);
        proof {
            lemma_parse_string_body_len(tail);
        }
        if j >= v.len() {
            assert(tail.len() == 0);
            return None;
        }
        let c = v[j];
        assert(tail[0] == c);
        if c == '"' {
            assert(parse_string_body(tail) == Some((Seq::<char>::empty(), 1int)));
            assert(out@ + Seq::<char>::empty() =~= out@);
            assert(parse_string_body(whole) == Some((out@, (j - i) as int)));
            return Some((out, j + 1));
        } else if c == '\\' {
            let ghost after = tail.drop_first();
            assert(after =~= v@.skip(j as int + 1));
            if j + 1 >= v.len() {
                assert(after.len() == 0);
                assert(unescape_head(after) is None);
                return None;
            }
            let c2 = v[j + 1];
            assert(after[0] == c2);
            if c2 == '"' || c2 == '\\' || c2 == '/' || c2 == 'n' || c2 == 't' || c2 == 'r' || c2
                == 'b' || c2 == 'f' {
                let decoded: char = match c2 {
                    '"' => '"',
                    '\\' => '\\',
                    '/' => '/',
                    'n' => '\n',
                    't' => '\t',
                    'r' => '\r',
                    'b' => '\u{8}',
                    _ => '\u{c}',
                };
                assert(unescape_head(after) == Some((decoded, 2int)));
                let ghost before = out@;
                out.push(decoded);
                proof {
                    assert(v@.skip(j as int).skip(2) =~= v@.skip(j as int + 2));
                    assert(out@ =~= before + seq![decoded]);
                    assert(forall|s: Seq<char>|
                        (before + seq![decoded]) + s =~= before + (seq![decoded] + s));
                }
                j = j + 2;
            } else if c2 == 'u' {
                if v.len() - j <= 5 {
                    assert(after.len() < 5);
                    assert(unescape_head(after) is None);
                    return None;
                }
                assert(after[1] == v@[j as int + 2]);
                assert(after[2] == v@[j as int + 3]);
                assert(after[3] == v@[j as int + 4]);
                assert(after[4] == v@[j as int + 5]);
                if v[j + 2] != '0' || v[j + 3] != '0' {
                    assert(unescape_head(after) is None);
                    return None;
                }
                let h1 = v[j + 4];
                let h2 = v[j + 5];
                let d1 = hex_val_exec(h1);
                let d2 = hex_val_exec(h2);
                match (d1, d2) {
                    (Some(a), Some(b)) => {
                        let code: u8 = a * 16 + b;
                        if code >= 32 {
                            assert(unescape_head(after) is None);
                            return None;
                        }
                        let c3 = code_to_char(code);
                        assert(unescape_head(after) == Some((c3, 6int)));
                        let ghost before = out@;
                        out.push(c3);
                        proof {
                            assert(v@.skip(j as int).skip(6) =~= v@.skip(j as int + 6));
                            assert(out@ =~= before + seq![c3]);
                            assert(forall|s: Seq<char>|
                                (before + seq![c3]) + s =~= before + (seq![c3] + s));
                        }
                        j = j + 6;
                    },
                    _ => {
                        assert(unescape_head(after) is None);
                        return None;
                    },
                }
            } else {
                assert(unescape_head(after) is None);
                return None;
            }
        } else if (c as u32) < 32 {
            assert(parse_string_body(tail) is None);
            return None;
        } else {
            assert(parse_string_body(tail.drop_first()) == parse_string_body(
                v@.skip(j as int + 1),
            )) by {
                assert(tail.drop_first() =~= v@.skip(j as int + 1));
            }
            let ghost before = out@;
            out.push(c);
            proof {
                assert(out@ =~= before + seq![c]);
                assert(forall|s: Seq<char>| (before + seq![c]) + s =~= before + (seq![c] + s));
            }
            j = j + 1;
        }
    }
}

// ─── Numbers ────────────────────────────────────────────────────────

/// Length of the run of decimal digits starting at index `i`.
pub open spec fn digit_run_len(v: Seq<char>, i: int) -> int
    decreases v.len() - i,
{
    if i < 0 || i >= v.len() || !is_dec_digit(v[i]) {
        0
    } else {
        1 + digit_run_len(v, i + 1)
    }
}

pub proof fn lemma_digit_run_len_bounds(v: Seq<char>, i: int)
    requires
        0 <= i <= v.len(),
    ensures
        0 <= digit_run_len(v, i) <= v.len() - i,
        forall|k: int| i <= k < i + digit_run_len(v, i) ==> is_dec_digit(#[trigger] v[k]),
        i + digit_run_len(v, i) == v.len() || !is_dec_digit(v[i + digit_run_len(v, i)]),
    decreases v.len() - i,
{
    if i < v.len() && is_dec_digit(v[i]) {
        lemma_digit_run_len_bounds(v, i + 1);
    }
}

/// Parses a `u64` literal at index `i`: the result is the value of the
/// digit run, refused when there is no digit or the value overflows.
pub open spec fn parse_u64_at(v: Seq<char>, i: int) -> Option<(u64, int)> {
    let k = digit_run_len(v, i);
    if k == 0 {
        None
    } else if dec_value(v.subrange(i, i + k)) > u64::MAX {
        None
    } else {
        Some((dec_value(v.subrange(i, i + k)) as u64, i + k))
    }
}

/// A digit string's value only grows as digits are appended.
proof fn lemma_dec_value_take_le(s: Seq<char>, m: int)
    requires
        0 <= m <= s.len(),
    ensures
        dec_value(s.take(m)) <= dec_value(s),
    decreases s.len() - m,
{
    if m < s.len() {
        lemma_dec_value_take_le(s, m + 1);
        assert(s.take(m + 1).drop_last() =~= s.take(m));
        assert(dec_value(s.take(m + 1)) == dec_value(s.take(m)) * 10 + dec_val(
            s.take(m + 1).last(),
        ));
    } else {
        assert(s.take(m) =~= s);
    }
}

/// Exec `u64` parser; behaves exactly as [`parse_u64_at`].
pub fn parse_u64(v: &Vec<char>, i: usize) -> (r: Option<(u64, usize)>)
    requires
        i <= v@.len(),
    ensures
        match r {
            Some((n, e)) => parse_u64_at(v@, i as int) == Some((n, e as int)) && i < e <= v@.len(),
            None => parse_u64_at(v@, i as int) is None,
        },
{
    let ghost run = digit_run_len(v@, i as int);
    proof {
        lemma_digit_run_len_bounds(v@, i as int);
    }
    if i >= v.len() || !is_dec_digit_exec(v[i]) {
        return None;
    }
    let mut j: usize = i;
    let mut acc: u64 = 0;
    loop
        invariant
            i <= j <= v@.len(),
            run == digit_run_len(v@, i as int),
            i as int + run <= v@.len(),
            forall|k: int| i <= k < i + run ==> is_dec_digit(#[trigger] v@[k]),
            i as int + run == v@.len() || !is_dec_digit(v@[i as int + run]),
            j <= i + run,
            acc as nat == dec_value(v@.subrange(i as int, j as int)),
            run > 0,
        ensures
            j as int == i as int + run,
            acc as nat == dec_value(v@.subrange(i as int, j as int)),
            i <= j <= v@.len(),
            run == digit_run_len(v@, i as int),
        decreases i + run - j,
    {
        if j == v.len() || !is_dec_digit_exec(v[j]) {
            proof {
                assert(j == i + run) by {
                    if (j as int) < i + run {
                        assert(is_dec_digit(v@[j as int]));
                    }
                }
            }
            break;
        }
        assert(j < i + run) by {
            lemma_digit_run_len_bounds(v@, i as int);
            if j >= i + run {
                assert(!is_dec_digit(v@[i as int + run]));
                assert(j == i + run);
            }
        }
        let d: u64 = (v[j] as u32 - '0' as u32) as u64;
        assert(d == dec_val(v@[j as int]) && d < 10);
        let ghost pre = v@.subrange(i as int, j as int);
        proof {
            assert(v@.subrange(i as int, j as int + 1).drop_last() =~= pre);
            assert(v@.subrange(i as int, j as int + 1).last() == v@[j as int]);
        }
        if acc > (u64::MAX - d) / 10 {
            proof {
                assert(acc as nat * 10 + d as nat > u64::MAX) by (nonlinear_arith)
                    requires
                        acc as nat > ((u64::MAX - d) as nat) / 10,
                        d < 10,
                ;
                let full = v@.subrange(i as int, i as int + run);
                lemma_dec_value_take_le(full, j + 1 - i);
                assert(full.take(j + 1 - i) =~= v@.subrange(i as int, j as int + 1));
                assert(dec_value(v@.subrange(i as int, i as int + run)) > u64::MAX);
            }
            return None;
        }
        acc = acc * 10 + d;
        j = j + 1;
    }
    proof {
        assert(v@.subrange(i as int, i as int + run) =~= v@.subrange(i as int, j as int));
    }
    Some((acc, j))
}

/// Whether `c` is a decimal digit.
pub fn is_dec_digit_exec(c: char) -> (r: bool)
    ensures
        r == is_dec_digit(c),
{
    '0' <= c && c <= '9'
}

// ─── Literal text ───────────────────────────────────────────────────

/// The characters of `l` stand at index `i` of `s`.
pub open spec fn lit_at(s: Seq<char>, i: int, l: Seq<char>) -> bool {
    0 <= i && i + l.len() <= s.len() && s.subrange(i, i + l.len() as int) == l
}

/// Matches the exact characters of `lit` at index `i` of `v`,
/// returning the index just past them.
pub fn expect_lit(v: &Vec<char>, i: usize, lit: &str) -> (r: Option<usize>)
    requires
        i <= v@.len(),
    ensures
        match r {
            Some(e) => {
                &&& lit_at(v@, i as int, lit@)
                &&& e as int == i + lit@.len()
                &&& e <= v@.len()
                &&& v@.subrange(i as int, e as int) == lit@
            },
            None => !lit_at(v@, i as int, lit@),
        },
{
    let n = lit.unicode_len();
    let vlen = v.len();
    if n > vlen - i {
        return None;
    }
    let mut k: usize = 0;
    while k < n
        invariant
            0 <= k <= n,
            n == lit@.len(),
            vlen == v@.len(),
            i + n <= vlen,
            v@.subrange(i as int, i as int + k as int) =~= lit@.take(k as int),
        decreases n - k,
    {
        if v[i + k] != lit.get_char(k) {
            proof {
                assert(v@.subrange(i as int, i + lit@.len())[k as int] == v@[i as int + k as int]);
            }
            return None;
        }
        proof {
            assert(v@.subrange(i as int, i as int + (k + 1) as int) =~= v@.subrange(
                i as int,
                i as int + k as int,
            ) + seq![v@[i as int + k as int]]);
            assert(lit@.take(k as int + 1) =~= lit@.take(k as int) + seq![lit@[k as int]]);
        }
        k = k + 1;
    }
    proof {
        assert(lit@.take(n as int) =~= lit@);
    }
    Some(i + n)
}

/// Appends the characters of `lit` to `out`.
pub fn push_lit(out: &mut Vec<char>, lit: &str)
    ensures
        final(out)@ == old(out)@ + lit@,
{
    let ghost pre = out@;
    for c in it: lit.chars()
        invariant
            out@ =~= pre + it.seq().take(it.index() as int),
            it.seq() == lit@,
    {
        out.push(c);
    }
    proof {
        assert(out@ =~= pre + lit@);
    }
}

// ─── Object members ─────────────────────────────────────────────────

/// The first index at or after `i` that holds no whitespace (or the
/// end).
pub open spec fn skip_ws(s: Seq<char>, i: int) -> int
    decreases s.len() - i,
{
    if 0 <= i && i < s.len() && is_ws(s[i]) {
        skip_ws(s, i + 1)
    } else {
        i
    }
}

/// Skipping stops immediately on a non-whitespace character or the
/// end.
pub proof fn lemma_skip_ws_stop(s: Seq<char>, i: int)
    requires
        i >= s.len() || i < 0 || !is_ws(s[i]),
    ensures
        skip_ws(s, i) == i,
{
}

pub proof fn lemma_skip_ws_bounds(s: Seq<char>, i: int)
    requires
        0 <= i <= s.len(),
    ensures
        i <= skip_ws(s, i) <= s.len(),
        skip_ws(s, i) == s.len() || !is_ws(s[skip_ws(s, i)]),
    decreases s.len() - i,
{
    if i < s.len() && is_ws(s[i]) {
        lemma_skip_ws_bounds(s, i + 1);
    }
}

/// Exec whitespace skipping; behaves exactly as [`skip_ws`].
pub fn skip_ws_exec(v: &Vec<char>, i: usize) -> (r: usize)
    requires
        i <= v@.len(),
    ensures
        r as int == skip_ws(v@, i as int),
        i <= r <= v@.len(),
{
    let mut j: usize = i;
    while j < v.len() && is_ws_exec(v[j])
        invariant
            i <= j <= v@.len(),
            skip_ws(v@, i as int) == skip_ws(v@, j as int),
        decreases v@.len() - j,
    {
        j = j + 1;
    }
    proof {
        lemma_skip_ws_stop(v@, j as int);
    }
    j
}

/// Whether the characters of `v` are exactly those of `s`.
pub fn chars_eq_str(v: &Vec<char>, s: &str) -> (r: bool)
    ensures
        r == (v@ == s@),
{
    let n = s.unicode_len();
    if v.len() != n {
        return false;
    }
    let mut k: usize = 0;
    while k < n
        invariant
            k <= n,
            n == s@.len(),
            v@.len() == n,
            forall|j: int| 0 <= j < k ==> v@[j] == s@[j],
        decreases n - k,
    {
        if v[k] != s.get_char(k) {
            return false;
        }
        k = k + 1;
    }
    proof {
        assert(v@ =~= s@);
    }
    true
}

/// One object member's opening: optional whitespace, the key string,
/// optional whitespace, a colon.  Returns the key and the index where
/// the value starts (whitespace after the colon skipped).
pub open spec fn parse_member_key(s: Seq<char>, i: int) -> Option<(Seq<char>, int)> {
    let i0 = skip_ws(s, i);
    match parse_json_string_at(s, i0) {
        Some((key, j)) => {
            let j1 = skip_ws(s, j);
            if j1 < s.len() && s[j1] == ':' {
                Some((key, skip_ws(s, j1 + 1)))
            } else {
                None
            }
        },
        None => None,
    }
}

/// Exec member opening; behaves exactly as [`parse_member_key`].
pub fn parse_member_key_exec(v: &Vec<char>, i: usize) -> (r: Option<(Vec<char>, usize)>)
    requires
        i <= v@.len(),
    ensures
        match r {
            Some((key, e)) => {
                &&& parse_member_key(v@, i as int) == Some((key@, e as int))
                &&& i < e <= v@.len()
            },
            None => parse_member_key(v@, i as int) is None,
        },
{
    let i0 = skip_ws_exec(v, i);
    let (key, j) = match parse_json_string(v, i0) {
        Some(p) => p,
        None => {
            return None;
        },
    };
    let j1 = skip_ws_exec(v, j);
    if j1 >= v.len() || v[j1] != ':' {
        return None;
    }
    let e = skip_ws_exec(v, j1 + 1);
    Some((key, e))
}

/// The canonical member opening — the quoted key immediately followed
/// by a colon — parses to the key, with the value starting right
/// after the colon (given no whitespace follows it).
pub proof fn lemma_parse_member_key(s: Seq<char>, i: int, key: Seq<char>)
    requires
        0 <= i,
        i + json_string(key).len() + 1 < s.len(),
        s.subrange(i, i + json_string(key).len() as int) == json_string(key),
        s[i + json_string(key).len()] == ':',
        !is_ws(s[i + json_string(key).len() + 1]),
    ensures
        parse_member_key(s, i) == Some((key, i + json_string(key).len() + 1 as int)),
{
    let q = json_string(key);
    assert(s[i] == q[0]);
    lemma_skip_ws_stop(s, i);
    lemma_parse_json_string_at(s, i, key);
    let e = i + q.len() as int;
    lemma_skip_ws_stop(s, e);
    lemma_skip_ws_stop(s, e + 1);
}

/// A character that stands for itself inside a string literal.
pub open spec fn plain_char(c: char) -> bool {
    c != '"' && c != '\\' && (c as u32) >= 32
}

/// Escaping a string of plain characters changes nothing.
pub proof fn lemma_escape_str_plain(s: Seq<char>)
    requires
        forall|i: int| 0 <= i < s.len() ==> plain_char(#[trigger] s[i]),
    ensures
        escape_str(s) == s,
    decreases s.len(),
{
    if s.len() > 0 {
        assert(plain_char(s[0]));
        assert(escape_char(s.first()) == seq![s.first()]);
        assert forall|i: int| 0 <= i < s.drop_first().len() implies plain_char(
            #[trigger] s.drop_first()[i],
        ) by {
            assert(s.drop_first()[i] == s[i + 1]);
        }
        lemma_escape_str_plain(s.drop_first());
        assert(escape_str(s) =~= s);
    }
}

// ─── Round trips at an index ────────────────────────────────────────

/// A run of digits bounded on both sides parses as exactly that run.
pub proof fn lemma_digit_run_exact(v: Seq<char>, i: int, k: int)
    requires
        0 <= i,
        i + k <= v.len(),
        k >= 0,
        forall|t: int| i <= t < i + k ==> is_dec_digit(#[trigger] v[t]),
        i + k == v.len() || !is_dec_digit(v[i + k]),
    ensures
        digit_run_len(v, i) == k,
    decreases k,
{
    if k > 0 {
        lemma_digit_run_exact(v, i + 1, k - 1);
    }
}

/// The canonical decimal text of `n`, embedded at index `i` and
/// bounded by a non-digit, parses back to `n`.
pub proof fn lemma_parse_dec_at(v: Seq<char>, i: int, n: u64)
    requires
        0 <= i,
        i + dec_of(n as nat).len() <= v.len(),
        v.subrange(i, i + dec_of(n as nat).len() as int) == dec_of(n as nat),
        i + dec_of(n as nat).len() == v.len() || !is_dec_digit(v[i + dec_of(n as nat).len()]),
    ensures
        parse_u64_at(v, i) == Some((n, i + dec_of(n as nat).len() as int)),
{
    let d = dec_of(n as nat);
    lemma_dec_of_digits(n as nat);
    assert forall|t: int| i <= t < i + d.len() implies is_dec_digit(#[trigger] v[t]) by {
        assert(v[t] == d[t - i]);
    }
    lemma_digit_run_exact(v, i, d.len() as int);
    lemma_dec_value_of(n as nat);
    assert(v.subrange(i, i + d.len() as int) == d);
}

/// A canonical string literal embedded at index `i` parses back to
/// its contents.
pub proof fn lemma_parse_json_string_at(v: Seq<char>, i: int, s: Seq<char>)
    requires
        0 <= i,
        i + json_string(s).len() <= v.len(),
        v.subrange(i, i + json_string(s).len() as int) == json_string(s),
    ensures
        parse_json_string_at(v, i) == Some((s, i + json_string(s).len() as int)),
{
    let q = json_string(s);
    assert(v[i] == q[0]);
    let rest = v.skip(i + q.len() as int);
    let body = escape_str(s) + seq!['"'] + rest;
    assert(v.skip(i + 1) =~= body) by {
        assert forall|t: int| 0 <= t < v.len() - i - 1 implies v.skip(i + 1)[t] == body[t] by {
            if t < q.len() - 1 {
                assert(v[i + 1 + t] == q[1 + t]);
                assert(q[1 + t] == (escape_str(s) + seq!['"'])[t]);
            } else {
                assert(v.skip(i + 1)[t] == rest[t - (q.len() - 1)]);
            }
        }
    }
    lemma_parse_escaped(s, rest);
}

// ─── Whitespace trimming ────────────────────────────────────────────

pub open spec fn is_ws(c: char) -> bool {
    c == ' ' || c == '\t' || c == '\n' || c == '\r'
}

pub open spec fn trim_front(s: Seq<char>) -> Seq<char>
    decreases s.len(),
{
    if s.len() > 0 && is_ws(s.first()) {
        trim_front(s.drop_first())
    } else {
        s
    }
}

pub open spec fn trim_back(s: Seq<char>) -> Seq<char>
    decreases s.len(),
{
    if s.len() > 0 && is_ws(s.last()) {
        trim_back(s.drop_last())
    } else {
        s
    }
}

/// ASCII-whitespace trim on both ends.
pub open spec fn trim_spec(s: Seq<char>) -> Seq<char> {
    trim_back(trim_front(s))
}

/// Whether `c` is ASCII whitespace.
pub fn is_ws_exec(c: char) -> (r: bool)
    ensures
        r == is_ws(c),
{
    c == ' ' || c == '\t' || c == '\n' || c == '\r'
}

/// The characters of `v` with leading and trailing ASCII whitespace
/// removed.
pub fn trim_chars(v: &Vec<char>) -> (r: Vec<char>)
    ensures
        r@ == trim_spec(v@),
{
    proof {
        assert(v@.skip(0) =~= v@);
    }
    let mut a: usize = 0;
    while a < v.len() && is_ws_exec(v[a])
        invariant
            a <= v@.len(),
            trim_front(v@) == trim_front(v@.skip(a as int)),
        decreases v@.len() - a,
    {
        proof {
            assert(v@.skip(a as int).first() == v@[a as int]);
            assert(v@.skip(a as int).drop_first() =~= v@.skip(a as int + 1));
        }
        a = a + 1;
    }
    proof {
        assert(trim_front(v@.skip(a as int)) == v@.skip(a as int)) by {
            if a < v@.len() {
                assert(v@.skip(a as int).first() == v@[a as int]);
            }
        }
    }
    let mut b: usize = v.len();
    while b > a && is_ws_exec(v[b - 1])
        invariant
            a <= b <= v@.len(),
            trim_front(v@) == v@.skip(a as int),
            trim_back(v@.skip(a as int)) == trim_back(v@.subrange(a as int, b as int)),
        decreases b,
    {
        proof {
            let cur = v@.subrange(a as int, b as int);
            assert(cur.last() == v@[b - 1]);
            assert(cur.drop_last() =~= v@.subrange(a as int, b as int - 1));
        }
        b = b - 1;
    }
    proof {
        assert(trim_back(v@.subrange(a as int, b as int)) == v@.subrange(a as int, b as int)) by {
            if b > a {
                assert(v@.subrange(a as int, b as int).last() == v@[b - 1]);
            }
        }
        assert(v@.skip(a as int) =~= v@.subrange(a as int, v@.len() as int));
    }
    let mut out: Vec<char> = Vec::new();
    let mut k: usize = a;
    while k < b
        invariant
            a <= k <= b <= v@.len(),
            out@ =~= v@.subrange(a as int, k as int),
        decreases b - k,
    {
        out.push(v[k]);
        proof {
            assert(v@.subrange(a as int, k as int + 1) =~= v@.subrange(a as int, k as int) + seq![
                v@[k as int],
            ]);
        }
        k = k + 1;
    }
    out
}

/// The value of a lowercase hexadecimal digit character.
pub fn hex_val_exec(c: char) -> (r: Option<u8>)
    ensures
        match r {
            Some(d) => is_hex_digit(c) && d == hex_val(c) && d < 16,
            None => !is_hex_digit(c),
        },
{
    let n = c as u32;
    if n >= '0' as u32 && n <= '9' as u32 {
        Some((n - '0' as u32) as u8)
    } else if n >= 'a' as u32 && n <= 'f' as u32 {
        Some((n - 'a' as u32 + 10) as u8)
    } else {
        None
    }
}

/// The character with code `code` (a control character).
pub fn code_to_char(code: u8) -> (c: char)
    ensures
        c == (code as char),
{
    code as char
}

} // verus!
