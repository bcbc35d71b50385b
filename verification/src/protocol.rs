//! The application protocol: the file header record and the
//! length-prefixed frame layout.

use vstd::prelude::*;

use crate::errors::TransferError;
use crate::json::{json_string, parse_json_string_at, parse_u64_at, lit_at, emit_json_string,
    parse_json_string, parse_u64, expect_lit, push_lit, trim_spec, trim_chars, is_ws, skip_ws,
    skip_ws_exec, parse_member_key, parse_member_key_exec, chars_eq_str, lemma_parse_member_key,
    lemma_skip_ws_stop, lemma_escape_str_plain, lemma_parse_json_string_at, lemma_parse_dec_at};
use crate::strings::{chars_of, string_of, utf8_bytes_of};
use crate::text::{dec_of, dec_digit, emit_u64, is_dec_digit, lemma_dec_of_digits};

verus! {

/// Size of each plaintext chunk before encryption: 60 KiB, kept under
/// the 65,535-byte Noise maximum to leave room for the 16-byte AEAD
/// tag.
pub const CHUNK_SIZE: usize = 60 * 1024;

/// Maximum frame payload: the Noise transport message maximum.
pub const MAX_FRAME: usize = 65535;

/// Header sent by the sender before the file data.
#[derive(Debug, Clone)]
pub struct FileHeader {
    /// Original file name (just the name, no path components).
    pub name: String,
    /// Total size in bytes.
    pub size: u64,
    /// Hex-encoded BLAKE3 hash of the file contents.
    pub blake3: String,
}

/// The canonical single-line JSON text of a header.
pub open spec fn header_text(name: Seq<char>, size: u64, hash: Seq<char>) -> Seq<char> {
    "{"@ + json_string("name"@) + ":"@ + json_string(name) + ","@ + json_string("size"@) + ":"@
        + dec_of(size as nat) + ","@ + json_string("blake3"@) + ":"@ + json_string(hash) + "}"@
}

/// Parses the members of a header object, starting right after the
/// opening brace, with the fields gathered so far: the three fields
/// may come in any order, each exactly once, with whitespace allowed
/// around keys, colons, values and separators.
pub open spec fn parse_header_fields(
    s: Seq<char>,
    i: int,
    name: Option<Seq<char>>,
    size: Option<u64>,
    hash: Option<Seq<char>>,
) -> Option<((Seq<char>, u64, Seq<char>), int)>
    decreases s.len() - i,
{
    match parse_member_key(s, i) {
        Some((key, j)) => {
            let stepped: Option<(Option<Seq<char>>, Option<u64>, Option<Seq<char>>, int)> = if key
                == "name"@ && name is None {
                match parse_json_string_at(s, j) {
                    Some((v, k)) => Some((Some(v), size, hash, k)),
                    None => None,
                }
            } else if key == "size"@ && size is None {
                match parse_u64_at(s, j) {
                    Some((v, k)) => Some((name, Some(v), hash, k)),
                    None => None,
                }
            } else if key == "blake3"@ && hash is None {
                match parse_json_string_at(s, j) {
                    Some((v, k)) => Some((name, size, Some(v), k)),
                    None => None,
                }
            } else {
                None
            };
            match stepped {
                Some((n2, s2, h2, k)) => {
                    let k1 = skip_ws(s, k);
                    if k1 < s.len() && s[k1] == ',' && i < k1 + 1 {
                        parse_header_fields(s, k1 + 1, n2, s2, h2)
                    } else if k1 < s.len() && s[k1] == '}' {
                        match (n2, s2, h2) {
                            (Some(n), Some(sz), Some(h)) => Some(((n, sz, h), k1 + 1)),
                            _ => None,
                        }
                    } else {
                        None
                    }
                },
                None => None,
            }
        },
        None => None,
    }
}

/// Parses a header line, whole: a JSON object holding exactly the
/// fields `name` (string), `size` (u64) and `blake3` (string), in
/// any order.
pub open spec fn parse_header_text(s: Seq<char>) -> Option<(Seq<char>, u64, Seq<char>)> {
    if s.len() > 0 && s[0] == '{' {
        match parse_header_fields(s, 1, None, None, None) {
            Some((t, e)) => if e == s.len() {
                Some(t)
            } else {
                None
            },
            None => None,
        }
    } else {
        None
    }
}

/// The three member keys, escaped, are themselves, so the canonical
/// literal chunks split into brace, quoted key and colon.
proof fn lemma_header_key_chunks()
    ensures
        "{\"name\":"@ == "{"@ + json_string("name"@) + ":"@,
        ",\"size\":"@ == ","@ + json_string("size"@) + ":"@,
        ",\"blake3\":"@ == ","@ + json_string("blake3"@) + ":"@,
        json_string("name"@).len() == 6,
        json_string("size"@).len() == 6,
        json_string("blake3"@).len() == 8,
{
    reveal_strlit("{\"name\":");
    reveal_strlit(",\"size\":");
    reveal_strlit(",\"blake3\":");
    reveal_strlit("{");
    reveal_strlit(":");
    reveal_strlit(",");
    reveal_strlit("name");
    reveal_strlit("size");
    reveal_strlit("blake3");
    lemma_escape_str_plain("name"@);
    lemma_escape_str_plain("size"@);
    lemma_escape_str_plain("blake3"@);
    assert("{\"name\":"@ =~= "{"@ + json_string("name"@) + ":"@);
    assert(",\"size\":"@ =~= ","@ + json_string("size"@) + ":"@);
    assert(",\"blake3\":"@ =~= ","@ + json_string("blake3"@) + ":"@);
}

/// The canonical header text always parses back to its fields.
#[verifier::rlimit(100)]
pub proof fn lemma_header_round_trip(name: Seq<char>, size: u64, hash: Seq<char>)
    ensures
        parse_header_text(header_text(name, size, hash)) == Some((name, size, hash)),
{
    reveal_strlit("{");
    reveal_strlit(":");
    reveal_strlit(",");
    reveal_strlit("}");
    lemma_header_key_chunks();
    let qk1 = json_string("name"@);
    let qk2 = json_string("size"@);
    let qk3 = json_string("blake3"@);
    let q1 = json_string(name);
    let d = dec_of(size as nat);
    let q2 = json_string(hash);
    let s = header_text(name, size, hash);
    let a1 = 1int;
    let a2 = a1 + qk1.len();
    let a3 = a2 + 1;
    let a4 = a3 + q1.len();
    let a5 = a4 + 1;
    let a6 = a5 + qk2.len();
    let a7 = a6 + 1;
    let a8 = a7 + d.len();
    let a9 = a8 + 1;
    let a10 = a9 + qk3.len();
    let a11 = a10 + 1;
    let a12 = a11 + q2.len();
    assert(s.len() == a12 + 1);
    assert(s[0] == '{');
    assert(s.subrange(a1, a2) =~= qk1);
    assert(s[a2] == ':');
    assert(s.subrange(a3, a4) =~= q1);
    assert(s[a4] == ',');
    assert(s.subrange(a5, a6) =~= qk2);
    assert(s[a6] == ':');
    assert(s.subrange(a7, a8) =~= d);
    assert(s[a8] == ',');
    assert(s.subrange(a9, a10) =~= qk3);
    assert(s[a10] == ':');
    assert(s.subrange(a11, a12) =~= q2);
    assert(s[a12] == '}');
    lemma_dec_of_digits(size as nat);
    assert(parse_header_fields(s, a9, Some(name), Some(size), None) == Some(
        ((name, size, hash), a12 + 1),
    )) by {
        assert(q2[0] == '"' && !is_ws('"'));
        lemma_parse_member_key(s, a9, "blake3"@);
        lemma_parse_json_string_at(s, a11, hash);
        lemma_skip_ws_stop(s, a12);
    }
    assert(parse_header_fields(s, a5, Some(name), None, None) == Some(
        ((name, size, hash), a12 + 1),
    )) by {
        assert(d[0] == dec_of(size as nat)[0] && is_dec_digit(d[0]) && !is_ws(d[0]));
        lemma_parse_member_key(s, a5, "size"@);
        assert(s[a7 + d.len()] == ',' && !is_dec_digit(','));
        lemma_parse_dec_at(s, a7, size);
        lemma_skip_ws_stop(s, a8);
    }
    assert(parse_header_fields(s, a1, None, None, None) == Some(((name, size, hash), a12 + 1)))
        by {
        assert(q1[0] == '"' && !is_ws('"'));
        lemma_parse_member_key(s, a1, "name"@);
        lemma_parse_json_string_at(s, a3, name);
        lemma_skip_ws_stop(s, a4);
    }
}

/// The header's wire line starts with `{`, ends with `}`, and so
/// survives trimming once its newline is stripped.
pub proof fn lemma_header_line_trims(name: Seq<char>, size: u64, hash: Seq<char>)
    ensures
        header_text(name, size, hash).len() > 0,
        trim_spec(header_text(name, size, hash) + "\n"@) == header_text(name, size, hash),
{
    reveal_strlit("{");
    reveal_strlit("}");
    let t = header_text(name, size, hash);
    assert(t[0] == '{') by {
        assert(t[0] == "{"@[0]);
    }
    assert(t.last() == '}') by {
        assert(t[t.len() - 1] == "}"@[0]);
    }
    lemma_trim_token_line(t);
}

impl FileHeader {
    /// The canonical JSON line for this header (without the newline).
    pub open spec fn wire_text(&self) -> Seq<char> {
        header_text(self.name@, self.size, self.blake3@)
    }

    /// Encodes the header as its canonical JSON line, newline
    /// terminated, in UTF-8.
    pub fn to_wire(&self) -> (r: Result<Vec<u8>, TransferError>)
        ensures
            r matches Ok(b) && b@ == vstd::utf8::encode_utf8(self.wire_text() + "\n"@),
    {
        let mut out: Vec<char> = Vec::new();
        push_lit(&mut out, "{\"name\":");
        let name_chars = chars_of(self.name.as_str());
        emit_json_string(&mut out, &name_chars);
        push_lit(&mut out, ",\"size\":");
        emit_u64(&mut out, self.size);
        push_lit(&mut out, ",\"blake3\":");
        let hash_chars = chars_of(self.blake3.as_str());
        emit_json_string(&mut out, &hash_chars);
        push_lit(&mut out, "}");
        push_lit(&mut out, "\n");
        proof {
            lemma_header_key_chunks();
            assert(out@ =~= self.wire_text() + "\n"@);
        }
        let text = string_of(&out);
        Ok(utf8_bytes_of(text.as_str()))
    }

    /// Parses a header from its wire line, ignoring surrounding
    /// whitespace: a JSON object with the fields `name`, `size` and
    /// `blake3` in any order, whitespace tolerated between tokens.
    pub fn from_wire(line: &str) -> (r: Result<Self, TransferError>)
        ensures
            match r {
                Ok(h) => parse_header_text(trim_spec(line@)) == Some((h.name@, h.size, h.blake3@)),
                Err(e) => parse_header_text(trim_spec(line@)) is None && e
                    == TransferError::TransferFailed,
            },
    {
        let raw = chars_of(line);
        let v = trim_chars(&raw);
        if v.len() == 0 || v[0] != '{' {
            return Err(TransferError::TransferFailed);
        }
        let mut name_v: Option<Vec<char>> = None;
        let mut size_v: Option<u64> = None;
        let mut hash_v: Option<Vec<char>> = None;
        let mut j: usize = 1;
        let mut endpos: usize = 0;
        loop
            invariant_except_break
                1 <= j <= v@.len(),
                v@.len() > 0 && v@[0] == '{',
                v@ == trim_spec(line@),
                (match parse_header_fields(
                    v@,
                    j as int,
                    opt_chars_view(name_v),
                    size_v,
                    opt_chars_view(hash_v),
                ) {
                    Some((t, e)) => parse_header_fields(v@, 1, None, None, None) == Some((t, e)),
                    None => parse_header_fields(v@, 1, None, None, None) is None,
                }),
            ensures
                v@ == trim_spec(line@),
                v@.len() > 0 && v@[0] == '{',
                endpos <= v@.len(),
                (match (opt_chars_view(name_v), size_v, opt_chars_view(hash_v)) {
                    (Some(n), Some(sz), Some(h)) => parse_header_fields(v@, 1, None, None, None)
                        == Some(((n, sz, h), endpos as int)),
                    _ => parse_header_fields(v@, 1, None, None, None) is None,
                }),
            decreases v@.len() - j,
        {
            proof {
                reveal_strlit("name");
                reveal_strlit("size");
                reveal_strlit("blake3");
                assert("name"@ != "size"@) by {
                    assert("name"@[0] == 'n' && "size"@[0] == 's');
                }
                assert("name"@ != "blake3"@) by {
                    assert("name"@.len() == 4 && "blake3"@.len() == 6);
                }
                assert("size"@ != "blake3"@) by {
                    assert("size"@.len() == 4 && "blake3"@.len() == 6);
                }
            }
            let (key, j2) = match parse_member_key_exec(&v, j) {
                Some(p) => p,
                None => {
                    return Err(TransferError::TransferFailed);
                },
            };
            let k: usize;
            if chars_eq_str(&key, "name") {
                if name_v.is_some() {
                    return Err(TransferError::TransferFailed);
                }
                let (val, kk) = match parse_json_string(&v, j2) {
                    Some(p) => p,
                    None => {
                        return Err(TransferError::TransferFailed);
                    },
                };
                name_v = Some(val);
                k = kk;
            } else if chars_eq_str(&key, "size") {
                if size_v.is_some() {
                    return Err(TransferError::TransferFailed);
                }
                let (val, kk) = match parse_u64(&v, j2) {
                    Some(p) => p,
                    None => {
                        return Err(TransferError::TransferFailed);
                    },
                };
                size_v = Some(val);
                k = kk;
            } else if chars_eq_str(&key, "blake3") {
                if hash_v.is_some() {
                    return Err(TransferError::TransferFailed);
                }
                let (val, kk) = match parse_json_string(&v, j2) {
                    Some(p) => p,
                    None => {
                        return Err(TransferError::TransferFailed);
                    },
                };
                hash_v = Some(val);
                k = kk;
            } else {
                return Err(TransferError::TransferFailed);
            }
            let k1 = skip_ws_exec(&v, k);
            if k1 < v.len() && v[k1] == ',' {
                j = k1 + 1;
            } else if k1 < v.len() && v[k1] == '}' {
                endpos = k1 + 1;
                break;
            } else {
                return Err(TransferError::TransferFailed);
            }
        }
        if endpos != v.len() {
            return Err(TransferError::TransferFailed);
        }
        match (name_v, size_v, hash_v) {
            (Some(n), Some(sz), Some(h)) => Ok(
                FileHeader { name: string_of(&n), size: sz, blake3: string_of(&h) },
            ),
            _ => Err(TransferError::TransferFailed),
        }
    }
}

/// The view of an optional character vector.
pub open spec fn opt_chars_view(o: Option<Vec<char>>) -> Option<Seq<char>> {
    match o {
        Some(v) => Some(v@),
        None => None,
    }
}

/// Format bytes into a human-readable string (e.g. "1.23 MiB").
/// Fractions are rounded to nearest (ties to even) at two decimals.
pub fn human_bytes(bytes: u64) -> (r: String)
    ensures
        r@ == human_bytes_spec(bytes),
{
    let mut out: Vec<char> = Vec::new();
    if bytes < 1024 {
        emit_u64(&mut out, bytes);
        push_lit(&mut out, " B");
    } else if bytes < 1024 * 1024 {
        emit_scaled_hundredths(&mut out, bytes, 1024);
        push_lit(&mut out, " KiB");
    } else if bytes < 1024 * 1024 * 1024 {
        emit_scaled_hundredths(&mut out, bytes, 1024 * 1024);
        push_lit(&mut out, " MiB");
    } else {
        emit_scaled_hundredths(&mut out, bytes, 1024 * 1024 * 1024);
        push_lit(&mut out, " GiB");
    }
    string_of(&out)
}

pub open spec fn human_bytes_spec(bytes: u64) -> Seq<char> {
    if bytes < 1024 {
        dec_of(bytes as nat) + " B"@
    } else if bytes < 1024 * 1024 {
        scaled_hundredths(bytes as nat, 1024) + " KiB"@
    } else if bytes < 1024 * 1024 * 1024 {
        scaled_hundredths(bytes as nat, 1024 * 1024) + " MiB"@
    } else {
        scaled_hundredths(bytes as nat, 1024 * 1024 * 1024) + " GiB"@
    }
}

/// The nearest integer to `100 * b / d`, ties to even — the rounding
/// the standard two-decimal float formatting resolves exact halves
/// with.
pub open spec fn round_hundredths(b: nat, d: nat) -> nat {
    let q = (100 * b) / d;
    let rem = (100 * b) % d;
    if 2 * rem > d {
        q + 1
    } else if 2 * rem < d {
        q
    } else if q % 2 == 1 {
        q + 1
    } else {
        q
    }
}

/// `b / d` with two decimals, rounded to nearest, ties to even.
pub open spec fn scaled_hundredths(b: nat, d: nat) -> Seq<char> {
    let h = round_hundredths(b, d);
    dec_of(h / 100) + "."@ + seq![dec_digit((h / 10) % 10), dec_digit(h % 10)]
}

/// Emits `b / d` with two decimals, rounded to nearest, ties to even.
pub fn emit_scaled_hundredths(out: &mut Vec<char>, b: u64, d: u64)
    requires
        d >= 2,
    ensures
        final(out)@ == old(out)@ + scaled_hundredths(b as nat, d as nat),
{
    let num: u128 = 100u128 * (b as u128);
    let q128: u128 = num / (d as u128);
    let rem: u128 = num % (d as u128);
    let ghost qn: nat = (100 * (b as nat)) / (d as nat);
    proof {
        assert(q128 as nat == qn);
        assert(rem as nat == (100 * (b as nat)) % (d as nat));
        assert(2 * qn <= 100 * (b as nat)) by (nonlinear_arith)
            requires
                d >= 2,
                qn == (100 * (b as nat)) / (d as nat),
        ;
        assert((qn + 1) / 100 <= u64::MAX as nat);
    }
    let round_up: bool = if 2 * rem > (d as u128) {
        true
    } else if 2 * rem < (d as u128) {
        false
    } else {
        q128 % 2 == 1
    };
    let wide: u128 = if round_up {
        q128 + 1
    } else {
        q128
    };
    let ghost hn: nat = round_hundredths(b as nat, d as nat);
    proof {
        assert(wide as nat == hn);
    }
    let h: u64 = (wide / 100) as u64;
    let frac: u64 = (wide % 100) as u64;
    proof {
        assert(h as nat == hn / 100);
        assert(frac < 100);
        assert(frac as nat == hn % 100);
        assert((hn % 100) / 10 == (hn / 10) % 10 && (hn % 100) % 10 == hn % 10)
            by (nonlinear_arith);
    }
    emit_u64(out, h);
    push_lit(out, ".");
    let d1: u64 = frac / 10;
    let d2: u64 = frac % 10;
    let c1 = crate::text::dec_digit_exec(d1 as u8);
    let c2 = crate::text::dec_digit_exec(d2 as u8);
    out.push(c1);
    out.push(c2);
    proof {
        assert(c1 == dec_digit((hn / 10) % 10));
        assert(c2 == dec_digit(hn % 10));
        assert(out@ =~= old(out)@ + scaled_hundredths(b as nat, d as nat));
    }
}

// ─── Acknowledgement tokens ─────────────────────────────────────────

/// The plaintext `b` reads as the token `t` once decoded from UTF-8
/// and trimmed — how the acknowledgements `OK` and `DONE` are
/// recognized.
pub open spec fn token_match(b: Seq<u8>, t: Seq<char>) -> bool {
    exists|s: Seq<char>| b == vstd::utf8::encode_utf8(s) && trim_spec(s) == t
}

/// Whether the plaintext reads as `token` after decoding and
/// trimming.
pub fn check_token(plaintext: &Vec<u8>, token: &str) -> (r: bool)
    ensures
        r == token_match(plaintext@, token@),
{
    broadcast use vstd::utf8::encode_utf8_valid_utf8, vstd::utf8::encode_utf8_decode_utf8;

    let s = match crate::strings::string_from_utf8(plaintext.clone()) {
        Ok(s) => s,
        Err(_) => {
            assert(!token_match(plaintext@, token@)) by {
                if token_match(plaintext@, token@) {
                    let w = choose|w: Seq<char>|
                        plaintext@ == vstd::utf8::encode_utf8(w) && trim_spec(w) == token@;
                    assert(vstd::utf8::valid_utf8(vstd::utf8::encode_utf8(w)));
                }
            }
            return false;
        },
    };
    let chars = chars_of(s.as_str());
    let t = trim_chars(&chars);
    let tok = chars_of(token);
    let eq = chars_eq(&t, &tok);
    proof {
        if eq {
            assert(token_match(plaintext@, token@)) by {
                assert(plaintext@ == vstd::utf8::encode_utf8(s@) && trim_spec(s@) == token@);
            }
        } else {
            if token_match(plaintext@, token@) {
                let w = choose|w: Seq<char>|
                    plaintext@ == vstd::utf8::encode_utf8(w) && trim_spec(w) == token@;
                assert(vstd::utf8::decode_utf8(vstd::utf8::encode_utf8(w)) == w);
                assert(vstd::utf8::decode_utf8(vstd::utf8::encode_utf8(s@)) == s@);
                assert(w == s@);
            }
        }
    }
    eq
}

/// Whether two character vectors hold the same characters.
pub fn chars_eq(a: &Vec<char>, b: &Vec<char>) -> (r: bool)
    ensures
        r == (a@ == b@),
{
    if a.len() != b.len() {
        return false;
    }
    let mut i: usize = 0;
    while i < a.len()
        invariant
            i <= a@.len(),
            a@.len() == b@.len(),
            forall|j: int| 0 <= j < i ==> a@[j] == b@[j],
        decreases a@.len() - i,
    {
        if a[i] != b[i] {
            return false;
        }
        i = i + 1;
    }
    proof {
        assert(a@ =~= b@);
    }
    true
}

/// Trimming a token line with its newline gives back the token.
pub proof fn lemma_trim_token_line(t: Seq<char>)
    requires
        t.len() > 0,
        !is_ws(t.first()),
        !is_ws(t.last()),
    ensures
        trim_spec(t + "\n"@) == t,
{
    reveal_strlit("\n");
    let v = t + "\n"@;
    assert(v.first() == t.first());
    assert(crate::json::trim_front(v) == v);
    assert(v.last() == '\n');
    assert(v.drop_last() =~= t);
    assert(crate::json::trim_back(v) == crate::json::trim_back(t));
    assert(crate::json::trim_back(t) == t);
}

/// The wire bytes of the receiver's `OK` acknowledgement.
pub fn ok_message() -> (r: Vec<u8>)
    ensures
        r@ == vstd::utf8::encode_utf8("OK\n"@),
        token_match(r@, "OK"@),
{
    proof {
        reveal_strlit("OK");
        reveal_strlit("OK\n");
        reveal_strlit("\n");
        assert("OK\n"@ =~= "OK"@ + "\n"@);
        lemma_trim_token_line("OK"@);
    }
    utf8_bytes_of("OK\n")
}

/// The wire bytes of the receiver's final `DONE` acknowledgement.
pub fn done_message() -> (r: Vec<u8>)
    ensures
        r@ == vstd::utf8::encode_utf8("DONE\n"@),
        token_match(r@, "DONE"@),
{
    proof {
        reveal_strlit("DONE");
        reveal_strlit("DONE\n");
        reveal_strlit("\n");
        assert("DONE\n"@ =~= "DONE"@ + "\n"@);
        lemma_trim_token_line("DONE"@);
    }
    utf8_bytes_of("DONE\n")
}

// ─── Frames ─────────────────────────────────────────────────────────

/// A wire frame: four length bytes, big endian, then the payload.
pub open spec fn frame_bytes(p: Seq<u8>) -> Seq<u8> {
    let n = p.len();
    seq![
        ((n / 0x1000000) % 256) as u8,
        ((n / 0x10000) % 256) as u8,
        ((n / 0x100) % 256) as u8,
        (n % 256) as u8,
    ] + p
}

/// The length encoded by a four-byte big-endian prefix.
pub open spec fn frame_len_value(prefix: Seq<u8>) -> nat {
    prefix[0] as nat * 0x1000000 + prefix[1] as nat * 0x10000 + prefix[2] as nat * 0x100
        + prefix[3] as nat
}

/// Wraps a payload in a frame; payloads over [`MAX_FRAME`] are
/// refused.
pub fn encode_frame(p: &Vec<u8>) -> (r: Result<Vec<u8>, TransferError>)
    ensures
        match r {
            Ok(f) => p@.len() <= MAX_FRAME && f@ == frame_bytes(p@),
            Err(e) => p@.len() > MAX_FRAME && e == TransferError::FrameTooLarge,
        },
{
    if p.len() > MAX_FRAME {
        return Err(TransferError::FrameTooLarge);
    }
    let n = p.len();
    let mut out: Vec<u8> = Vec::new();
    out.push(((n / 0x1000000) % 256) as u8);
    out.push(((n / 0x10000) % 256) as u8);
    out.push(((n / 0x100) % 256) as u8);
    out.push((n % 256) as u8);
    let mut i: usize = 0;
    while i < p.len()
        invariant
            i <= p@.len(),
            out@ =~= frame_bytes(p@).take(4 + i as int),
        decreases p@.len() - i,
    {
        out.push(p[i]);
        proof {
            assert(frame_bytes(p@).take(4 + i as int + 1) =~= frame_bytes(p@).take(4 + i as int)
                + seq![p@[i as int]]);
        }
        i = i + 1;
    }
    proof {
        assert(frame_bytes(p@).take(4 + p@.len() as int) =~= frame_bytes(p@));
    }
    Ok(out)
}

/// Reads a frame's length prefix; lengths over [`MAX_FRAME`] are
/// refused.
pub fn parse_frame_len(prefix: &[u8; 4]) -> (r: Result<usize, TransferError>)
    ensures
        match r {
            Ok(l) => frame_len_value(prefix@) <= MAX_FRAME && l == frame_len_value(prefix@),
            Err(e) => frame_len_value(prefix@) > MAX_FRAME && e == TransferError::FrameTooLarge,
        },
{
    let b0 = prefix[0];
    let b1 = prefix[1];
    let b2 = prefix[2];
    let b3 = prefix[3];
    if b0 != 0 || b1 != 0 {
        return Err(TransferError::FrameTooLarge);
    }
    let l: usize = (b2 as usize) * 0x100 + (b3 as usize);
    if l > MAX_FRAME {
        return Err(TransferError::FrameTooLarge);
    }
    Ok(l)
}

/// The frame of a payload always decodes to the payload's length.
pub proof fn lemma_frame_len_round_trip(p: Seq<u8>)
    requires
        p.len() <= MAX_FRAME,
    ensures
        frame_len_value(frame_bytes(p).take(4)) == p.len(),
        frame_bytes(p).skip(4) == p,
{
    let f = frame_bytes(p);
    let n = p.len();
    assert(f.take(4)[0] == ((n / 0x1000000) % 256) as u8);
    assert(f.take(4)[1] == ((n / 0x10000) % 256) as u8);
    assert(f.take(4)[2] == ((n / 0x100) % 256) as u8);
    assert(f.take(4)[3] == (n % 256) as u8);
    assert(n / 0x1000000 == 0 && n / 0x10000 == 0);
    assert((n / 0x100) % 256 * 0x100 + n % 256 == n) by (nonlinear_arith)
        requires
            n <= 65535,
    ;
    assert(f.skip(4) =~= p);
}

} // verus!
