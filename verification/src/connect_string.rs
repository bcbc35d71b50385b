//! The connect-string codec: a pairing bundle carried as
//! `p2p-share://v1/` plus unpadded base64url of one canonical JSON
//! object `{ver, salt, meta?}`.

use vstd::prelude::*;

use crate::errors::TransferError;
use crate::json::{json_string, parse_json_string_at, parse_u64_at, emit_json_string,
    parse_json_string, parse_u64, expect_lit, push_lit, is_ws, skip_ws, skip_ws_exec,
    parse_member_key, parse_member_key_exec, chars_eq_str, lemma_parse_member_key,
    lemma_skip_ws_stop, lemma_escape_str_plain, lemma_parse_json_string_at, lemma_parse_dec_at};
use crate::strings::{chars_of, string_of, utf8_bytes_of, string_from_utf8};
use crate::text::{dec_of, emit_u64, is_dec_digit, lemma_dec_of_digits};
use base64::Engine;

verus! {

/// File metadata previewed to the receiver before any transfer.
#[derive(Debug, Clone)]
pub struct ConnectMeta {
    pub name: String,
    pub size: u64,
}

/// The pairing bundle: format version, a base64url salt, and an
/// optional file preview.
#[derive(Debug, Clone)]
pub struct ConnectBundle {
    pub ver: u8,
    pub salt: String,
    pub meta: Option<ConnectMeta>,
}

/// The spec shadow of a bundle.
pub struct BundleModel {
    pub ver: u8,
    pub salt: Seq<char>,
    pub meta: Option<(Seq<char>, u64)>,
}

impl View for ConnectBundle {
    type V = BundleModel;

    open spec fn view(&self) -> BundleModel {
        BundleModel {
            ver: self.ver,
            salt: self.salt@,
            meta: match self.meta {
                Some(m) => Some((m.name@, m.size)),
                None => None,
            },
        }
    }
}

/// The canonical JSON text of the file preview.
pub open spec fn meta_text(name: Seq<char>, size: u64) -> Seq<char> {
    "{"@ + json_string("name"@) + ":"@ + json_string(name) + ","@ + json_string("size"@) + ":"@
        + dec_of(size as nat) + "}"@
}

/// The canonical JSON text of a bundle; the meta field is omitted
/// entirely when absent.
pub open spec fn bundle_text(m: BundleModel) -> Seq<char> {
    let head = "{"@ + json_string("ver"@) + ":"@ + dec_of(m.ver as nat) + ","@ + json_string(
        "salt"@,
    ) + ":"@ + json_string(m.salt);
    match m.meta {
        None => head + "}"@,
        Some((name, size)) => head + ","@ + json_string("meta"@) + ":"@ + meta_text(name, size)
            + "}"@,
    }
}

/// The whole connect string of a bundle.
pub open spec fn connect_text(m: BundleModel) -> Seq<char> {
    "p2p-share://v1/"@ + base64url_of(vstd::utf8::encode_utf8(bundle_text(m)))
}

// ─── Parsing ────────────────────────────────────────────────────────

/// Parses the members of a preview object, starting right after the
/// opening brace: the two fields in any order, each once, whitespace
/// tolerated between tokens.
pub open spec fn parse_meta_fields(
    s: Seq<char>,
    i: int,
    name: Option<Seq<char>>,
    size: Option<u64>,
) -> Option<((Seq<char>, u64), int)>
    decreases s.len() - i,
{
    match parse_member_key(s, i) {
        Some((key, j)) => {
            let stepped: Option<(Option<Seq<char>>, Option<u64>, int)> = if key == "name"@
                && name is None {
                match parse_json_string_at(s, j) {
                    Some((v, k)) => Some((Some(v), size, k)),
                    None => None,
                }
            } else if key == "size"@ && size is None {
                match parse_u64_at(s, j) {
                    Some((v, k)) => Some((name, Some(v), k)),
                    None => None,
                }
            } else {
                None
            };
            match stepped {
                Some((n2, s2, k)) => {
                    let k1 = skip_ws(s, k);
                    if k1 < s.len() && s[k1] == ',' && i < k1 + 1 {
                        parse_meta_fields(s, k1 + 1, n2, s2)
                    } else if k1 < s.len() && s[k1] == '}' {
                        match (n2, s2) {
                            (Some(n), Some(sz)) => Some(((n, sz), k1 + 1)),
                            _ => None,
                        }
                    } else {
                        None
                    }
                },
                None => None,
            }
        },
        None => None,
    }
}

/// Parses a whole preview object at index `i`.
pub open spec fn parse_meta_obj(s: Seq<char>, i: int) -> Option<((Seq<char>, u64), int)> {
    if 0 <= i < s.len() && s[i] == '{' {
        parse_meta_fields(s, i + 1, None, None)
    } else {
        None
    }
}

/// Parses the members of a bundle object, starting right after the
/// opening brace: `ver` and `salt` required, `meta` optional, in any
/// order, each at most once, whitespace tolerated between tokens.
pub open spec fn parse_bundle_fields(
    s: Seq<char>,
    i: int,
    ver: Option<u64>,
    salt: Option<Seq<char>>,
    meta: Option<(Seq<char>, u64)>,
) -> Option<(BundleModel, int)>
    decreases s.len() - i,
{
    match parse_member_key(s, i) {
        Some((key, j)) => {
            let stepped: Option<(Option<u64>, Option<Seq<char>>, Option<(Seq<char>, u64)>, int)> =
                if key == "ver"@ && ver is None {
                match parse_u64_at(s, j) {
                    Some((v, k)) => if v <= 255 {
                        Some((Some(v), salt, meta, k))
                    } else {
                        None
                    },
                    None => None,
                }
            } else if key == "salt"@ && salt is None {
                match parse_json_string_at(s, j) {
                    Some((v, k)) => Some((ver, Some(v), meta, k)),
                    None => None,
                }
            } else if key == "meta"@ && meta is None {
                match parse_meta_obj(s, j) {
                    Some((mv, k)) => Some((ver, salt, Some(mv), k)),
                    None => None,
                }
            } else {
                None
            };
            match stepped {
                Some((v2, s2, m2, k)) => {
                    let k1 = skip_ws(s, k);
                    if k1 < s.len() && s[k1] == ',' && i < k1 + 1 {
                        parse_bundle_fields(s, k1 + 1, v2, s2, m2)
                    } else if k1 < s.len() && s[k1] == '}' {
                        match (v2, s2) {
                            (Some(v), Some(sl)) => Some(
                                (BundleModel { ver: v as u8, salt: sl, meta: m2 }, k1 + 1),
                            ),
                            _ => None,
                        }
                    } else {
                        None
                    }
                },
                None => None,
            }
        },
        None => None,
    }
}

/// Parses a bundle, whole: a JSON object holding `ver` (0..=255) and
/// `salt` (string), and optionally `meta` (an object with `name` and
/// `size`), in any order.
pub open spec fn parse_bundle_text(s: Seq<char>) -> Option<BundleModel> {
    if s.len() > 0 && s[0] == '{' {
        match parse_bundle_fields(s, 1, None, None, None) {
            Some((m, e)) => if e == s.len() {
                Some(m)
            } else {
                None
            },
            None => None,
        }
    } else {
        None
    }
}

/// The canonical literal chunks split into separator, quoted key and
/// colon.
proof fn lemma_bundle_key_chunks()
    ensures
        "{\"ver\":"@ == "{"@ + json_string("ver"@) + ":"@,
        ",\"salt\":"@ == ","@ + json_string("salt"@) + ":"@,
        ",\"meta\":{\"name\":"@ == ","@ + json_string("meta"@) + ":"@ + "{"@ + json_string(
            "name"@,
        ) + ":"@,
        ",\"size\":"@ == ","@ + json_string("size"@) + ":"@,
        json_string("ver"@).len() == 5,
        json_string("salt"@).len() == 6,
        json_string("meta"@).len() == 6,
        json_string("name"@).len() == 6,
        json_string("size"@).len() == 6,
{
    reveal_strlit("{\"ver\":");
    reveal_strlit(",\"salt\":");
    reveal_strlit(",\"meta\":{\"name\":");
    reveal_strlit(",\"size\":");
    reveal_strlit("{");
    reveal_strlit(":");
    reveal_strlit(",");
    reveal_strlit("ver");
    reveal_strlit("salt");
    reveal_strlit("meta");
    reveal_strlit("name");
    reveal_strlit("size");
    lemma_escape_str_plain("ver"@);
    lemma_escape_str_plain("salt"@);
    lemma_escape_str_plain("meta"@);
    lemma_escape_str_plain("name"@);
    lemma_escape_str_plain("size"@);
    assert("{\"ver\":"@ =~= "{"@ + json_string("ver"@) + ":"@);
    assert(",\"salt\":"@ =~= ","@ + json_string("salt"@) + ":"@);
    assert(",\"meta\":{\"name\":"@ =~= ","@ + json_string("meta"@) + ":"@ + "{"@ + json_string(
        "name"@,
    ) + ":"@);
    assert(",\"size\":"@ =~= ","@ + json_string("size"@) + ":"@);
}

/// The canonical bundle text always parses back to its model.
pub proof fn lemma_bundle_round_trip(m: BundleModel)
    ensures
        parse_bundle_text(bundle_text(m)) == Some(m),
{
    match m.meta {
        None => lemma_bundle_round_trip_bare(m),
        Some(p) => lemma_bundle_round_trip_meta(m),
    }
}

#[verifier::rlimit(100)]
proof fn lemma_bundle_round_trip_bare(m: BundleModel)
    requires
        m.meta is None,
    ensures
        parse_bundle_text(bundle_text(m)) == Some(m),
{
    reveal_strlit("{");
    reveal_strlit(":");
    reveal_strlit(",");
    reveal_strlit("}");
    lemma_bundle_key_chunks();
    let qk1 = json_string("ver"@);
    let qk2 = json_string("salt"@);
    let dv = dec_of(m.ver as nat);
    let qs = json_string(m.salt);
    let s = bundle_text(m);
    let b1 = 1int;
    let b2 = b1 + qk1.len();
    let b3 = b2 + 1;
    let b4 = b3 + dv.len();
    let b5 = b4 + 1;
    let b6 = b5 + qk2.len();
    let b7 = b6 + 1;
    let b8 = b7 + qs.len();
    assert(s.len() == b8 + 1);
    assert(s[0] == '{');
    assert(s.subrange(b1, b2) =~= qk1);
    assert(s[b2] == ':');
    assert(s.subrange(b3, b4) =~= dv);
    assert(s[b4] == ',');
    assert(s.subrange(b5, b6) =~= qk2);
    assert(s[b6] == ':');
    assert(s.subrange(b7, b8) =~= qs);
    assert(s[b8] == '}');
    lemma_dec_of_digits(m.ver as nat);
    assert(parse_bundle_fields(s, b5, Some(m.ver as u64), None, None) == Some((m, b8 + 1))) by {
        assert(qs[0] == '"' && !is_ws('"'));
        lemma_parse_member_key(s, b5, "salt"@);
        lemma_parse_json_string_at(s, b7, m.salt);
        lemma_skip_ws_stop(s, b8);
    }
    assert(parse_bundle_fields(s, b1, None, None, None) == Some((m, b8 + 1))) by {
        assert(is_dec_digit(dv[0]) && !is_ws(dv[0]));
        lemma_parse_member_key(s, b1, "ver"@);
        assert(s[b3 + dv.len()] == ',' && !is_dec_digit(','));
        lemma_parse_dec_at(s, b3, m.ver as u64);
        lemma_skip_ws_stop(s, b4);
    }
}

#[verifier::rlimit(100)]
proof fn lemma_bundle_round_trip_meta(m: BundleModel)
    requires
        m.meta is Some,
    ensures
        parse_bundle_text(bundle_text(m)) == Some(m),
{
    reveal_strlit("{");
    reveal_strlit(":");
    reveal_strlit(",");
    reveal_strlit("}");
    lemma_bundle_key_chunks();
    let pair = m.meta->0;
    let name = pair.0;
    let size = pair.1;
    let qk1 = json_string("ver"@);
    let qk2 = json_string("salt"@);
    let qk3 = json_string("meta"@);
    let qkn = json_string("name"@);
    let qks = json_string("size"@);
    let dv = dec_of(m.ver as nat);
    let qs = json_string(m.salt);
    let qn = json_string(name);
    let ds = dec_of(size as nat);
    let s = bundle_text(m);
    let b1 = 1int;
    let b2 = b1 + qk1.len();
    let b3 = b2 + 1;
    let b4 = b3 + dv.len();
    let b5 = b4 + 1;
    let b6 = b5 + qk2.len();
    let b7 = b6 + 1;
    let b8 = b7 + qs.len();
    let b9 = b8 + 1;
    let b10 = b9 + qk3.len();
    let b11 = b10 + 1;
    let c1 = b11 + 1;
    let c2 = c1 + qkn.len();
    let c3 = c2 + 1;
    let c4 = c3 + qn.len();
    let c5 = c4 + 1;
    let c6 = c5 + qks.len();
    let c7 = c6 + 1;
    let c8 = c7 + ds.len();
    assert(s.len() == c8 + 2);
    assert(s[0] == '{');
    assert(s.subrange(b1, b2) =~= qk1);
    assert(s[b2] == ':');
    assert(s.subrange(b3, b4) =~= dv);
    assert(s[b4] == ',');
    assert(s.subrange(b5, b6) =~= qk2);
    assert(s[b6] == ':');
    assert(s.subrange(b7, b8) =~= qs);
    assert(s[b8] == ',');
    assert(s.subrange(b9, b10) =~= qk3);
    assert(s[b10] == ':');
    assert(s[b11] == '{');
    assert(s.subrange(c1, c2) =~= qkn);
    assert(s[c2] == ':');
    assert(s.subrange(c3, c4) =~= qn);
    assert(s[c4] == ',');
    assert(s.subrange(c5, c6) =~= qks);
    assert(s[c6] == ':');
    assert(s.subrange(c7, c8) =~= ds);
    assert(s[c8] == '}');
    assert(s[c8 + 1] == '}');
    lemma_dec_of_digits(m.ver as nat);
    lemma_dec_of_digits(size as nat);
    assert(parse_meta_fields(s, c5, Some(name), None) == Some(((name, size), c8 + 1))) by {
        assert(is_dec_digit(ds[0]) && !is_ws(ds[0]));
        lemma_parse_member_key(s, c5, "size"@);
        assert(s[c7 + ds.len()] == '}' && !is_dec_digit('}'));
        lemma_parse_dec_at(s, c7, size);
        lemma_skip_ws_stop(s, c8);
    }
    assert(parse_meta_obj(s, b11) == Some(((name, size), c8 + 1))) by {
        assert(qn[0] == '"' && !is_ws('"'));
        lemma_parse_member_key(s, c1, "name"@);
        lemma_parse_json_string_at(s, c3, name);
        lemma_skip_ws_stop(s, c4);
    }
    assert(parse_bundle_fields(s, b9, Some(m.ver as u64), Some(m.salt), None) == Some(
        (m, c8 + 2),
    )) by {
        assert(!is_ws('{'));
        lemma_parse_member_key(s, b9, "meta"@);
        lemma_skip_ws_stop(s, c8 + 1);
    }
    assert(parse_bundle_fields(s, b5, Some(m.ver as u64), None, None) == Some((m, c8 + 2))) by {
        assert(qs[0] == '"' && !is_ws('"'));
        lemma_parse_member_key(s, b5, "salt"@);
        lemma_parse_json_string_at(s, b7, m.salt);
        lemma_skip_ws_stop(s, b8);
    }
    assert(parse_bundle_fields(s, b1, None, None, None) == Some((m, c8 + 2))) by {
        assert(is_dec_digit(dv[0]) && !is_ws(dv[0]));
        lemma_parse_member_key(s, b1, "ver"@);
        assert(s[b3 + dv.len()] == ',' && !is_dec_digit(','));
        lemma_parse_dec_at(s, b3, m.ver as u64);
        lemma_skip_ws_stop(s, b4);
    }
}

// ─── base64url (unpadded), via the base64 crate ─────────────────────

/// The unpadded base64url text of a byte string, as the base64
/// crate's url-safe engine produces it: a function of the bytes
/// alone.
pub uninterp spec fn base64url_of(bytes: Seq<u8>) -> Seq<char>;

/// Relies on `base64`'s `URL_SAFE_NO_PAD` engine `encode`: unpadded
/// base64url text of the input bytes, drawn from the `A-Za-z0-9-_`
/// alphabet.
#[verifier::external_body]
fn base64url_encode(bytes: &[u8]) -> (r: String)
    ensures
        r@ == base64url_of(bytes@) && (forall|i: int|
            0 <= i < r@.len() ==> crate::text::is_base64url_char(#[trigger] r@[i])),
{
    base64::engine::general_purpose::URL_SAFE_NO_PAD.encode(bytes)
}

/// Relies on `base64`'s `URL_SAFE_NO_PAD` engine `decode`: with
/// padding refused and trailing bits checked it accepts exactly the
/// encoder's outputs and inverts it.
#[verifier::external_body]
fn base64url_decode(text: &str) -> (r: Result<Vec<u8>, TransferError>)
    ensures
        match r {
            Ok(b) => text@ == base64url_of(b@) && (forall|c: Seq<u8>|
                text@ == #[trigger] base64url_of(c) ==> c == b@),
            Err(e) => e == TransferError::BadTicket && (forall|c: Seq<u8>|
                text@ != #[trigger] base64url_of(c)),
        },
{
    base64::engine::general_purpose::URL_SAFE_NO_PAD.decode(text.as_bytes()).map_err(
        |_| TransferError::BadTicket,
    )
}

// ─── Build and parse ────────────────────────────────────────────────

/// Builds the connect string for a fresh salt and an optional file
/// preview; the bundle is always version 1.
pub fn build_connect_string(meta: Option<ConnectMeta>, salt: &[u8; 16]) -> (r: Result<
    String,
    TransferError,
>)
    ensures
        r matches Ok(t) && t@ == connect_text(
            BundleModel {
                ver: 1,
                salt: base64url_of(salt@),
                meta: match meta {
                    Some(m) => Some((m.name@, m.size)),
                    None => None,
                },
            },
        ),
{
    let salt_text = base64url_encode(salt.as_slice());
    let mut out: Vec<char> = Vec::new();
    push_lit(&mut out, "{\"ver\":");
    emit_u64(&mut out, 1);
    push_lit(&mut out, ",\"salt\":");
    let sc = chars_of(salt_text.as_str());
    emit_json_string(&mut out, &sc);
    match &meta {
        None => {
            push_lit(&mut out, "}");
        },
        Some(m) => {
            push_lit(&mut out, ",\"meta\":{\"name\":");
            let nc = chars_of(m.name.as_str());
            emit_json_string(&mut out, &nc);
            push_lit(&mut out, ",\"size\":");
            emit_u64(&mut out, m.size);
            push_lit(&mut out, "}}");
        },
    }
    let ghost model = BundleModel {
        ver: 1,
        salt: base64url_of(salt@),
        meta: match meta {
            Some(m) => Some((m.name@, m.size)),
            None => None,
        },
    };
    proof {
        lemma_bundle_key_chunks();
        reveal_strlit("}");
        reveal_strlit("}}");
        assert("}}"@ =~= "}"@ + "}"@);
        assert(out@ =~= bundle_text(model));
    }
    let json = string_of(&out);
    let bytes = utf8_bytes_of(json.as_str());
    let b64 = base64url_encode(bytes.as_slice());
    let mut t: Vec<char> = Vec::new();
    push_lit(&mut t, "p2p-share://v1/");
    let bc = chars_of(b64.as_str());
    let mut k: usize = 0;
    let ghost pre = t@;
    while k < bc.len()
        invariant
            k <= bc@.len(),
            t@ =~= pre + bc@.take(k as int),
        decreases bc@.len() - k,
    {
        t.push(bc[k]);
        proof {
            assert(bc@.take(k as int + 1) =~= bc@.take(k as int) + seq![bc@[k as int]]);
        }
        k = k + 1;
    }
    proof {
        assert(bc@.take(bc@.len() as int) =~= bc@);
        assert(t@ =~= connect_text(model));
    }
    Ok(string_of(&t))
}

/// The view of an optional preview pair.
pub open spec fn opt_meta_view(o: Option<(Vec<char>, u64)>) -> Option<(Seq<char>, u64)> {
    match o {
        Some((n, sz)) => Some((n@, sz)),
        None => None,
    }
}

/// Exec parser for a preview object at index `i`; behaves exactly as
/// [`parse_meta_obj`].
#[verifier::rlimit(60)]
fn parse_meta_exec(v: &Vec<char>, i: usize) -> (r: Option<((Vec<char>, u64), usize)>)
    requires
        i <= v@.len(),
    ensures
        match r {
            Some(((n, sz), e)) => parse_meta_obj(v@, i as int) == Some(((n@, sz), e as int)) && i
                < e <= v@.len(),
            None => parse_meta_obj(v@, i as int) is None,
        },
{
    if i >= v.len() || v[i] != '{' {
        return None;
    }
    let mut name_v: Option<Vec<char>> = None;
    let mut size_v: Option<u64> = None;
    let mut j: usize = i + 1;
    let mut endpos: usize = 0;
    loop
        invariant_except_break
            i + 1 <= j <= v@.len(),
            i < v@.len() && v@[i as int] == '{',
            (match parse_meta_fields(
                v@,
                j as int,
                crate::protocol::opt_chars_view(name_v),
                size_v,
            ) {
                Some((t, e)) => parse_meta_fields(v@, i as int + 1, None, None) == Some((t, e)),
                None => parse_meta_fields(v@, i as int + 1, None, None) is None,
            }),
        ensures
            i < v@.len() && v@[i as int] == '{',
            i < endpos <= v@.len(),
            (match (crate::protocol::opt_chars_view(name_v), size_v) {
                (Some(n), Some(sz)) => parse_meta_fields(v@, i as int + 1, None, None) == Some(
                    ((n, sz), endpos as int),
                ),
                _ => parse_meta_fields(v@, i as int + 1, None, None) is None,
            }),
        decreases v@.len() - j,
    {
        proof {
            reveal_strlit("name");
            reveal_strlit("size");
            assert("name"@ != "size"@) by {
                assert("name"@[0] == 'n' && "size"@[0] == 's');
            }
        }
        let (key, j2) = match parse_member_key_exec(v, j) {
            Some(p) => p,
            None => {
                return None;
            },
        };
        let k: usize;
        if chars_eq_str(&key, "name") {
            if name_v.is_some() {
                return None;
            }
            let (val, kk) = match parse_json_string(v, j2) {
                Some(p) => p,
                None => {
                    return None;
                },
            };
            name_v = Some(val);
            k = kk;
        } else if chars_eq_str(&key, "size") {
            if size_v.is_some() {
                return None;
            }
            let (val, kk) = match parse_u64(v, j2) {
                Some(p) => p,
                None => {
                    return None;
                },
            };
            size_v = Some(val);
            k = kk;
        } else {
            return None;
        }
        let k1 = skip_ws_exec(v, k);
        if k1 < v.len() && v[k1] == ',' {
            j = k1 + 1;
        } else if k1 < v.len() && v[k1] == '}' {
            endpos = k1 + 1;
            break;
        } else {
            return None;
        }
    }
    match (name_v, size_v) {
        (Some(n), Some(sz)) => Some(((n, sz), endpos)),
        _ => None,
    }
}

/// Exec parser for the bundle object; behaves exactly as
/// [`parse_bundle_text`].
#[verifier::rlimit(100)]
fn parse_bundle(v: &Vec<char>) -> (r: Option<ConnectBundle>)
    ensures
        match r {
            Some(b) => parse_bundle_text(v@) == Some(b@),
            None => parse_bundle_text(v@) is None,
        },
{
    if v.len() == 0 || v[0] != '{' {
        return None;
    }
    let mut ver_v: Option<u64> = None;
    let mut salt_v: Option<Vec<char>> = None;
    let mut meta_v: Option<(Vec<char>, u64)> = None;
    let mut j: usize = 1;
    let mut endpos: usize = 0;
    loop
        invariant_except_break
            1 <= j <= v@.len(),
            v@.len() > 0 && v@[0] == '{',
            ver_v matches Some(x) ==> x <= 255,
            (match parse_bundle_fields(
                v@,
                j as int,
                ver_v,
                crate::protocol::opt_chars_view(salt_v),
                opt_meta_view(meta_v),
            ) {
                Some((m, e)) => parse_bundle_fields(v@, 1, None, None, None) == Some((m, e)),
                None => parse_bundle_fields(v@, 1, None, None, None) is None,
            }),
        ensures
            v@.len() > 0 && v@[0] == '{',
            endpos <= v@.len(),
            (match (ver_v, crate::protocol::opt_chars_view(salt_v)) {
                (Some(vr), Some(sl)) => vr <= 255 && parse_bundle_fields(v@, 1, None, None, None)
                    == Some(
                    (
                        BundleModel { ver: vr as u8, salt: sl, meta: opt_meta_view(meta_v) },
                        endpos as int,
                    ),
                ),
                _ => parse_bundle_fields(v@, 1, None, None, None) is None,
            }),
        decreases v@.len() - j,
    {
        proof {
            reveal_strlit("ver");
            reveal_strlit("salt");
            reveal_strlit("meta");
            assert("ver"@ != "salt"@) by {
                assert("ver"@.len() == 3 && "salt"@.len() == 4);
            }
            assert("ver"@ != "meta"@) by {
                assert("ver"@.len() == 3 && "meta"@.len() == 4);
            }
            assert("salt"@ != "meta"@) by {
                assert("salt"@[0] == 's' && "meta"@[0] == 'm');
            }
        }
        let (key, j2) = match parse_member_key_exec(v, j) {
            Some(p) => p,
            None => {
                return None;
            },
        };
        let k: usize;
        if chars_eq_str(&key, "ver") {
            if ver_v.is_some() {
                return None;
            }
            let (val, kk) = match parse_u64(v, j2) {
                Some(p) => p,
                None => {
                    return None;
                },
            };
            if val > 255 {
                return None;
            }
            ver_v = Some(val);
            k = kk;
        } else if chars_eq_str(&key, "salt") {
            if salt_v.is_some() {
                return None;
            }
            let (val, kk) = match parse_json_string(v, j2) {
                Some(p) => p,
                None => {
                    return None;
                },
            };
            salt_v = Some(val);
            k = kk;
        } else if chars_eq_str(&key, "meta") {
            if meta_v.is_some() {
                return None;
            }
            let (mv, kk) = match parse_meta_exec(v, j2) {
                Some(p) => p,
                None => {
                    return None;
                },
            };
            meta_v = Some(mv);
            k = kk;
        } else {
            return None;
        }
        let k1 = skip_ws_exec(v, k);
        if k1 < v.len() && v[k1] == ',' {
            j = k1 + 1;
        } else if k1 < v.len() && v[k1] == '}' {
            endpos = k1 + 1;
            break;
        } else {
            return None;
        }
    }
    if endpos != v.len() {
        return None;
    }
    match (ver_v, salt_v) {
        (Some(vr), Some(sl)) => Some(
            ConnectBundle {
                ver: vr as u8,
                salt: string_of(&sl),
                meta: match meta_v {
                    Some((n, sz)) => Some(ConnectMeta { name: string_of(&n), size: sz }),
                    None => None,
                },
            },
        ),
        _ => None,
    }
}

/// Parses a connect string: the scheme prefix, then base64url of a
/// version-1 bundle object; the bundle's fields may come in any
/// order.  Exactly the canonical strings of version-1 bundles give
/// back exactly the bundle.
#[verifier::rlimit(100)]
pub fn parse_connect_string(s: &str) -> (r: Result<ConnectBundle, TransferError>)
    ensures
        match r {
            Ok(b) => b@.ver == 1 && exists|t: Seq<char>|
                s@ == "p2p-share://v1/"@ + base64url_of(vstd::utf8::encode_utf8(t))
                    && parse_bundle_text(t) == Some(b@),
            Err(e) => e == TransferError::BadTicket,
        },
        forall|m: BundleModel|
            s@ == #[trigger] connect_text(m) && m.ver == 1 ==> (r matches Ok(b) && b@ == m),
{
    broadcast use vstd::utf8::encode_utf8_valid_utf8, vstd::utf8::encode_utf8_decode_utf8;

    proof {
        reveal_strlit("p2p-share://v1/");
    }
    let v = chars_of(s);
    let e1 = match expect_lit(&v, 0, "p2p-share://v1/") {
        Some(e) => e,
        None => {
            proof {
                assert forall|m: BundleModel| s@ != #[trigger] connect_text(m) by {
                    if s@ == connect_text(m) {
                        assert(s@.subrange(0, 15) =~= "p2p-share://v1/"@);
                    }
                }
            }
            return Err(TransferError::BadTicket);
        },
    };
    let mut suffix: Vec<char> = Vec::new();
    let mut k: usize = e1;
    while k < v.len()
        invariant
            e1 <= k <= v@.len(),
            suffix@ =~= v@.subrange(e1 as int, k as int),
        decreases v@.len() - k,
    {
        suffix.push(v[k]);
        proof {
            assert(v@.subrange(e1 as int, k as int + 1) =~= v@.subrange(e1 as int, k as int)
                + seq![v@[k as int]]);
        }
        k = k + 1;
    }
    proof {
        assert(suffix@ =~= v@.skip(e1 as int));
        assert forall|m: BundleModel|
            s@ == #[trigger] connect_text(m) implies suffix@ == base64url_of(
            vstd::utf8::encode_utf8(bundle_text(m)),
        ) by {
            assert(v@.skip(15) =~= base64url_of(vstd::utf8::encode_utf8(bundle_text(m))));
        }
    }
    let b64s = string_of(&suffix);
    let raw = match base64url_decode(b64s.as_str()) {
        Ok(b) => b,
        Err(e) => {
            return Err(e);
        },
    };
    let json_s = match string_from_utf8(raw) {
        Ok(t) => t,
        Err(_) => {
            return Err(TransferError::BadTicket);
        },
    };
    let jv = chars_of(json_s.as_str());
    let ghost decoded = json_s@;
    proof {
        assert forall|m: BundleModel|
            s@ == #[trigger] connect_text(m) implies decoded == bundle_text(m) by {
            assert(vstd::utf8::decode_utf8(vstd::utf8::encode_utf8(decoded)) == decoded);
            assert(vstd::utf8::decode_utf8(vstd::utf8::encode_utf8(bundle_text(m)))
                == bundle_text(m));
        }
        assert forall|m: BundleModel|
            s@ == #[trigger] connect_text(m) implies parse_bundle_text(jv@) == Some(m) by {
            lemma_bundle_round_trip(m);
        }
    }
    let bundle = match parse_bundle(&jv) {
        Some(b) => b,
        None => {
            return Err(TransferError::BadTicket);
        },
    };
    if bundle.ver != 1 {
        return Err(TransferError::BadTicket);
    }
    proof {
        assert(s@ == "p2p-share://v1/"@ + base64url_of(vstd::utf8::encode_utf8(decoded))) by {
            assert(s@ =~= s@.subrange(0, 15) + s@.skip(15));
        }
    }
    Ok(bundle)
}

/// Building and then parsing a connect string gives back the bundle:
/// version 1, the salt's base64url text, and the preview unchanged.
pub fn connect_round_trip(meta: Option<ConnectMeta>, salt: &[u8; 16]) -> (r: Result<
    ConnectBundle,
    TransferError,
>)
    ensures
        r matches Ok(b) && b@ == (BundleModel {
            ver: 1,
            salt: base64url_of(salt@),
            meta: match meta {
                Some(m) => Some((m.name@, m.size)),
                None => None,
            },
        }),
{
    let ghost model = BundleModel {
        ver: 1,
        salt: base64url_of(salt@),
        meta: match &meta {
            Some(m) => Some((m.name@, m.size)),
            None => None,
        },
    };
    let t = match build_connect_string(meta, salt) {
        Ok(t) => t,
        Err(e) => {
            return Err(e);
        },
    };
    match parse_connect_string(t.as_str()) {
        Ok(b) => Ok(b),
        Err(e) => Err(e),
    }
}

} // verus!
