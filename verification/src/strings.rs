//! Conversions between strings, character vectors and UTF-8 bytes.
//!
//! Wire text is built and parsed as `Vec<char>`; these helpers move
//! between that form, `String`, and the UTF-8 bytes that actually
//! travel.

use vstd::prelude::*;
use vstd::string::StrSliceExecFns;

use crate::errors::TransferError;

verus! {

/// The characters of `s`, in order.
pub fn chars_of(s: &str) -> (r: Vec<char>)
    ensures
        r@ == s@,
{
    let mut out: Vec<char> = Vec::new();
    for c in it: s.chars()
        invariant
            out@ =~= it.seq().take(it.index() as int),
            it.seq() == s@,
    {
        out.push(c);
    }
    proof {
        assert(out@ =~= s@);
    }
    out
}

/// The string holding exactly the characters of `v`.
/// Relies on `String: FromIterator<char>`: collecting characters
/// yields the string of those characters in order.
#[verifier::external_body]
pub fn string_of(v: &Vec<char>) -> (r: String)
    ensures
        r@ == v@,
{
    v.iter().collect()
}

/// The UTF-8 bytes of `s`.
pub fn utf8_bytes_of(s: &str) -> (r: Vec<u8>)
    ensures
        r@ == vstd::utf8::encode_utf8(s@),
{
    s.as_bytes_vec()
}

/// UTF-8 encodes each character as at least one byte.
pub proof fn lemma_encode_utf8_len(chars: Seq<char>)
    ensures
        vstd::utf8::encode_utf8(chars).len() >= chars.len(),
    decreases chars.len(),
{
    if chars.len() > 0 {
        lemma_encode_utf8_len(chars.drop_first());
        let s = chars.first() as u32;
        assert(vstd::utf8::encode_scalar(s).len() >= 1);
    }
}

/// Decodes UTF-8 bytes into a string.
/// Relies on `String::from_utf8`: it accepts exactly the valid UTF-8
/// byte sequences and returns the string they encode.
#[verifier::external_body]
pub fn string_from_utf8(b: Vec<u8>) -> (r: Result<String, TransferError>)
    ensures
        match r {
            Ok(s) => b@ == vstd::utf8::encode_utf8(s@),
            Err(e) => !vstd::utf8::valid_utf8(b@) && e == TransferError::TransferFailed,
        },
{
    String::from_utf8(b).map_err(|_| TransferError::TransferFailed)
}

} // verus!
