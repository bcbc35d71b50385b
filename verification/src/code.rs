//! Human-friendly pairing codes and compact size text.

use vstd::prelude::*;

use crate::json::push_lit;
use crate::strings::{chars_of, string_of};
use crate::text::dec_of;

verus! {

/// ASCII lowercase of one character; only ASCII letters change.
pub open spec fn to_lower(c: char) -> char {
    if 'A' <= c && c <= 'Z' {
        (((c as u8) + 32) as char)
    } else {
        c
    }
}

/// Lowercase ASCII letter or digit.
pub open spec fn is_code_char(c: char) -> bool {
    ('a' <= c && c <= 'z') || ('0' <= c && c <= '9')
}

/// One normalization step: alphanumerics pass through lowercased;
/// anything else opens a single hyphen separator (never leading).
pub open spec fn norm_step(acc: (Seq<char>, bool), ch: char) -> (Seq<char>, bool) {
    let c = to_lower(ch);
    if is_code_char(c) {
        (acc.0.push(c), false)
    } else if !acc.1 && acc.0.len() > 0 {
        (acc.0.push('-'), true)
    } else {
        (acc.0, true)
    }
}

pub open spec fn norm_fold(s: Seq<char>) -> (Seq<char>, bool)
    decreases s.len(),
{
    if s.len() == 0 {
        (Seq::empty(), false)
    } else {
        norm_step(norm_fold(s.drop_last()), s.last())
    }
}

/// Drops trailing hyphens.
pub open spec fn strip_trailing(s: Seq<char>) -> Seq<char>
    decreases s.len(),
{
    if s.len() > 0 && s.last() == '-' {
        strip_trailing(s.drop_last())
    } else {
        s
    }
}

/// The normalized form of a user-entered code: lowercase, only
/// `[a-z0-9]` and single hyphens, no leading or trailing hyphen, and
/// a fixed placeholder when nothing remains.
pub open spec fn normalize_spec(s: Seq<char>) -> Seq<char> {
    let t = strip_trailing(norm_fold(s).0);
    if t.len() == 0 {
        "code-code-code"@
    } else {
        t
    }
}

/// Normalize a user-entered code: lowercase, keep only `[a-z0-9]`,
/// collapse everything else into single hyphens, trim hyphens at the
/// ends.
pub fn normalize_code(input: &str) -> (r: String)
    ensures
        r@ == normalize_spec(input@),
{
    let chars = chars_of(input);
    let mut out: Vec<char> = Vec::new();
    let mut in_sep = false;
    let mut i: usize = 0;
    while i < chars.len()
        invariant
            i <= chars@.len(),
            chars@ == input@,
            (out@, in_sep) == norm_fold(input@.take(i as int)),
        decreases chars@.len() - i,
    {
        let ch = chars[i];
        proof {
            assert(input@.take(i as int + 1).drop_last() =~= input@.take(i as int));
            assert(input@.take(i as int + 1).last() == input@[i as int]);
        }
        let c = if 'A' <= ch && ch <= 'Z' {
            ((ch as u8) + 32) as char
        } else {
            ch
        };
        assert(c == to_lower(ch));
        if ('a' <= c && c <= 'z') || ('0' <= c && c <= '9') {
            out.push(c);
            in_sep = false;
        } else {
            if !in_sep && out.len() > 0 {
                out.push('-');
            }
            in_sep = true;
        }
        i = i + 1;
    }
    proof {
        assert(input@.take(input@.len() as int) =~= input@);
    }
    let ghost folded = out@;
    while out.len() > 0 && out[out.len() - 1] == '-'
        invariant
            strip_trailing(folded) == strip_trailing(out@),
        decreases out@.len(),
    {
        let ghost before = out@;
        out.pop();
        proof {
            assert(out@ =~= before.drop_last());
        }
    }
    if out.len() == 0 {
        string_of(&chars_of("code-code-code"))
    } else {
        string_of(&out)
    }
}

/// Relies on `petname::petname`: a random phrase from its bundled
/// word lists, `None` only if a list is empty.  It panics only if the
/// operating system's randomness source fails at first use.
#[verifier::external_body]
fn petname_phrase(words: u8) -> (r: Option<String>) {
    petname::petname(words, "-")
}

/// Generate a human-friendly pairing code like "brave-sky-otter":
/// a random phrase of `words` words (clamped to 2..=6), normalized.
pub fn generate_code(words: usize) -> (r: String)
    ensures
        exists|s: Seq<char>| r@ == #[trigger] normalize_spec(s),
{
    let w: u8 = if words < 2 {
        2
    } else if words > 6 {
        6
    } else {
        words as u8
    };
    match petname_phrase(w) {
        Some(s) => normalize_code(s.as_str()),
        None => normalize_code(""),
    }
}

/// Produce a compact, human-readable size string with two decimals,
/// rounded to nearest (ties to even): `999.00 B`, `2.00 KB`, ... up
/// to TB.
pub fn human_size(bytes: u64) -> (r: String)
    ensures
        r@ == human_size_spec(bytes),
{
    let mut out: Vec<char> = Vec::new();
    if bytes < 1024 {
        crate::text::emit_u64(&mut out, bytes);
        push_lit(&mut out, ".00 B");
    } else if bytes < 1024 * 1024 {
        crate::protocol::emit_scaled_hundredths(&mut out, bytes, 1024);
        push_lit(&mut out, " KB");
    } else if bytes < 1024 * 1024 * 1024 {
        crate::protocol::emit_scaled_hundredths(&mut out, bytes, 1024 * 1024);
        push_lit(&mut out, " MB");
    } else if bytes < 1024 * 1024 * 1024 * 1024 {
        crate::protocol::emit_scaled_hundredths(&mut out, bytes, 1024 * 1024 * 1024);
        push_lit(&mut out, " GB");
    } else {
        crate::protocol::emit_scaled_hundredths(&mut out, bytes, 1024 * 1024 * 1024 * 1024);
        push_lit(&mut out, " TB");
    }
    string_of(&out)
}

pub open spec fn human_size_spec(bytes: u64) -> Seq<char> {
    if bytes < 1024 {
        dec_of(bytes as nat) + ".00 B"@
    } else if bytes < 1024 * 1024 {
        crate::protocol::scaled_hundredths(bytes as nat, 1024) + " KB"@
    } else if bytes < 1024 * 1024 * 1024 {
        crate::protocol::scaled_hundredths(bytes as nat, 1024 * 1024) + " MB"@
    } else if bytes < 1024 * 1024 * 1024 * 1024 {
        crate::protocol::scaled_hundredths(bytes as nat, 1024 * 1024 * 1024) + " GB"@
    } else {
        crate::protocol::scaled_hundredths(bytes as nat, 1024 * 1024 * 1024 * 1024) + " TB"@
    }
}

} // verus!
