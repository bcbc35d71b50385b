//! Decimal and hexadecimal text, and the conversions between strings
//! and character vectors that the wire codecs build on.

use vstd::prelude::*;

verus! {

// ─── Characters ─────────────────────────────────────────────────────

/// The decimal digit character for `d` (meaningful for `d < 10`).
pub open spec fn dec_digit(d: nat) -> char {
    if d == 0 { '0' }
    else if d == 1 { '1' }
    else if d == 2 { '2' }
    else if d == 3 { '3' }
    else if d == 4 { '4' }
    else if d == 5 { '5' }
    else if d == 6 { '6' }
    else if d == 7 { '7' }
    else if d == 8 { '8' }
    else { '9' }
}

/// The lowercase hexadecimal digit character for `d` (meaningful for `d < 16`).
pub open spec fn hex_digit(d: nat) -> char {
    if d < 10 { dec_digit(d) }
    else if d == 10 { 'a' }
    else if d == 11 { 'b' }
    else if d == 12 { 'c' }
    else if d == 13 { 'd' }
    else if d == 14 { 'e' }
    else { 'f' }
}

pub open spec fn is_dec_digit(c: char) -> bool {
    '0' <= c && c <= '9'
}

/// A character of the unpadded base64url alphabet.
pub open spec fn is_base64url_char(c: char) -> bool {
    ('A' <= c && c <= 'Z') || ('a' <= c && c <= 'z') || ('0' <= c && c <= '9') || c == '-' || c
        == '_'
}

pub open spec fn dec_val(c: char) -> nat {
    ((c as int) - ('0' as int)) as nat
}

pub proof fn lemma_dec_digit_val(d: nat)
    requires
        d < 10,
    ensures
        is_dec_digit(dec_digit(d)),
        dec_val(dec_digit(d)) == d,
{
}

// ─── Decimal text of a natural number ───────────────────────────────

/// Canonical decimal text of `n`: no sign, no leading zero (except "0").
pub open spec fn dec_of(n: nat) -> Seq<char>
    decreases n,
{
    if n < 10 {
        seq![dec_digit(n)]
    } else {
        dec_of(n / 10) + seq![dec_digit(n % 10)]
    }
}

/// The number denoted by a digit string, read left to right.
pub open spec fn dec_value(s: Seq<char>) -> nat
    decreases s.len(),
{
    if s.len() == 0 {
        0
    } else {
        dec_value(s.drop_last()) * 10 + dec_val(s.last())
    }
}

pub proof fn lemma_dec_of_digits(n: nat)
    ensures
        dec_of(n).len() >= 1,
        forall|i: int| 0 <= i < dec_of(n).len() ==> is_dec_digit(#[trigger] dec_of(n)[i]),
    decreases n,
{
    if n < 10 {
        lemma_dec_digit_val(n);
    } else {
        lemma_dec_of_digits(n / 10);
        lemma_dec_digit_val(n % 10);
        assert forall|i: int| 0 <= i < dec_of(n).len() implies is_dec_digit(#[trigger] dec_of(n)[i]) by {
            if i < dec_of(n / 10).len() {
                assert(dec_of(n)[i] == dec_of(n / 10)[i]);
            } else {
                assert(dec_of(n)[i] == dec_digit(n % 10));
            }
        }
    }
}

/// Reading back the canonical decimal text gives the number.
pub proof fn lemma_dec_value_of(n: nat)
    ensures
        dec_value(dec_of(n)) == n,
    decreases n,
{
    if n < 10 {
        lemma_dec_digit_val(n);
        assert(dec_of(n).drop_last() =~= Seq::<char>::empty());
        assert(dec_value(dec_of(n)) == dec_value(Seq::<char>::empty()) * 10 + dec_val(dec_digit(n)));
    } else {
        lemma_dec_value_of(n / 10);
        lemma_dec_digit_val(n % 10);
        assert(dec_of(n).drop_last() =~= dec_of(n / 10));
        assert(dec_of(n).last() == dec_digit(n % 10));
        assert(dec_value(dec_of(n)) == dec_value(dec_of(n / 10)) * 10 + dec_val(dec_digit(n % 10)));
        assert(n == (n / 10) * 10 + n % 10) by (nonlinear_arith);
    }
}

/// Appends the canonical decimal text of `n` to `out`.
pub fn emit_u64(out: &mut Vec<char>, n: u64)
    ensures
        final(out)@ == old(out)@ + dec_of(n as nat),
{
    let mut digits: Vec<char> = Vec::new();
    let mut m: u64 = n;
    loop
        invariant_except_break
            dec_of(n as nat) == dec_of(m as nat) + digits@.reverse(),
        ensures
            dec_of(n as nat) == digits@.reverse(),
        decreases m,
    {
        let d: u64 = m % 10;
        let c = dec_digit_exec(d as u8);
        let ghost prev_m = m as nat;
        let ghost old_digits = digits@;
        digits.push(c);
        proof {
            assert(digits@.reverse() =~= seq![c] + old_digits.reverse());
        }
        m = m / 10;
        proof {
            assert(prev_m == (m as nat) * 10 + (d as nat)) by (nonlinear_arith)
                requires
                    m == prev_m / 10,
                    d == prev_m % 10,
                    prev_m <= u64::MAX,
            ;
        }
        if m == 0 {
            proof {
                assert(prev_m < 10);
                assert(dec_of(prev_m) =~= seq![c]);
                assert(dec_of(n as nat) =~= digits@.reverse());
            }
            break;
        }
        proof {
            assert(prev_m >= 10) by (nonlinear_arith)
                requires
                    prev_m == (m as nat) * 10 + (d as nat),
                    m >= 1,
            ;
            assert(dec_of(prev_m) == dec_of(prev_m / 10) + seq![dec_digit(prev_m % 10)]);
            assert(dec_of(n as nat) =~= dec_of(m as nat) + digits@.reverse());
        }
    }
    let ghost pre = out@;
    proof {
        assert(digits@.take(digits@.len() as int) =~= digits@);
    }
    let mut i: usize = digits.len();
    while i > 0
        invariant
            i <= digits.len(),
            pre + dec_of(n as nat) == out@ + digits@.take(i as int).reverse(),
        decreases i,
    {
        i = i - 1;
        let ghost before = out@;
        out.push(digits[i]);
        proof {
            assert(digits@.take(i as int + 1).reverse() =~= seq![digits@[i as int]] + digits@.take(
                i as int,
            ).reverse());
            assert(before + digits@.take(i as int + 1).reverse() == out@ + digits@.take(
                i as int,
            ).reverse());
        }
    }
    proof {
        assert(digits@.take(0).reverse() =~= Seq::<char>::empty());
        assert(out@ =~= pre + dec_of(n as nat));
    }
}

/// The decimal digit character for `d < 10`.
pub fn dec_digit_exec(d: u8) -> (c: char)
    requires
        d < 10,
    ensures
        c == dec_digit(d as nat),
{
    match d {
        0 => '0',
        1 => '1',
        2 => '2',
        3 => '3',
        4 => '4',
        5 => '5',
        6 => '6',
        7 => '7',
        8 => '8',
        _ => '9',
    }
}

/// The lowercase hexadecimal digit character for `d < 16`.
pub fn hex_digit_exec(d: u8) -> (c: char)
    requires
        d < 16,
    ensures
        c == hex_digit(d as nat),
{
    if d < 10 {
        dec_digit_exec(d)
    } else {
        match d {
            10 => 'a',
            11 => 'b',
            12 => 'c',
            13 => 'd',
            14 => 'e',
            _ => 'f',
        }
    }
}

} // verus!
