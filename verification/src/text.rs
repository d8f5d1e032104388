//! Text that the library makes: numbers and bytes as ASCII.

use vstd::prelude::*;

verus! {

/// The characters that stand for the ASCII bytes `bytes`.
pub open spec fn ascii_chars(bytes: Seq<u8>) -> Seq<char> {
    Seq::new(bytes.len(), |i: int| bytes[i] as char)
}

/// Whether every byte is an ASCII byte.
pub open spec fn all_ascii(bytes: Seq<u8>) -> bool {
    forall|i: int| 0 <= i < bytes.len() ==> bytes[i] < 128
}

/// `String::from_utf8_lossy` (std) on ASCII bytes, made an owned string:
/// each byte below 128 is the UTF-8 encoding of the character with its
/// number, so the string has one character for each byte.
#[verifier::external_body]
fn ascii_to_string(bytes: &[u8]) -> (s: String)
    requires
        all_ascii(bytes@),
    ensures
        s@ == ascii_chars(bytes@),
{
    String::from_utf8_lossy(bytes).into_owned()
}

/// The string of the ASCII bytes `bytes`.
pub fn ascii_string(bytes: &Vec<u8>) -> (s: String)
    requires
        all_ascii(bytes@),
    ensures
        s@ == ascii_chars(bytes@),
{
    ascii_to_string(bytes.as_slice())
}

/// The decimal digits of `n`, as ASCII bytes.
pub open spec fn decimal_digits(n: nat) -> Seq<u8>
    decreases n,
{
    if n < 10 {
        seq![(48 + n) as u8]
    } else {
        decimal_digits(n / 10).push((48 + n % 10) as u8)
    }
}

/// The decimal text of `v`, as ASCII bytes: a minus sign where `v` is
/// negative, then the digits.
pub open spec fn decimal_text(v: int) -> Seq<u8> {
    if v < 0 {
        seq![45u8] + decimal_digits((-v) as nat)
    } else {
        decimal_digits(v as nat)
    }
}

/// Decimal digits are ASCII bytes.
pub proof fn lemma_decimal_digits_ascii(n: nat)
    ensures
        all_ascii(decimal_digits(n)),
        decimal_digits(n).len() >= 1,
    decreases n,
{
    if n >= 10 {
        lemma_decimal_digits_ascii(n / 10);
    }
}

/// Writes the decimal digits of `n` behind `out`.
pub fn push_digits(out: &mut Vec<u8>, n: u64)
    ensures
        final(out)@ == old(out)@ + decimal_digits(n as nat),
{
    let ghost before = out@;
    // The digits come out lowest first.
    let mut rev: Vec<u8> = Vec::new();
    let mut rest: u64 = n;
    while rest >= 10
        invariant
            decimal_digits(rest as nat) + rev@.reverse() == decimal_digits(n as nat),
        decreases rest,
    {
        let digit: u8 = 48 + (rest % 10) as u8;
        let ghost old_rev = rev@;
        let ghost old_rest = rest;
        rev.push(digit);
        rest = rest / 10;
        proof {
            assert(rev@.reverse() =~= seq![digit] + old_rev.reverse());
            assert(decimal_digits(old_rest as nat) =~= decimal_digits(rest as nat) + seq![digit]);
            assert(decimal_digits(rest as nat) + rev@.reverse() =~= decimal_digits(old_rest as nat)
                + old_rev.reverse());
        }
    }
    let last: u8 = 48 + rest as u8;
    out.push(last);
    let mut i: usize = rev.len();
    let ghost digits = decimal_digits(n as nat);
    proof {
        assert(decimal_digits(rest as nat) =~= seq![last]);
        assert(seq![last] + rev@.reverse() =~= digits);
    }
    while i > 0
        invariant
            i <= rev@.len(),
            digits == seq![last] + rev@.reverse(),
            out@ == before + digits.subrange(0, 1 + rev@.len() - i),
        decreases i,
    {
        i = i - 1;
        out.push(rev[i]);
        proof {
            assert(digits[rev@.len() - i] == rev@.reverse()[rev@.len() - 1 - i]);
            assert(out@ =~= before + digits.subrange(0, 1 + rev@.len() - i));
        }
    }
    proof {
        assert(digits.subrange(0, 1 + rev@.len() as int) =~= digits);
    }
}

/// Writes the decimal text of `v` behind `out`.
pub fn push_decimal(out: &mut Vec<u8>, v: i64)
    ensures
        final(out)@ == old(out)@ + decimal_text(v as int),
{
    let ghost before = out@;
    if v < 0 {
        out.push(45);
        let magnitude: u64 = if v == i64::MIN {
            0x8000_0000_0000_0000
        } else {
            (-v) as u64
        };
        push_digits(out, magnitude);
        assert(out@ =~= before + decimal_text(v as int));
    } else {
        push_digits(out, v as u64);
    }
}

} // verus!
