//! Bytes made readable, for looking at blocks.

use crate::text::all_ascii;
use crate::text::ascii_chars;
use crate::text::ascii_string;
use vstd::prelude::*;

verus! {

/// The lower-case hexadecimal digit of `v`, which is below 16.
pub open spec fn hex_digit(v: int) -> u8 {
    if v < 10 {
        (48 + v) as u8
    } else {
        (87 + v) as u8
    }
}

/// One byte made readable: a backslash twice, a printable ASCII byte as
/// it is, any other byte as `\x` and two hexadecimal digits.
pub open spec fn debug_byte(b: u8) -> Seq<u8> {
    if b == 92 {
        seq![92u8, 92u8]
    } else if 32 <= b < 127 {
        seq![b]
    } else {
        seq![92u8, 120u8, hex_digit(b as int / 16), hex_digit(b as int % 16)]
    }
}

/// The first `n` bytes of `src` made readable.
pub open spec fn debug_text(src: Seq<u8>, n: nat) -> Seq<u8>
    decreases n,
{
    if n == 0 {
        Seq::empty()
    } else {
        debug_text(src, (n - 1) as nat) + debug_byte(src[n - 1])
    }
}

fn hex_digit_of(v: u8) -> (r: u8)
    requires
        v < 16,
    ensures
        r == hex_digit(v as int),
        r < 128,
{
    if v < 10 {
        48 + v
    } else {
        87 + v
    }
}

/// Makes bytes readable as text.
pub fn debug_bytes(src: &[u8]) -> (r: String)
    ensures
        r@ == ascii_chars(debug_text(src@, src@.len())),
{
    let mut dst: Vec<u8> = Vec::new();
    let mut i: usize = 0;
    while i < src.len()
        invariant
            i <= src@.len(),
            dst@ == debug_text(src@, i as nat),
            all_ascii(dst@),
        decreases src@.len() - i,
    {
        let byte = src[i];
        let ghost before = dst@;
        if byte == 92 {
            dst.push(92);
            dst.push(92);
        } else if byte >= 32 && byte < 127 {
            dst.push(byte);
        } else {
            dst.push(92);
            dst.push(120);
            dst.push(hex_digit_of(byte / 16));
            dst.push(hex_digit_of(byte % 16));
        }
        proof {
            assert(dst@ =~= before + debug_byte(byte));
        }
        i = i + 1;
    }
    ascii_string(&dst)
}

} // verus!
