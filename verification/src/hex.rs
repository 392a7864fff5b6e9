//! Rendering a byte block as an uppercase hexadecimal string.

use vstd::prelude::*;
use vstd::string::StrSliceExecFns;
use vstd::string::StringExecFns;

verus! {

/// The uppercase hexadecimal character for a nibble. Callers only pass values
/// below 16; 15 and anything above map to `'F'`.
pub open spec fn hex_char(nibble: u8) -> char {
    if nibble == 0 {
        '0'
    } else if nibble == 1 {
        '1'
    } else if nibble == 2 {
        '2'
    } else if nibble == 3 {
        '3'
    } else if nibble == 4 {
        '4'
    } else if nibble == 5 {
        '5'
    } else if nibble == 6 {
        '6'
    } else if nibble == 7 {
        '7'
    } else if nibble == 8 {
        '8'
    } else if nibble == 9 {
        '9'
    } else if nibble == 10 {
        'A'
    } else if nibble == 11 {
        'B'
    } else if nibble == 12 {
        'C'
    } else if nibble == 13 {
        'D'
    } else if nibble == 14 {
        'E'
    } else {
        'F'
    }
}

/// The hex rendering of a byte sequence: two uppercase hex characters per
/// byte, high nibble first, no separators, in byte order.
pub open spec fn hex_of(bytes: Seq<u8>) -> Seq<char> {
    Seq::new(
        2 * bytes.len(),
        |i: int|
            if i % 2 == 0 {
                hex_char(bytes[i / 2] >> 4)
            } else {
                hex_char(bytes[i / 2] & 0x0F)
            },
    )
}

/// The one-character string for a nibble, taken from a table of the sixteen
/// uppercase hex digits.
fn hex_digit(nibble: u8) -> (r: &'static str)
    requires
        nibble < 16,
    ensures
        r@ =~= seq![hex_char(nibble)],
{
    let digits = "0123456789ABCDEF";
    proof {
        reveal_strlit("0123456789ABCDEF");
    }
    let r = digits.substring_ascii(nibble as usize, nibble as usize + 1);
    proof {
        assert(r@ =~= seq![hex_char(nibble)]);
    }
    r
}

/// Encode a byte block as its hex fingerprint string: two uppercase hex
/// characters for each byte, concatenated in block order.
pub fn to_hex_string(bytes: &Vec<u8>) -> (hex: String)
    ensures
        hex@ == hex_of(bytes@),
{
    let mut hex = String::new();
    let mut i: usize = 0;
    while i < bytes.len()
        invariant
            i <= bytes@.len(),
            hex@ == hex_of(bytes@.take(i as int)),
        decreases bytes@.len() - i,
    {
        let b = bytes[i];
        proof {
            assert(b >> 4 < 16 && b & 0x0F < 16) by (bit_vector);
        }
        hex.append(hex_digit(b >> 4));
        hex.append(hex_digit(b & 0x0F));
        i += 1;
        proof {
            assert(hex@ =~= hex_of(bytes@.take(i as int)));
        }
    }
    proof {
        assert(bytes@.take(bytes@.len() as int) =~= bytes@);
    }
    hex
}

/// Distinct byte sequences of equal length have distinct hex renderings: the
/// encoding loses no information.
pub proof fn lemma_hex_of_injective(a: Seq<u8>, b: Seq<u8>)
    requires
        a.len() == b.len(),
        a != b,
    ensures
        hex_of(a) != hex_of(b),
{
    assert(!(a =~= b));
    let j = choose|j: int| 0 <= j < a.len() && a[j] != b[j];
    let x = a[j];
    let y = b[j];
    assert(x >> 4 != y >> 4 || x & 0x0F != y & 0x0F) by (bit_vector)
        requires
            x != y,
    ;
    assert(x >> 4 < 16 && y >> 4 < 16 && x & 0x0F < 16 && y & 0x0F < 16) by (bit_vector);
    if x >> 4 != y >> 4 {
        assert(hex_of(a)[2 * j] != hex_of(b)[2 * j]);
    } else {
        assert(hex_of(a)[2 * j + 1] != hex_of(b)[2 * j + 1]);
    }
}

} // verus!
