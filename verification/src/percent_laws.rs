//! What percent-encoded text denotes, byte by byte.

use crate::percent::{decoded, percent_decoded};
use vstd::prelude::*;
use vstd::utf8::{encode_utf8, encode_utf8_decode_utf8, encode_utf8_valid_utf8};

verus! {

/// The byte of a hexadecimal digit, as a capital or a small letter.
pub open spec fn hex_byte(v: int, capital: bool) -> u8 {
    if v < 10 {
        (48 + v) as u8
    } else if capital {
        (55 + v) as u8
    } else {
        (87 + v) as u8
    }
}

/// A percent sign and two hexadecimal digits, in either case, stand for one byte; what stands
/// before them without a percent sign stands for itself, and what follows is decoded in turn.
pub proof fn escape_stands_for_its_byte(
    a: Seq<u8>,
    byte: u8,
    first_capital: bool,
    second_capital: bool,
    b: Seq<u8>,
)
    requires
        forall|i: int| 0 <= i < a.len() ==> a[i] != 37,
    ensures
        percent_decoded(
            a + seq![
                37u8,
                hex_byte(byte as int / 16, first_capital),
                hex_byte(byte as int % 16, second_capital),
            ] + b,
        ) == a + seq![byte] + percent_decoded(b),
    decreases a.len(),
{
    let escape = seq![
        37u8,
        hex_byte(byte as int / 16, first_capital),
        hex_byte(byte as int % 16, second_capital),
    ];
    let s = a + escape + b;
    if a.len() == 0 {
        assert(s.skip(3) =~= b);
        assert(s[0] == 37 && s[1] == escape[1] && s[2] == escape[2]);
        assert(percent_decoded(s) =~= a + seq![byte] + percent_decoded(b));
    } else {
        assert(s.drop_first() =~= a.drop_first() + escape + b);
        assert(s[0] == a[0]);
        escape_stands_for_its_byte(a.drop_first(), byte, first_capital, second_capital, b);
        assert(percent_decoded(s) =~= a + seq![byte] + percent_decoded(b));
    }
}

/// A percent sign that two hexadecimal digits do not follow stands for itself, and so does every
/// other byte.
pub proof fn other_bytes_stand_for_themselves(b: Seq<u8>)
    requires
        b.len() > 0,
        b[0] != 37 || b.len() < 3 || !(48 <= b[1] <= 57 || 65 <= b[1] <= 70 || 97 <= b[1] <= 102)
            || !(48 <= b[2] <= 57 || 65 <= b[2] <= 70 || 97 <= b[2] <= 102),
    ensures
        percent_decoded(b) == seq![b[0]] + percent_decoded(b.drop_first()),
        percent_decoded(Seq::empty()).len() == 0,
{
}

/// A text denotes another where its bytes stand for those of the other.
pub proof fn text_denotes_its_bytes(s: Seq<char>, text: Seq<char>)
    requires
        percent_decoded(encode_utf8(s)) == encode_utf8(text),
    ensures
        decoded(s) == Some(text),
{
    encode_utf8_valid_utf8(text);
    encode_utf8_decode_utf8(text);
}

} // verus!
