//! Percent-encoded text, and text in UTF-8.

use std::str::Utf8Error;
use std::string::FromUtf8Error;
use vstd::prelude::*;
use vstd::utf8::{decode_utf8, encode_utf8, valid_utf8};

verus! {

/// `std::string::FromUtf8Error`, the error for bytes that are not UTF-8.
#[verifier::external_type_specification]
#[verifier::external_body]
pub struct ExFromUtf8Error(FromUtf8Error);

/// The value of a hexadecimal digit, in either case.
pub open spec fn hex_value(b: u8) -> Option<int> {
    if 48 <= b <= 57 {
        Some(b - 48)
    } else if 65 <= b <= 70 {
        Some(b - 55)
    } else if 97 <= b <= 102 {
        Some(b - 87)
    } else {
        None
    }
}

/// Whether the bytes begin with a percent sign and two hexadecimal digits.
pub open spec fn is_escape(b: Seq<u8>) -> bool {
    b.len() >= 3 && b[0] == 37 && hex_value(b[1]) is Some && hex_value(b[2]) is Some
}

/// Bytes with each percent sign and two hexadecimal digits taken for the byte that they denote.
pub open spec fn percent_decoded(b: Seq<u8>) -> Seq<u8>
    decreases b.len(),
{
    if b.len() == 0 {
        b
    } else if is_escape(b) {
        seq![(hex_value(b[1])->0 * 16 + hex_value(b[2])->0) as u8] + percent_decoded(b.skip(3))
    } else {
        seq![b[0]] + percent_decoded(b.drop_first())
    }
}

/// The bytes that a percent-encoded text denotes.
pub open spec fn decoded_bytes(s: Seq<char>) -> Seq<u8> {
    percent_decoded(encode_utf8(s))
}

/// The text that a percent-encoded text denotes; `None` where its bytes are not UTF-8.
pub open spec fn decoded(s: Seq<char>) -> Option<Seq<char>> {
    if valid_utf8(decoded_bytes(s)) {
        Some(decode_utf8(decoded_bytes(s)))
    } else {
        None
    }
}

/// `urlencoding::decode` takes each percent sign and two hexadecimal digits for a byte, leaves
/// all else as it is, and fails where the bytes that come out are not UTF-8.
#[verifier::external_body]
pub(crate) fn url_decode(s: &str) -> (r: Result<String, FromUtf8Error>)
    ensures
        match r {
            Ok(text) => decoded(s@) == Some(text@),
            Err(_) => decoded(s@) is None,
        },
{
    urlencoding::decode(s).map(|text| text.into_owned())
}

/// `std::str::Utf8Error`, the error for bytes that are not UTF-8.
#[verifier::external_type_specification]
#[verifier::external_body]
pub struct ExUtf8Error(Utf8Error);

/// `std::str::from_utf8` takes bytes for text, and fails where they are not UTF-8.
pub assume_specification[ std::str::from_utf8 ](v: &[u8]) -> (r: Result<&str, Utf8Error>)
    ensures
        match r {
            Ok(text) => valid_utf8(v@) && text@ == decode_utf8(v@),
            Err(_) => !valid_utf8(v@),
        },
;

/// Bytes without a percent sign are decoded as they are.
proof fn lemma_nothing_escaped(b: Seq<u8>)
    requires
        forall|i: int| 0 <= i < b.len() ==> b[i] != 37,
    ensures
        percent_decoded(b) == b,
    decreases b.len(),
{
    if b.len() > 0 {
        lemma_nothing_escaped(b.drop_first());
        assert(seq![b[0]] + b.drop_first() =~= b);
    }
}

/// Text without a percent sign in its bytes denotes itself.
pub proof fn plain_text_decodes_to_itself(s: Seq<char>)
    requires
        forall|i: int| 0 <= i < encode_utf8(s).len() ==> encode_utf8(s)[i] != 37,
    ensures
        decoded(s) == Some(s),
{
    lemma_nothing_escaped(encode_utf8(s));
    vstd::utf8::encode_utf8_valid_utf8(s);
    vstd::utf8::encode_utf8_decode_utf8(s);
}

} // verus!
