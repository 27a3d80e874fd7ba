//! Checksums and unique identifiers.

use crate::numbers::hex;
use base64::engine::general_purpose::URL_SAFE_NO_PAD;
use base64::Engine;
use md5::{Digest, Md5};
use sha2::Sha256;
use uuid::Uuid;
use vstd::prelude::*;

verus! {

/// The MD5 checksum of bytes.
pub uninterp spec fn md5_of(data: Seq<u8>) -> Seq<u8>;

/// The SHA-256 checksum of bytes.
pub uninterp spec fn sha256_of(data: Seq<u8>) -> Seq<u8>;

/// `Md5::digest`: sixteen bytes that depend on the data alone.
#[verifier::external_body]
pub(crate) fn md5_digest(data: &[u8]) -> (sum: Vec<u8>)
    ensures
        sum@ == md5_of(data@),
        sum@.len() == 16,
{
    Md5::digest(data).to_vec()
}

/// `Sha256::digest`: thirty-two bytes that depend on the data alone.
#[verifier::external_body]
pub(crate) fn sha256_digest(data: &[u8]) -> (sum: Vec<u8>)
    ensures
        sum@ == sha256_of(data@),
        sum@.len() == 32,
{
    Sha256::digest(data).to_vec()
}

/// The character for six bits in the URL-safe alphabet.
pub open spec fn base64_char(v: int) -> char {
    if v < 26 {
        (v + 'A' as int) as char
    } else if v < 52 {
        (v - 26 + 'a' as int) as char
    } else if v < 62 {
        (v - 52 + '0' as int) as char
    } else if v == 62 {
        '-'
    } else {
        '_'
    }
}

/// The six bits number `i` of the data, zeros following its end.
pub open spec fn sextet(data: Seq<u8>, i: int) -> int {
    let at = 6 * i / 8;
    let next = if at + 1 < data.len() {
        data[at + 1] as int
    } else {
        0
    };
    let pair = data[at] as int * 256 + next;
    if i % 4 == 0 {
        pair / 1024 % 64
    } else if i % 4 == 1 {
        pair / 16 % 64
    } else if i % 4 == 2 {
        pair / 64 % 64
    } else {
        pair / 256 % 64
    }
}

/// The URL-safe base64 notation of data, without padding.
pub open spec fn base64url(data: Seq<u8>) -> Seq<char> {
    Seq::new(((data.len() * 8 + 5) / 6) as nat, |i: int| base64_char(sextet(data, i)))
}

/// `Engine::encode` of `URL_SAFE_NO_PAD`: six bits a character, in the URL-safe alphabet, the
/// last ones filled up with zeros, and no padding characters.
#[verifier::external_body]
pub(crate) fn base64url_encode(data: &[u8]) -> (s: String)
    requires
        data@.len() <= usize::MAX / 4,
    ensures
        s@ == base64url(data@),
{
    URL_SAFE_NO_PAD.encode(data)
}

/// Whether the character is a lower-case hexadecimal digit.
pub open spec fn is_hex_digit(c: char) -> bool {
    ('0' <= c <= '9') || ('a' <= c <= 'f')
}

/// Whether the text is a random identifier: 36 characters, four hyphens, the version digit 4
/// and hexadecimal digits.
pub open spec fn is_uuid(s: Seq<char>) -> bool {
    &&& s.len() == 36
    &&& forall|i: int|
        0 <= i < 36 ==> if i == 8 || i == 13 || i == 18 || i == 23 {
            #[trigger] s[i] == '-'
        } else {
            is_hex_digit(s[i])
        }
    &&& s[14] == '4'
    &&& s[19] == '8' || s[19] == '9' || s[19] == 'a' || s[19] == 'b'
}

/// `Uuid::new_v4`, in its notation by `to_string`: a random identifier of version 4. Two calls
/// may differ; nothing else is claimed of its digits.
#[verifier::external_body]
pub(crate) fn random_uuid() -> (s: String)
    ensures
        is_uuid(s@),
{
    Uuid::new_v4().to_string()
}

/// The checksum of bytes as an entity tag: hexadecimal MD5 in quotes.
pub open spec fn etag_of(data: Seq<u8>) -> Seq<char> {
    seq!['"'] + hex(md5_of(data)) + seq!['"']
}

} // verus!
