//! Identifiers of multipart uploads.

use crate::clock::Timestamp;
use crate::digest::{base64url, base64url_encode, is_uuid, random_uuid, sha256_digest, sha256_of};
use crate::numbers::{signed_decimal, signed_decimal_text};
use vstd::prelude::*;
use vstd::string::*;
use vstd::utf8::encode_utf8;

verus! {

/// The text that an upload identifier is the checksum of.
pub open spec fn upload_seed(
    bucket: Seq<char>,
    key: Seq<char>,
    nanos: int,
    random: Seq<char>,
) -> Seq<char> {
    bucket + ":"@ + key + ":"@ + signed_decimal(nanos) + ":"@ + random
}

/// The identifier of an upload: the SHA-256 checksum of bucket, key, time and a random text,
/// in URL-safe base64.
pub open spec fn upload_id(
    bucket: Seq<char>,
    key: Seq<char>,
    nanos: int,
    random: Seq<char>,
) -> Seq<char> {
    base64url(sha256_of(encode_utf8(upload_seed(bucket, key, nanos, random))))
}

/// The identifier of an upload at a time and with a random text that are given.
pub fn upload_id_at(bucket: &str, key: &str, nanos: i64, random: &str) -> (s: String)
    ensures
        s@ == upload_id(bucket@, key@, nanos as int, random@),
        s@.len() == 43,
{
    let mut seed = bucket.to_string();
    seed.append(":");
    seed.append(key);
    seed.append(":");
    seed.append(signed_decimal_text(nanos).as_str());
    seed.append(":");
    seed.append(random);
    let sum = sha256_digest(seed.as_str().as_bytes());
    base64url_encode(sum.as_slice())
}

/// Makes an identifier for a multipart upload, out of the time and a random text.
pub fn generate_upload_id(bucket: &str, key: &str) -> (s: String)
    ensures
        exists|nanos: i64, random: Seq<char>|
            is_uuid(random) && s@ == #[trigger] upload_id(bucket@, key@, nanos as int, random),
        s@.len() == 43,
{
    let nanos: i64 = match Timestamp::now().timestamp_nanos() {
        Some(n) => n,
        None => 0,
    };
    let random = random_uuid();
    let s = upload_id_at(bucket, key, nanos, random.as_str());
    assert(is_uuid(random@) && s@ == upload_id(bucket@, key@, nanos as int, random@));
    s
}

} // verus!
