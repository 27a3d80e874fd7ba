//! Addressing: which service a request is for, and which bucket and key.

use crate::message::{field_text, Fields, Headers};
use crate::percent::{decoded, plain_text_decodes_to_itself, url_decode};
use crate::text::{
    chars_of, has_prefix, lemma_split_nonempty, lowercase, optional_text, position, position_of,
    split, split_text, split_words, starts_with, string_of, texts, trim_start, trimmed_from, words,
};
use std::string::FromUtf8Error;
use vstd::prelude::*;
use vstd::string::*;
use vstd::utf8::encode_utf8;

verus! {

/// The errors of address resolution.
#[derive(Debug)]
pub enum AddressError {
    /// The `Host` header is missing or empty.
    MissingHost,
    /// No bucket could be found in the request.
    MissingBucket,
    /// A percent-encoded segment could not be decoded.
    DecodeError(FromUtf8Error),
    /// The request is malformed.
    MalformedRequest(String),
}

/// The index of the first text that begins with `p`.
pub open spec fn first_with_prefix(all: Seq<Seq<char>>, p: Seq<char>) -> Option<int>
    decreases all.len(),
{
    if all.len() == 0 {
        None
    } else if starts_with(all[0], p) {
        Some(0)
    } else {
        match first_with_prefix(all.drop_first(), p) {
            Some(i) => Some(i + 1),
            None => None,
        }
    }
}

/// The service that an `Authorization` header names: the fourth segment of its credential
/// scope, in lower case.
pub open spec fn service_in_auth(auth: Seq<char>) -> Option<Seq<char>> {
    let tokens = words(auth);
    match first_with_prefix(tokens, "Credential="@) {
        None => None,
        Some(i) => {
            let segments = split(tokens[i].skip(11), '/');
            if segments.len() >= 4 {
                Some(lowercase(segments[3]))
            } else {
                None
            }
        },
    }
}

/// The service that an `X-Amz-Target` header names: what stands before the first `.` and,
/// in that, before the first `_`, in lower case.
pub open spec fn service_in_target(target: Seq<char>) -> Option<Seq<char>> {
    let prefix = target.take(position(target, '.', 0));
    let service = prefix.take(position(prefix, '_', 0));
    if service.len() == 0 {
        None
    } else {
        Some(lowercase(service))
    }
}

/// The value of the first parameter `Service` that has one, in lower case.
pub open spec fn service_in_params(params: Seq<Seq<char>>) -> Option<Seq<char>>
    decreases params.len(),
{
    if params.len() == 0 {
        None
    } else if starts_with(params[0], "Service="@) && params[0].len() > 8 {
        Some(lowercase(params[0].skip(8)))
    } else {
        service_in_params(params.drop_first())
    }
}

/// The service that a request is for, given its header fields and its query.
pub open spec fn service_of(fields: Fields, query: Option<Seq<char>>) -> Seq<char> {
    let by_auth = match field_text(fields, "authorization"@) {
        Some(auth) => service_in_auth(auth),
        None => None,
    };
    let by_target = match field_text(fields, "x-amz-target"@) {
        Some(target) => service_in_target(target),
        None => None,
    };
    let by_query = match query {
        Some(q) => service_in_params(split(q, '&')),
        None => None,
    };
    match (by_auth, by_target, by_query) {
        (Some(service), _, _) => service,
        (None, Some(service), _) => service,
        (None, None, Some(service)) => service,
        (None, None, None) => "s3"@,
    }
}

/// Whether the port can be taken off a host: a closing bracket is not its first character, and
/// then its first character is ASCII.
pub open spec fn host_readable(host: Seq<char>) -> bool {
    position(host, ']', 0) < host.len() ==> host[0] != ']' && host[0] <= '\u{7f}'
}

/// The host without its port: what stands in the brackets of an IPv6 address, else what stands
/// before the first colon.
pub open spec fn without_port(host: Seq<char>) -> Seq<char> {
    let bracket = position(host, ']', 0);
    if bracket < host.len() {
        host.subrange(1, bracket)
    } else {
        host.take(position(host, ':', 0))
    }
}

/// Whether the bucket is the first label of the host: it has three labels or more, and the
/// first does not begin with `s3`.
pub open spec fn is_virtual_hosted(labels: Seq<Seq<char>>) -> bool {
    labels.len() >= 3 && !starts_with(labels[0], "s3"@)
}

/// Where a request leads.
pub enum Place {
    At { bucket: Seq<char>, key: Seq<char> },
    NoHost,
    NoBucket,
    Undecodable,
}

/// The place for a bucket and a key as they stand in the request.
pub open spec fn decoded_place(bucket: Seq<char>, key: Seq<char>) -> Place {
    match (decoded(bucket), decoded(key)) {
        (Some(bucket), Some(key)) => Place::At { bucket, key },
        _ => Place::Undecodable,
    }
}

/// The bucket and key of a request, given its host and path.
pub open spec fn place_of(host: Seq<char>, path: Seq<char>) -> Place {
    let labels = split(without_port(host), '.');
    let rest = trim_start(path, '/');
    if host.len() == 0 {
        Place::NoHost
    } else if is_virtual_hosted(labels) {
        decoded_place(labels[0], rest)
    } else if rest.len() == 0 {
        Place::NoBucket
    } else {
        let slash = position(rest, '/', 0);
        decoded_place(
            rest.take(slash),
            if slash < rest.len() {
                rest.skip(slash + 1)
            } else {
                Seq::empty()
            },
        )
    }
}

/// What the result of address resolution denotes.
pub open spec fn resolved(r: Result<(String, String), AddressError>) -> Place {
    match r {
        Ok((bucket, key)) => Place::At { bucket: bucket@, key: key@ },
        Err(AddressError::MissingHost) => Place::NoHost,
        Err(AddressError::MissingBucket) => Place::NoBucket,
        Err(AddressError::DecodeError(_)) => Place::Undecodable,
        Err(AddressError::MalformedRequest(_)) => Place::Undecodable,
    }
}

/// Names the service that a request is for.
///
/// The `Authorization` header decides where it has a credential scope, then the
/// `X-Amz-Target` header, then the query parameter `Service`; else the service is `s3`.
pub fn extract_service(headers: &Headers, query: Option<&str>) -> (r: String)
    ensures
        r@ == service_of(
            headers@,
            match query {
                Some(q) => Some(q@),
                None => None,
            },
        ),
{
    if let Some(auth) = headers.get_text("authorization") {
        if let Some(service) = try_extract_service_from_auth(auth.as_str()) {
            return service;
        }
    }
    if let Some(target) = headers.get_text("x-amz-target") {
        if let Some(service) = try_extract_service_from_target(target.as_str()) {
            return service;
        }
    }
    if let Some(q) = query {
        if let Some(service) = try_extract_service_from_query(q) {
            return service;
        }
    }
    "s3".to_string()
}

/// Reads the service out of an `Authorization` header.
pub fn try_extract_service_from_auth(auth: &str) -> (r: Option<String>)
    ensures
        optional_text(r) == service_in_auth(auth@),
{
    let tokens = split_words(auth);
    let ghost all = texts(tokens@);
    let mut i: usize = 0;
    assert(all.skip(0) =~= all);
    proof {
        reveal_strlit("Credential=");
    }
    while i < tokens.len()
        invariant
            i <= tokens.len(),
            all == texts(tokens@),
            all == words(auth@),
            "Credential="@.len() == 11,
            match first_with_prefix(all.skip(i as int), "Credential="@) {
                Some(k) => first_with_prefix(all, "Credential="@) == Some(k + i),
                None => first_with_prefix(all, "Credential="@) is None,
            },
        decreases tokens.len() - i,
    {
        let token: &String = &tokens[i];
        assert(all.skip(i as int)[0] == token@);
        assert(all.skip(i as int).drop_first() =~= all.skip(i as int + 1));
        if has_prefix(token.as_str(), "Credential=") {
            let chars = chars_of(token.as_str());
            let scope = string_of(&chars, 11, chars.len());
            assert(scope@ =~= token@.skip(11));
            assert(all[i as int] == token@);
            let segments = split_text(scope.as_str(), '/');
            assert(texts(segments@) == split(scope@, '/'));
            return if segments.len() >= 4 {
                assert(texts(segments@)[3] == segments@[3]@);
                Some(segments[3].to_lowercase())
            } else {
                None
            };
        }
        i += 1;
    }
    None
}

/// Reads the service out of an `X-Amz-Target` header.
pub fn try_extract_service_from_target(target: &str) -> (r: Option<String>)
    ensures
        optional_text(r) == service_in_target(target@),
{
    let chars = chars_of(target);
    let dot: usize = position_of(&chars, '.', 0);
    let prefix = chars_of(string_of(&chars, 0, dot).as_str());
    assert(prefix@ =~= target@.take(dot as int));
    let end: usize = position_of(&prefix, '_', 0);
    let service = string_of(&prefix, 0, end);
    assert(service@ =~= prefix@.take(end as int));
    if end == 0 {
        None
    } else {
        Some(service.to_lowercase())
    }
}

/// Reads the service out of a query.
pub fn try_extract_service_from_query(query: &str) -> (r: Option<String>)
    ensures
        optional_text(r) == service_in_params(split(query@, '&')),
{
    let params = split_text(query, '&');
    let ghost all = texts(params@);
    let mut i: usize = 0;
    assert(all.skip(0) =~= all);
    proof {
        reveal_strlit("Service=");
    }
    while i < params.len()
        invariant
            i <= params.len(),
            all == texts(params@),
            all == split(query@, '&'),
            "Service="@.len() == 8,
            service_in_params(all) == service_in_params(all.skip(i as int)),
        decreases params.len() - i,
    {
        let param: &String = &params[i];
        assert(all.skip(i as int)[0] == param@);
        assert(all.skip(i as int).drop_first() =~= all.skip(i as int + 1));
        if has_prefix(param.as_str(), "Service=") {
            let chars = chars_of(param.as_str());
            if chars.len() > 8 {
                let value = string_of(&chars, 8, chars.len());
                assert(value@ =~= param@.skip(8));
                return Some(value.to_lowercase());
            }
        }
        i += 1;
    }
    None
}

/// Takes the port off a host; of an IPv6 address, the brackets too.
pub fn strip_port(host: &str) -> (r: &str)
    requires
        host_readable(host@),
    ensures
        r@ == without_port(host@),
{
    let chars = chars_of(host);
    let bracket: usize = position_of(&chars, ']', 0);
    if bracket < chars.len() {
        host.substring_char(1, bracket)
    } else {
        let colon: usize = position_of(&chars, ':', 0);
        let r = host.substring_char(0, colon);
        assert(r@ =~= host@.take(colon as int));
        r
    }
}

/// Tells whether the port can be taken off a host.
pub fn can_read_host(host: &str) -> (b: bool)
    ensures
        b == host_readable(host@),
{
    let chars = chars_of(host);
    let bracket: usize = position_of(&chars, ']', 0);
    bracket == chars.len() || (chars[0] != ']' && chars[0] <= '\u{7f}')
}

/// Finds the bucket and key of a request, from its host and path.
///
/// The bucket is the first label of the host where the host has three labels or more and the
/// first does not begin with `s3`; else it is the first segment of the path.
pub fn resolve_address(host: &str, path: &str) -> (r: Result<(String, String), AddressError>)
    requires
        host_readable(host@),
    ensures
        resolved(r) == place_of(host@, path@),
        !(r matches Err(AddressError::MalformedRequest(_))),
{
    if host.is_empty() {
        return Err(AddressError::MissingHost);
    }
    let labels = split_text(strip_port(host), '.');
    proof {
        lemma_split_nonempty(without_port(host@), '.');
        assert(texts(labels@)[0] == labels@[0]@);
    }
    if labels.len() >= 3 && !has_prefix(labels[0].as_str(), "s3") {
        resolve_virtual_hosted(labels[0].as_str(), path)
    } else {
        resolve_path_style(path)
    }
}

/// The place where the first label of the host is the bucket.
fn resolve_virtual_hosted(label: &str, path: &str) -> (r: Result<(String, String), AddressError>)
    ensures
        resolved(r) == decoded_place(label@, trim_start(path@, '/')),
        !(r matches Err(AddressError::MalformedRequest(_))),
{
    let bucket = match decode_segment(label) {
        Ok(bucket) => bucket,
        Err(e) => {
            return Err(e);
        },
    };
    let chars = chars_of(path);
    let from: usize = trimmed_from(&chars, '/');
    let rest = string_of(&chars, from, chars.len());
    assert(rest@ =~= trim_start(path@, '/'));
    let key = match decode_segment(rest.as_str()) {
        Ok(key) => key,
        Err(e) => {
            return Err(e);
        },
    };
    Ok((bucket, key))
}

/// The place where the first segment of the path is the bucket.
fn resolve_path_style(path: &str) -> (r: Result<(String, String), AddressError>)
    ensures
        ({
            let rest = trim_start(path@, '/');
            let slash = position(rest, '/', 0);
            resolved(r) == if rest.len() == 0 {
                Place::NoBucket
            } else {
                decoded_place(
                    rest.take(slash),
                    if slash < rest.len() {
                        rest.skip(slash + 1)
                    } else {
                        Seq::empty()
                    },
                )
            }
        }),
        !(r matches Err(AddressError::MalformedRequest(_))),
{
    let all = chars_of(path);
    let from: usize = trimmed_from(&all, '/');
    let rest = string_of(&all, from, all.len());
    assert(rest@ =~= trim_start(path@, '/'));
    let chars = chars_of(rest.as_str());
    if chars.len() == 0 {
        return Err(AddressError::MissingBucket);
    }
    let slash: usize = position_of(&chars, '/', 0);
    let bucket_segment = string_of(&chars, 0, slash);
    assert(bucket_segment@ =~= rest@.take(slash as int));
    let key_segment = if slash < chars.len() {
        let key = string_of(&chars, slash + 1, chars.len());
        assert(key@ =~= rest@.skip(slash + 1));
        key
    } else {
        let key = String::new();
        assert(key@ =~= Seq::empty());
        key
    };
    let bucket = match decode_segment(bucket_segment.as_str()) {
        Ok(bucket) => bucket,
        Err(e) => {
            return Err(e);
        },
    };
    let key = match decode_segment(key_segment.as_str()) {
        Ok(key) => key,
        Err(e) => {
            return Err(e);
        },
    };
    Ok((bucket, key))
}

/// Decodes one percent-encoded segment.
fn decode_segment(segment: &str) -> (r: Result<String, AddressError>)
    ensures
        match r {
            Ok(text) => decoded(segment@) == Some(text@),
            Err(AddressError::DecodeError(_)) => decoded(segment@) is None,
            Err(_) => false,
        },
{
    match url_decode(segment) {
        Ok(text) => Ok(text),
        Err(e) => Err(AddressError::DecodeError(e)),
    }
}

/// A text without a separator ends where the first separator behind it stands.
proof fn lemma_no_separator(s: Seq<char>, t: Seq<char>, c: char, from: int)
    requires
        0 <= from <= s.len(),
        forall|i: int| 0 <= i < s.len() ==> s[i] != c,
        t.len() > 0 ==> t[0] == c,
    ensures
        position(s + t, c, from) == s.len(),
{
    crate::text::lemma_position(s + t, c, from);
    let p = position(s + t, c, from);
    if p < s.len() {
        assert((s + t)[p] == s[p]);
    } else if p > s.len() {
        assert((s + t)[s.len() as int] == t[0]);
    }
}

/// A bucket and a key in a path, behind a host that is no bucket, are found again where no
/// percent sign is in them.
pub proof fn path_reads_back(host: Seq<char>, bucket: Seq<char>, key: Seq<char>)
    requires
        host.len() > 0,
        !is_virtual_hosted(split(without_port(host), '.')),
        bucket.len() > 0,
        forall|i: int| 0 <= i < bucket.len() ==> bucket[i] != '/',
        forall|i: int| 0 <= i < encode_utf8(bucket).len() ==> encode_utf8(bucket)[i] != 37,
        forall|i: int| 0 <= i < encode_utf8(key).len() ==> encode_utf8(key)[i] != 37,
    ensures
        place_of(host, seq!['/'] + bucket + seq!['/'] + key) == (Place::At { bucket, key }),
{
    let path = seq!['/'] + bucket + seq!['/'] + key;
    let rest = bucket + (seq!['/'] + key);
    reveal_with_fuel(trim_start, 2);
    assert(path.drop_first() =~= rest);
    assert(trim_start(path, '/') == rest);
    lemma_no_separator(bucket, seq!['/'] + key, '/', 0);
    assert(rest.take(bucket.len() as int) =~= bucket);
    assert(rest.skip(bucket.len() as int + 1) =~= key);
    plain_text_decodes_to_itself(bucket);
    plain_text_decodes_to_itself(key);
}

/// Text without a separator is one piece.
proof fn lemma_one_piece(s: Seq<char>, sep: char)
    requires
        forall|i: int| 0 <= i < s.len() ==> s[i] != sep,
    ensures
        split(s, sep) == seq![s],
    decreases s.len(),
{
    if s.len() == 0 {
        assert(s =~= Seq::empty());
    } else {
        lemma_one_piece(s.drop_last(), sep);
        assert(s.drop_last().push(s.last()) =~= s);
        assert(split(s, sep) =~= seq![s]);
    }
}

/// What stands before the first separator is the first piece.
proof fn lemma_first_piece(s: Seq<char>, t: Seq<char>, sep: char)
    requires
        forall|i: int| 0 <= i < s.len() ==> s[i] != sep,
    ensures
        split(s.push(sep) + t, sep) == seq![s] + split(t, sep),
    decreases t.len(),
{
    let all = s.push(sep) + t;
    if t.len() == 0 {
        lemma_one_piece(s, sep);
        assert(all.drop_last() =~= s);
        assert(all.last() == sep);
        assert(split(all, sep) =~= seq![s] + split(t, sep));
    } else {
        assert(all.drop_last() =~= s.push(sep) + t.drop_last());
        assert(all.last() == t.last());
        lemma_first_piece(s, t.drop_last(), sep);
        lemma_split_nonempty(t.drop_last(), sep);
        assert(split(all, sep) =~= seq![s] + split(t, sep));
    }
}

/// A bucket that is the first label of the host, and a key that is the path, are found again
/// where no percent sign is in them.
pub proof fn virtual_host_reads_back(bucket: Seq<char>, endpoint: Seq<char>, key: Seq<char>)
    requires
        split(endpoint, '.').len() >= 2,
        !starts_with(bucket, "s3"@),
        forall|i: int|
            0 <= i < bucket.len() ==> #[trigger] bucket[i] != '.' && bucket[i] != ':' && bucket[i]
                != ']',
        forall|i: int|
            0 <= i < endpoint.len() ==> #[trigger] endpoint[i] != ':' && endpoint[i] != ']',
        key.len() > 0 ==> key[0] != '/',
        forall|i: int| 0 <= i < encode_utf8(bucket).len() ==> encode_utf8(bucket)[i] != 37,
        forall|i: int| 0 <= i < encode_utf8(key).len() ==> encode_utf8(key)[i] != 37,
    ensures
        place_of(bucket.push('.') + endpoint, seq!['/'] + key) == (Place::At { bucket, key }),
{
    let host = bucket.push('.') + endpoint;
    let path = seq!['/'] + key;
    lemma_no_separator(host, Seq::empty(), ']', 0);
    lemma_no_separator(host, Seq::empty(), ':', 0);
    assert(host + Seq::<char>::empty() =~= host);
    assert(host.take(host.len() as int) =~= host);
    assert(without_port(host) == host);
    lemma_first_piece(bucket, endpoint, '.');
    assert(split(host, '.')[0] == bucket);
    reveal_with_fuel(trim_start, 2);
    assert(path.drop_first() =~= key);
    assert(trim_start(path, '/') == key);
    plain_text_decodes_to_itself(bucket);
    plain_text_decodes_to_itself(key);
}

} // verus!
