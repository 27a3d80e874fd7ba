//! What the service does about a request, told by how the request is written.

use crate::blob::bytes_of;
use crate::digest::etag_of;
use crate::message::{field_text, Fields, Request};
use crate::numbers::parsed;
use crate::percent::decoded;
use crate::protocol::error::{ErrorState, Fault};
use crate::router::service::error_response;
use crate::s3::address::{place_of, Place};
use crate::s3::address_laws::{
    dots, host_names_the_bucket, is_port, path_names_bucket_and_key,
};
use crate::s3::copy_source::copy_source;
use crate::s3::handlers::{
    may_copy_object, may_create_bucket, may_delete_bucket, may_delete_object,
    may_get_bucket_location, may_get_object, may_head_object, may_list_buckets, may_put_object,
};
use crate::s3::memory::DefaultStorage;
use crate::s3::object_laws::{holds, put_stores_what_fits, tells_of};
use crate::s3::query::{metadata_of, query_parameters};
use crate::s3::service::{
    done_answer, host_of, is_done, is_render, lemma_methods, may_dispatch, may_handle,
    query_of, render_answer, without_service, StepState, MAX_UPLOAD_SIZE,
};
use crate::s3::storage::Storage;
use crate::s3::wire_laws::{dot_dot_climbs, has_dot_dot};
use crate::string_map::{value_of, Entries};
use crate::text::{ascii_lower, lemma_find_from, occurs_at, starts_with};
use crate::text_laws::{leading_characters_are_cut_off, prefix_is_read_off_the_front};
use bytes::Bytes;
use vstd::prelude::*;
use vstd::string::*;
use vstd::utf8::{decode_utf8, valid_utf8};

verus! {

/// The name of the service alone leads to the root.
pub proof fn service_alone_leads_to_the_root(slashes: nat)
    ensures
        without_service(Seq::new(slashes, |i: int| '/') + "s3"@, "s3"@) == seq!['/'],
{
    reveal_strlit("s3");
    leading_characters_are_cut_off(slashes, '/', "s3"@);
}

/// A path that begins with another segment than the name of the service stays as it is.
pub proof fn other_segment_stays(slashes: nat, segment: Seq<char>, rest: Seq<char>)
    requires
        segment.len() > 0,
        forall|i: int| 0 <= i < segment.len() ==> segment[i] != '/',
        segment != "s3"@,
        rest.len() > 0 ==> rest[0] == '/',
    ensures
        without_service(Seq::new(slashes, |i: int| '/') + (segment + rest), "s3"@) == Seq::new(
            slashes,
            |i: int| '/',
        ) + (segment + rest),
{
    reveal_strlit("s3");
    let s3 = "s3"@;
    let lead = Seq::new(slashes, |i: int| '/');
    let path = segment + rest;
    assert(path[0] == segment[0]);
    leading_characters_are_cut_off(slashes, '/', path);
    if starts_with(path, s3.push('/')) {
        assert forall|i: int| 0 <= i < 3 implies path[i] == #[trigger] s3.push('/')[i] by {
            assert(path.subrange(0, 3)[i] == path[i]);
        }
        assert(path[0] == s3.push('/')[0] && path[1] == s3.push('/')[1] && path[2] == s3.push(
            '/',
        )[2]);
        if segment.len() > 2 {
            assert(path[2] == segment[2]);
        }
        if segment.len() == 1 {
            assert(path[1] == rest[0]);
        }
        assert(segment =~= s3);
    }
    if path == s3 {
        if segment.len() == 1 {
            assert(path[1] == rest[0]);
        }
        assert(segment =~= s3) by {
            assert(segment.len() == 2);
            assert(segment[0] == path[0] && segment[1] == path[1]);
        }
    }
}

/// A request to an endpoint, whose host has two labels at most or begins with `s3`, goes to the
/// bucket that the first segment of its path names and to the key that the rest names, both
/// percent-decoded; a segment `s3` in front of them is passed over. The query is read for its
/// parameters. Bodies are read for PUT and POST only.
pub proof fn request_reaches_its_object<S: Storage>(
    pre: S,
    request: Request,
    body: Result<Bytes, String>,
    post: S,
    r: Result<StepState, ErrorState>,
    name: Seq<char>,
    port: Seq<char>,
    slashes: nat,
    raw_bucket: Seq<char>,
    raw_key: Seq<char>,
    bucket: Seq<char>,
    key: Seq<char>,
)
    requires
        may_handle(pre, request, body, post, r),
        body is Ok || (request.method@ != "PUT"@ && request.method@ != "POST"@),
        field_text(request.headers@, "host"@) == Some(name + port) || (field_text(
            request.headers@,
            "host"@,
        ) is None && name == "localhost"@ && port.len() == 0),
        name.len() + port.len() > 0,
        is_port(port),
        forall|i: int| 0 <= i < name.len() ==> #[trigger] name[i] != ']' && name[i] != ':',
        dots(name) <= 1 || starts_with(name, "s3"@),
        raw_bucket.len() > 0,
        forall|i: int| 0 <= i < raw_bucket.len() ==> raw_bucket[i] != '/',
        decoded(raw_bucket) == Some(bucket),
        decoded(raw_key) == Some(key),
        !has_dot_dot(bucket),
        !has_dot_dot(key),
        request.path@ == Seq::new(slashes, |i: int| '/') + (raw_bucket + seq!['/'] + raw_key)
            && raw_bucket != "s3"@ || request.path@ == seq!['/'] + ("s3"@ + seq!['/'] + raw_bucket
            + seq!['/'] + raw_key),
    ensures
        may_dispatch(
            pre,
            request.method@,
            bucket,
            key,
            query_parameters(
                match request.query {
                    Some(query) => query@,
                    None => Seq::empty(),
                },
            ),
            request.headers@,
            if request.method@ == "PUT"@ || request.method@ == "POST"@ {
                bytes_of(body->Ok_0)
            } else {
                Seq::empty()
            },
            post,
            r,
        ),
{
    reveal_strlit("");
    assert(""@ =~= Seq::empty());
    reveal_strlit("s3");
    assert(port.len() == 0 ==> name + port =~= name);
    let place = raw_bucket + seq!['/'] + raw_key;
    let lead = Seq::new(slashes, |i: int| '/');
    if raw_bucket != "s3"@ {
        other_segment_stays(slashes, raw_bucket, seq!['/'] + raw_key);
        assert(lead + (raw_bucket + (seq!['/'] + raw_key)) =~= lead + place);
    }
    path_names_bucket_and_key(name, port, slashes, raw_bucket, raw_key);
    path_names_bucket_and_key(name, port, 1, raw_bucket, raw_key);
    let one = Seq::new(1, |i: int| '/');
    assert(one + place =~= seq!['/'] + place);
    let prefixed = "s3"@ + seq!['/'] + raw_bucket + seq!['/'] + raw_key;
    assert(prefixed =~= "s3"@.push('/') + place);
    assert(prefixed[0] == 's');
    leading_characters_are_cut_off(1, '/', prefixed);
    assert(one + prefixed =~= seq!['/'] + prefixed);
    prefix_is_read_off_the_front(place, "s3"@.push('/'));
    assert(prefixed.skip(3) =~= place);
    dot_dot_climbs(bucket);
    dot_dot_climbs(key);
}

/// A request whose host names the bucket in its first label goes to that bucket, and to the key
/// that its path names.
pub proof fn hosted_request_reaches_its_object<S: Storage>(
    pre: S,
    request: Request,
    body: Result<Bytes, String>,
    post: S,
    r: Result<StepState, ErrorState>,
    raw_bucket: Seq<char>,
    endpoint: Seq<char>,
    port: Seq<char>,
    segment: Seq<char>,
    rest: Seq<char>,
    bucket: Seq<char>,
    key: Seq<char>,
)
    requires
        may_handle(pre, request, body, post, r),
        body is Ok || (request.method@ != "PUT"@ && request.method@ != "POST"@),
        field_text(request.headers@, "host"@) == Some(
            raw_bucket + seq!['.'] + endpoint + port,
        ),
        is_port(port),
        dots(endpoint) >= 1,
        !starts_with(raw_bucket, "s3"@),
        forall|i: int|
            0 <= i < raw_bucket.len() ==> #[trigger] raw_bucket[i] != '.' && raw_bucket[i] != ':'
                && raw_bucket[i] != ']',
        forall|i: int|
            0 <= i < endpoint.len() ==> #[trigger] endpoint[i] != ':' && endpoint[i] != ']',
        segment.len() > 0,
        forall|i: int| 0 <= i < segment.len() ==> segment[i] != '/',
        segment != "s3"@,
        rest.len() > 0 ==> rest[0] == '/',
        decoded(raw_bucket) == Some(bucket),
        decoded(segment + rest) == Some(key),
        !has_dot_dot(bucket),
        !has_dot_dot(key),
        request.path@ == seq!['/'] + (segment + rest),
        request.query is None,
    ensures
        may_dispatch(
            pre,
            request.method@,
            bucket,
            key,
            query_parameters(Seq::empty()),
            request.headers@,
            if request.method@ == "PUT"@ || request.method@ == "POST"@ {
                bytes_of(body->Ok_0)
            } else {
                Seq::empty()
            },
            post,
            r,
        ),
{
    reveal_strlit("");
    assert(""@ =~= Seq::empty());
    let one = Seq::new(1, |i: int| '/');
    let path = segment + rest;
    other_segment_stays(1, segment, rest);
    assert(one + path =~= seq!['/'] + path);
    assert(path[0] == segment[0]);
    host_names_the_bucket(raw_bucket, endpoint, port, 1, path);
    dot_dot_climbs(bucket);
    dot_dot_climbs(key);
}

/// A request whose path or bucket climbs, with a segment of two dots, is refused with status 400
/// and changes nothing.
pub proof fn climbing_place_is_refused<S: Storage>(
    pre: S,
    request: Request,
    body: Result<Bytes, String>,
    post: S,
    r: Result<StepState, ErrorState>,
    bucket: Seq<char>,
    key: Seq<char>,
)
    requires
        may_handle(pre, request, body, post, r),
        body is Ok,
        place_of(host_of(request.headers@), without_service(request.path@, "s3"@)) == (Place::At {
            bucket,
            key,
        }),
        has_dot_dot(bucket) || has_dot_dot(key),
    ensures
        post == pre,
        r is Err,
        r->Err_0.fault == (if has_dot_dot(bucket) {
            Fault::InvalidArgument { argument_name: "bucket"@, value: bucket }
        } else {
            Fault::InvalidArgument { argument_name: "key"@, value: key }
        }),
        error_response(r->Err_0).status == 400,
{
    dot_dot_climbs(bucket);
    dot_dot_climbs(key);
    if key.len() == 0 {
        assert(!has_dot_dot(key)) by {
            if has_dot_dot(key) {
                reveal_strlit("..");
            }
        }
    }
}

/// A request to an endpoint with a path of nothing but slashes goes to no bucket; one whose host
/// is empty, and one whose bucket or key cannot be decoded, is refused with status 400 and
/// changes nothing.
pub proof fn request_without_a_place<S: Storage>(
    pre: S,
    request: Request,
    body: Result<Bytes, String>,
    post: S,
    r: Result<StepState, ErrorState>,
    name: Seq<char>,
    port: Seq<char>,
    slashes: nat,
    raw_bucket: Seq<char>,
    raw_key: Seq<char>,
)
    requires
        may_handle(pre, request, body, post, r),
        body is Ok,
        is_port(port),
        forall|i: int| 0 <= i < name.len() ==> #[trigger] name[i] != ']' && name[i] != ':',
        dots(name) <= 1 || starts_with(name, "s3"@),
        raw_bucket.len() > 0,
        raw_bucket != "s3"@,
        forall|i: int| 0 <= i < raw_bucket.len() ==> raw_bucket[i] != '/',
        decoded(raw_bucket) is Some,
        field_text(request.headers@, "host"@) == Some(name + port),
    ensures
        ({
            let lead = Seq::new(slashes, |i: int| '/');
            let place = lead + (raw_bucket + seq!['/'] + raw_key);
            &&& name.len() + port.len() == 0 ==> post == pre && r is Err && r->Err_0.fault == (
            Fault::MissingRequestHeader { header_name: "Host"@ }) && error_response(
                r->Err_0,
            ).status == 400
            &&& name.len() + port.len() > 0 && request.path@ == lead ==> may_dispatch(
                pre,
                request.method@,
                Seq::empty(),
                Seq::empty(),
                query_parameters(query_of(request)),
                request.headers@,
                if request.method@ == "PUT"@ || request.method@ == "POST"@ {
                    bytes_of(body->Ok_0)
                } else {
                    Seq::empty()
                },
                post,
                r,
            )
            &&& name.len() + port.len() > 0 && request.path@ == place && decoded(raw_key) is None
                ==> post == pre && r is Err && r->Err_0.fault == (Fault::InvalidArgument {
                argument_name: "path"@,
                value: request.path@,
            }) && error_response(r->Err_0).status == 400
        }),
{
    let lead = Seq::new(slashes, |i: int| '/');
    let none = Seq::<char>::empty();
    let host = name + port;
    reveal_strlit("s3");
    if host.len() > 0 {
        path_names_bucket_and_key(name, port, slashes, raw_bucket, raw_key);
        leading_characters_are_cut_off(slashes, '/', none);
        assert(lead + none =~= lead);
        assert(!starts_with(none, "s3"@.push('/')));
        assert(none.len() != "s3"@.len());
        dot_dot_climbs(none);
        assert(!has_dot_dot(none)) by {
            reveal_strlit("..");
        }
        other_segment_stays(slashes, raw_bucket, seq!['/'] + raw_key);
        assert(lead + (raw_bucket + (seq!['/'] + raw_key)) =~= lead + (raw_bucket + seq!['/']
            + raw_key));
    }
}

/// A body that could not be read is answered with status 400 where it was too long, else with
/// status 500, and changes nothing; the largest body that is read is as large as the largest
/// object.
pub proof fn unread_body_is_refused<S: Storage>(
    pre: S,
    request: Request,
    body: Result<Bytes, String>,
    post: S,
    r: Result<StepState, ErrorState>,
)
    requires
        may_handle(pre, request, body, post, r),
        body is Err,
        request.method@ == "PUT"@ || request.method@ == "POST"@,
    ensures
        post == pre,
        r is Err,
        (exists|i: int| 0 <= i && #[trigger] occurs_at(body->Err_0@, "length limit exceeded"@, i))
            ==> r->Err_0.fault == (Fault::EntityTooLarge { entity: "request body"@ })
            && error_response(r->Err_0).status == 400,
        (forall|i: int| 0 <= i ==> !#[trigger] occurs_at(body->Err_0@, "length limit exceeded"@, i))
            ==> r->Err_0.fault == (Fault::InternalError {
            details: Some("body read failed: "@ + body->Err_0@),
        }) && error_response(r->Err_0).status == 500,
        MAX_UPLOAD_SIZE == 5 * 1024 * 1024 * 1024,
{
    lemma_find_from(body->Err_0@, "length limit exceeded"@, 0);
}

/// Whether a parameter is given.
pub open spec fn gives(params: Entries, name: Seq<char>) -> bool {
    value_of(params, name) is Some
}

/// What a request on an object does: GET reads it, HEAD tells of it, DELETE takes it away, and
/// PUT stores the body with the content type and metadata that the header fields give. A PUT that
/// names a source copies it, with the metadata of the fields where it is to replace that of the
/// source. All that has to do with multipart uploads is not implemented.
pub proof fn method_decides_on_an_object<S: Storage>(
    pre: S,
    method: Seq<char>,
    bucket: Seq<char>,
    key: Seq<char>,
    params: Entries,
    fields: Fields,
    data: Seq<u8>,
    post: S,
    r: Result<StepState, ErrorState>,
)
    requires
        may_dispatch(pre, method, bucket, key, params, fields, data, post, r),
        bucket.len() > 0,
        key.len() > 0,
    ensures
        method == "GET"@ && !gives(params, "uploadId"@) ==> post == pre && is_done(r)
            && may_get_object(pre, bucket, key, done_answer(r)),
        method == "HEAD"@ ==> post == pre && is_done(r) && may_head_object(
            pre,
            bucket,
            key,
            done_answer(r),
        ),
        method == "DELETE"@ && !gives(params, "uploadId"@) ==> is_done(r) && may_delete_object(
            pre,
            bucket,
            key,
            post,
            done_answer(r),
        ),
        method == "PUT"@ && field_text(fields, "x-amz-copy-source"@) is None && !(gives(
            params,
            "partNumber"@,
        ) && gives(params, "uploadId"@) && parsed(
            value_of(params, "partNumber"@)->0,
            u32::MAX as nat,
        ) is Some) ==> is_done(r) && may_put_object(
            pre,
            bucket,
            key,
            match field_text(fields, "content-type"@) {
                Some(t) => t,
                None => "binary/octet-stream"@,
            },
            metadata_of(fields),
            data,
            post,
            done_answer(r),
        ),
        method == "PUT"@ ==> match field_text(fields, "x-amz-copy-source"@) {
            Some(source) => copy_source(source) is Ok ==> is_render(r) && may_copy_object(
                pre,
                bucket,
                key,
                source,
                match field_text(fields, "x-amz-metadata-directive"@) {
                    Some(text) => if ascii_lower(text) == "replace"@ {
                        metadata_of(fields)
                    } else {
                        Seq::empty()
                    },
                    None => Seq::empty(),
                },
                post,
                render_answer(r),
            ),
            None => true,
        },
        method == "PUT"@ && field_text(fields, "x-amz-copy-source"@) is Some && copy_source(
            field_text(fields, "x-amz-copy-source"@)->0,
        ) is Err ==> post == pre && r == Err::<StepState, _>(
            copy_source(field_text(fields, "x-amz-copy-source"@)->0)->Err_0,
        ),
        (method == "GET"@ || method == "DELETE"@ || method == "POST"@) && gives(
            params,
            "uploadId"@,
        ) ==> post == pre && r is Err && error_response(r->Err_0).status == 501,
        method == "POST"@ && gives(params, "uploads"@) ==> post == pre && r is Err
            && error_response(r->Err_0).status == 501,
        method == "PUT"@ && field_text(fields, "x-amz-copy-source"@) is None && gives(
            params,
            "uploadId"@,
        ) && gives(params, "partNumber"@) && parsed(
            value_of(params, "partNumber"@)->0,
            u32::MAX as nat,
        ) is Some ==> post == pre && r is Err && error_response(r->Err_0).status == 501,
        method == "POST"@ && !gives(params, "uploads"@) && !gives(params, "uploadId"@) ==> post
            == pre && r is Err && error_response(r->Err_0).status == 405,
        method != "GET"@ && method != "PUT"@ && method != "POST"@ && method != "DELETE"@ && method
            != "HEAD"@ ==> post == pre && r is Err && error_response(r->Err_0).status == 405
            && r->Err_0.fault == (Fault::MethodNotAllowed { method }),
{
    lemma_methods();
    reveal_strlit("REPLACE");
    reveal_strlit("replace");
    assert(ascii_lower("REPLACE"@) =~= "replace"@);
}

/// What a request on a bucket does, and one that names none: GET without a bucket lists all, PUT
/// creates one, DELETE deletes one, GET of one with the parameter `location` tells its region,
/// and POST with the parameter `delete` has its body read as a list of objects to delete.
pub proof fn method_decides_on_a_bucket<S: Storage>(
    pre: S,
    method: Seq<char>,
    bucket: Seq<char>,
    params: Entries,
    fields: Fields,
    data: Seq<u8>,
    post: S,
    r: Result<StepState, ErrorState>,
)
    requires
        may_dispatch(pre, method, bucket, Seq::empty(), params, fields, data, post, r),
    ensures
        method == "GET"@ && bucket.len() == 0 ==> post == pre && is_render(r) && may_list_buckets(
            pre,
            render_answer(r),
        ),
        method == "PUT"@ ==> is_render(r) && may_create_bucket(
            pre,
            bucket,
            post,
            render_answer(r),
        ),
        method == "DELETE"@ ==> is_done(r) && may_delete_bucket(
            pre,
            bucket,
            post,
            done_answer(r),
        ),
        method == "GET"@ && bucket.len() > 0 && gives(params, "location"@) ==> post == pre
            && is_render(r) && may_get_bucket_location(pre, bucket, render_answer(r)),
        method == "GET"@ && bucket.len() > 0 && !gives(params, "location"@) ==> post == pre && r
            is Err && error_response(r->Err_0).status == 501,
        method == "POST"@ && bucket.len() > 0 && gives(params, "delete"@) && valid_utf8(data)
            ==> post == pre && r == Ok::<_, ErrorState>(
            StepState::ParseDelete { bucket, text: decode_utf8(data) },
        ),
        method == "POST"@ && bucket.len() > 0 && gives(params, "delete"@) && !valid_utf8(data)
            ==> post == pre && r is Err && error_response(r->Err_0).status == 400,
        method == "POST"@ && (bucket.len() == 0 || !gives(params, "delete"@)) ==> post == pre && r
            is Err && error_response(r->Err_0).status == 405,
        method == "HEAD"@ ==> post == pre && r is Err && error_response(r->Err_0).status == 405,
{
    lemma_methods();
}

/// What one request stores, the next one gets: a PUT of an object through the service that is
/// answered with success, followed by a GET of it, gives its bytes and its entity tag, and tells
/// of the object as the backend holds it.
pub proof fn uploaded_object_is_downloaded(
    first: DefaultStorage,
    second: DefaultStorage,
    third: DefaultStorage,
    bucket: Seq<char>,
    key: Seq<char>,
    fields: Fields,
    data: Seq<u8>,
    asked: Fields,
    put: Result<StepState, ErrorState>,
    got: Result<StepState, ErrorState>,
)
    requires
        bucket.len() > 0,
        key.len() > 0,
        field_text(fields, "x-amz-copy-source"@) is None,
        may_dispatch(first, "PUT"@, bucket, key, Seq::empty(), fields, data, second, put),
        put is Ok,
        may_dispatch(
            second,
            "GET"@,
            bucket,
            key,
            Seq::empty(),
            asked,
            Seq::empty(),
            third,
            got,
        ),
    ensures
        put->Ok_0 is Done,
        put->Ok_0->Done_0.status == 200,
        put->Ok_0->Done_0.headers[0] == ("ETag"@, etag_of(data)),
        third == second,
        got is Ok,
        got->Ok_0 is Done,
        got->Ok_0->Done_0.status == 200,
        got->Ok_0->Done_0.body == data,
        holds(second@, bucket, key),
        second@.buckets[bucket].objects[key].etag == etag_of(data),
        second@.buckets[bucket].objects[key].metadata == metadata_of(fields),
        tells_of(got->Ok_0->Done_0.headers, second@.buckets[bucket].objects[key]),
{
    let none = Seq::<(Seq<char>, Seq<char>)>::empty();
    method_decides_on_an_object(
        first,
        "PUT"@,
        bucket,
        key,
        none,
        fields,
        data,
        second,
        put,
    );
    method_decides_on_an_object(
        second,
        "GET"@,
        bucket,
        key,
        none,
        asked,
        Seq::empty(),
        third,
        got,
    );
    let content_type = match field_text(fields, "content-type"@) {
        Some(t) => t,
        None => "binary/octet-stream"@,
    };
    put_stores_what_fits(
        first,
        bucket,
        key,
        content_type,
        metadata_of(fields),
        data,
        second,
        done_answer(put),
    );
}

} // verus!
