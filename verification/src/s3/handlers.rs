//! The handlers of requests: what each calls in the storage backend, and what it answers.

use crate::blob::bytes_of;
use crate::clock::Timestamp;
use crate::digest::{etag_of, is_uuid, random_uuid};
use crate::message::{Response, ResponseState};
use crate::protocol::error::{plain_error, AwsError, AwsErrorKind, ErrorState, Fault};
use crate::protocol::types::{
    BucketLine, DeleteObject, DeleteRequest, DeleteTarget, ObjectState, S3Object,
};
use crate::protocol::xml::format_etag;
use crate::s3::answers::{
    answer, answer_copy_object, answer_create_bucket, answer_delete_bucket, answer_delete_object,
    answer_delete_objects, answer_get_bucket_location, answer_get_object, answer_head_object,
    answer_list_buckets, answer_put_object, bucket_deleted_answer, buckets_answer, copied_answer,
    created_answer, delete_objects_answer, delete_targets, location_answer, object_answer,
    object_deleted_answer, stored_answer, PendingResponse, PendingState,
};
use crate::s3::copy_source::{
    copy_source, invalid_argument, invalid_argument_error, validate_copy_source,
};
use crate::s3::model::{BucketState, Call, Reply, S3Error};
use crate::s3::storage::{outcome, Storage};
use crate::string_map::{Entries, StringMap};
use crate::text::{chars_of, has_prefix, starts_with, string_of, trim, trimmed};
use bytes::Bytes;
use vstd::prelude::*;
use vstd::string::*;
use vstd::utf8::{decode_utf8, encode_utf8, valid_utf8};

verus! {

/// What a list of all buckets may be answered.
pub open spec fn may_list_buckets<S: Storage>(s: S, r: Result<PendingState, ErrorState>) -> bool {
    exists|reply: Result<Seq<BucketLine>, S3Error>|
        #[trigger] S::may(s, Call::ListBuckets, s, Reply::Buckets(reply)) && r == buckets_answer(
            reply,
        )
}

/// Lists all buckets.
pub fn handle_list_buckets<S: Storage>(storage: &S) -> (r: Result<PendingResponse, AwsError>)
    ensures
        may_list_buckets(*storage, answer(r)),
{
    let reply = storage.list_buckets();
    answer_list_buckets(reply)
}

/// Whether a bucket name has a length that is allowed, in bytes.
pub open spec fn name_fits(bucket: Seq<char>) -> bool {
    3 <= encode_utf8(bucket).len() <= 63
}

/// What a request that creates a bucket may be answered.
pub open spec fn may_create_bucket<S: Storage>(
    pre: S,
    bucket: Seq<char>,
    post: S,
    r: Result<PendingState, ErrorState>,
) -> bool {
    if !name_fits(bucket) {
        post == pre && r == Err::<PendingState, _>(invalid_argument("BucketName"@, bucket))
    } else {
        exists|reply: Result<BucketState, S3Error>|
            #[trigger] S::may(
                pre,
                Call::CreateBucket { name: bucket },
                post,
                Reply::Bucket(reply),
            ) && r == created_answer(without_value(reply), bucket)
    }
}

/// A reply without the value that it carries.
pub open spec fn without_value<T>(reply: Result<T, S3Error>) -> Result<(), S3Error> {
    match reply {
        Ok(_) => Ok(()),
        Err(e) => Err(e),
    }
}

/// Creates a bucket.
pub fn handle_create_bucket<S: Storage>(storage: &mut S, bucket: &str) -> (r: Result<
    PendingResponse,
    AwsError,
>)
    ensures
        may_create_bucket(*old(storage), bucket@, *final(storage), answer(r)),
{
    let length: usize = bucket.as_bytes().len();
    if length < 3 || length > 63 {
        return Err(invalid_argument_error("BucketName", bucket));
    }
    let reply = storage.create_bucket(bucket);
    let ghost was = outcome(reply);
    let done = match reply {
        Ok(_) => Ok(()),
        Err(e) => Err(e),
    };
    assert(done == without_value(was));
    answer_create_bucket(done, bucket)
}

/// What a request that deletes a bucket may be answered.
pub open spec fn may_delete_bucket<S: Storage>(
    pre: S,
    bucket: Seq<char>,
    post: S,
    r: Result<ResponseState, ErrorState>,
) -> bool {
    exists|reply: Result<(), S3Error>|
        #[trigger] S::may(pre, Call::DeleteBucket { name: bucket }, post, Reply::Done(reply)) && r
            == bucket_deleted_answer(reply, bucket)
}

/// Deletes a bucket that holds nothing.
pub fn handle_delete_bucket<S: Storage>(storage: &mut S, bucket: &str) -> (r: Result<
    Response,
    AwsError,
>)
    ensures
        may_delete_bucket(*old(storage), bucket@, *final(storage), answer(r)),
{
    let reply = storage.delete_bucket(bucket);
    answer_delete_bucket(reply, bucket)
}

/// What a request for the region of a bucket may be answered.
pub open spec fn may_get_bucket_location<S: Storage>(
    s: S,
    bucket: Seq<char>,
    r: Result<PendingState, ErrorState>,
) -> bool {
    exists|reply: Result<Seq<char>, S3Error>|
        #[trigger] S::may(s, Call::GetBucketLocation { name: bucket }, s, Reply::Text(reply)) && r
            == location_answer(reply, bucket)
}

/// Tells the region that a bucket is in.
pub fn handle_get_bucket_location<S: Storage>(storage: &S, bucket: &str) -> (r: Result<
    PendingResponse,
    AwsError,
>)
    ensures
        may_get_bucket_location(*storage, bucket@, answer(r)),
{
    let reply = storage.get_bucket_location(bucket);
    answer_get_bucket_location(reply, bucket)
}

/// The error for what is not implemented.
pub open spec fn not_implemented() -> ErrorState {
    plain_error(Fault::NotImplemented)
}

/// Lists objects: not implemented.
pub fn handle_list_objects_v2<S: Storage>(_storage: &S, _bucket: &str, _query: &str) -> (r: Result<
    Response,
    AwsError,
>)
    ensures
        answer(r) == Err::<ResponseState, _>(not_implemented()),
{
    Err(AwsError::new(AwsErrorKind::NotImplemented))
}

/// Reads the body of a request that deletes several objects: the XML text in it.
pub fn delete_request_text(body: &Bytes) -> (r: Result<String, AwsError>)
    ensures
        match r {
            Ok(text) => valid_utf8(bytes_of(*body)) && text@ == decode_utf8(bytes_of(*body)),
            Err(e) => !valid_utf8(bytes_of(*body)) && e@ == invalid_argument(
                "body"@,
                "request body is not valid UTF-8"@,
            ),
        },
{
    match std::str::from_utf8(body) {
        Ok(text) => Ok(text.to_string()),
        Err(_) => Err(invalid_argument_error("body", "request body is not valid UTF-8")),
    }
}

/// Whether the backend may go from the first of `states` to the last by deleting the targets
/// one by one, with the replies given.
pub open spec fn deletes<S: Storage>(
    states: Seq<S>,
    bucket: Seq<char>,
    targets: Seq<DeleteTarget>,
    replies: Seq<Result<(), S3Error>>,
) -> bool {
    &&& states.len() == replies.len() + 1
    &&& replies.len() <= targets.len()
    &&& forall|i: int|
        0 <= i < replies.len() ==> S::may(
            #[trigger] states[i],
            Call::DeleteObject { bucket, key: targets[i].key },
            states[i + 1],
            Reply::Done(replies[i]),
        )
}

/// What a request that deletes several objects denotes, once its XML was read.
pub open spec fn delete_request(parsed: Result<DeleteRequest, String>) -> Result<
    (bool, Seq<DeleteTarget>),
    Seq<char>,
> {
    match parsed {
        Ok(request) => Ok((request.quiet, delete_targets(request.objects@))),
        Err(details) => Err(details@),
    }
}

/// What a request that deletes several objects may be answered. Malformed XML and more than a
/// thousand objects are refused; else the objects are deleted one after the other, and each
/// has its own line in the answer.
pub open spec fn may_delete_objects<S: Storage>(
    pre: S,
    bucket: Seq<char>,
    request: Result<(bool, Seq<DeleteTarget>), Seq<char>>,
    post: S,
    r: Result<PendingState, ErrorState>,
) -> bool {
    match request {
        Err(details) => post == pre && r == Err::<PendingState, _>(
            invalid_argument("body"@, "Malformed XML in Delete request: "@ + details),
        ),
        Ok((quiet, targets)) => if targets.len() > 1000 {
            post == pre && r == Err::<PendingState, _>(
                invalid_argument(
                    "Delete"@,
                    "The number of keys in a single Delete request must not exceed 1000"@,
                ),
            )
        } else {
            exists|states: Seq<S>, replies: Seq<Result<(), S3Error>>, request_id: Seq<char>|
                #[trigger] deletes(states, bucket, targets, replies) && #[trigger] is_uuid(
                    request_id,
                ) && replies.len() == targets.len() && states[0] == pre && states.last() == post
                    && r == Ok::<_, ErrorState>(
                    delete_objects_answer(targets, replies, quiet, request_id),
                )
        },
    }
}

/// Deletes several objects, given the request that was read from the body.
pub fn handle_delete_objects<S: Storage>(
    storage: &mut S,
    bucket: &str,
    parsed: Result<DeleteRequest, String>,
) -> (r: Result<PendingResponse, AwsError>)
    ensures
        may_delete_objects(
            *old(storage),
            bucket@,
            delete_request(parsed),
            *final(storage),
            answer(r),
        ),
{
    let request = match parsed {
        Ok(request) => request,
        Err(details) => {
            let mut value = "Malformed XML in Delete request: ".to_string();
            value.append(details.as_str());
            return Err(invalid_argument_error("body", value.as_str()));
        },
    };
    if request.objects.len() > 1000 {
        return Err(
            invalid_argument_error(
                "Delete",
                "The number of keys in a single Delete request must not exceed 1000",
            ),
        );
    }
    let ghost targets = delete_targets(request.objects@);
    let ghost mut states: Seq<S> = seq![*storage];
    let mut replies: Vec<Result<(), S3Error>> = Vec::new();
    let mut i: usize = 0;
    while i < request.objects.len()
        invariant
            i <= request.objects.len(),
            targets == delete_targets(request.objects@),
            replies.len() == i,
            deletes(states, bucket@, targets, replies@),
            states[0] == *old(storage),
            states.last() == *storage,
        decreases request.objects.len() - i,
    {
        let ghost before = *storage;
        let ghost had = replies@;
        let reply = storage.delete_object(bucket, request.objects[i].key.as_str());
        replies.push(reply);
        proof {
            let grown = states.push(*storage);
            assert(targets[i as int].key == request.objects@[i as int].key@);
            assert forall|j: int| 0 <= j < replies@.len() implies S::may(
                #[trigger] grown[j],
                Call::DeleteObject { bucket: bucket@, key: targets[j].key },
                grown[j + 1],
                Reply::Done(replies@[j]),
            ) by {
                if j < had.len() {
                    assert(grown[j] == states[j]);
                    assert(grown[j + 1] == states[j + 1]);
                }
            }
            states = grown;
        }
        i += 1;
    }
    let request_id = random_uuid();
    let r = answer_delete_objects(&request.objects, &replies, request.quiet, request_id.as_str());
    proof {
        assert(deletes(states, bucket@, targets, replies@));
        assert(is_uuid(request_id@));
    }
    Ok(r)
}

/// What a request that copies an object may be answered.
pub open spec fn may_copy_object<S: Storage>(
    pre: S,
    dst_bucket: Seq<char>,
    dst_key: Seq<char>,
    source: Seq<char>,
    metadata: Entries,
    post: S,
    r: Result<PendingState, ErrorState>,
) -> bool {
    match copy_source(source) {
        Err(e) => post == pre && r == Err::<PendingState, _>(e),
        Ok((src_bucket, src_key)) => exists|
            reply: Result<ObjectState, S3Error>,
            request_id: Seq<char>,
        |
            #[trigger] S::may(
                pre,
                Call::CopyObject { src_bucket, src_key, dst_bucket, dst_key, metadata },
                post,
                Reply::Object(reply),
            ) && #[trigger] is_uuid(request_id) && r == copied_answer(
                reply,
                src_bucket,
                src_key,
                dst_bucket,
                dst_key,
                request_id,
            ),
    }
}

/// Copies an object. Metadata that is given replaces that of the source.
pub fn handle_copy_object<S: Storage>(
    storage: &mut S,
    dst_bucket: &str,
    dst_key: &str,
    source: &str,
    metadata: StringMap,
) -> (r: Result<PendingResponse, AwsError>)
    ensures
        may_copy_object(
            *old(storage),
            dst_bucket@,
            dst_key@,
            source@,
            metadata@,
            *final(storage),
            answer(r),
        ),
{
    let (src_bucket, src_key) = match validate_copy_source(source) {
        Ok(place) => place,
        Err(e) => {
            return Err(e);
        },
    };
    let reply = storage.copy_object(src_bucket, src_key, dst_bucket, dst_key, &metadata);
    let request_id = random_uuid();
    let ghost was = outcome(reply);
    assert(is_uuid(request_id@));
    answer_copy_object(reply, src_bucket, src_key, dst_bucket, dst_key, request_id.as_str())
}

/// Whether browsers may take content of this type, given without white space around it, for
/// an active document.
pub open spec fn is_active_type(t: Seq<char>) -> bool {
    ||| starts_with(t, "text/html"@)
    ||| starts_with(t, "application/xhtml+xml"@)
    ||| starts_with(t, "image/svg+xml"@)
    ||| starts_with(t, "text/javascript"@)
    ||| starts_with(t, "application/javascript"@)
    ||| starts_with(t, "application/ecmascript"@)
    ||| starts_with(t, "text/ecmascript"@)
    ||| starts_with(t, "application/xml"@)
}

/// The content type that an object is stored with: the default in place of none and of those
/// that browsers may take for an active document.
pub open spec fn sanitized(content_type: Seq<char>) -> Seq<char> {
    let t = trim(content_type);
    if t.len() == 0 || is_active_type(t) {
        "binary/octet-stream"@
    } else {
        content_type
    }
}

/// The content type that an object is stored with.
pub fn sanitize_content_type(content_type: &str) -> (r: &str)
    ensures
        r@ == sanitized(content_type@),
{
    let chars = chars_of(content_type);
    let (from, to) = trimmed(&chars, 0, chars.len());
    assert(chars@.subrange(0, chars@.len() as int) =~= content_type@);
    if from == to {
        return "binary/octet-stream";
    }
    let text = string_of(&chars, from, to);
    let t = text.as_str();
    if has_prefix(t, "text/html") || has_prefix(t, "application/xhtml+xml") || has_prefix(
        t,
        "image/svg+xml",
    ) || has_prefix(t, "text/javascript") || has_prefix(t, "application/javascript") || has_prefix(
        t,
        "application/ecmascript",
    ) || has_prefix(t, "text/ecmascript") || has_prefix(t, "application/xml") {
        return "binary/octet-stream";
    }
    content_type
}

/// The object that a request stores.
pub open spec fn new_object(
    content_type: Seq<char>,
    metadata: Entries,
    data: Seq<u8>,
    now: Timestamp,
) -> ObjectState {
    ObjectState {
        data,
        etag: etag_of(data),
        content_type: sanitized(content_type),
        last_modified: now,
        metadata,
    }
}

/// What a request that stores an object may be answered.
pub open spec fn may_put_object<S: Storage>(
    pre: S,
    bucket: Seq<char>,
    key: Seq<char>,
    content_type: Seq<char>,
    metadata: Entries,
    data: Seq<u8>,
    post: S,
    r: Result<ResponseState, ErrorState>,
) -> bool {
    exists|now: Timestamp, reply: Result<(), S3Error>, request_id: Seq<char>|
        #[trigger] S::may(
            pre,
            Call::PutObject {
                bucket,
                key,
                object: new_object(content_type, metadata, data, now),
            },
            post,
            Reply::Done(reply),
        ) && #[trigger] is_uuid(request_id) && r == stored_answer(
            reply,
            bucket,
            key,
            etag_of(data),
            request_id,
        )
}

/// The object that a request stores, at the time given.
pub fn object_to_store(
    content_type: &str,
    metadata: StringMap,
    body: Bytes,
    now: Timestamp,
) -> (o: S3Object)
    ensures
        o@ == new_object(content_type@, metadata@, bytes_of(body), now),
{
    let etag = format_etag(&body);
    S3Object {
        data: body,
        etag,
        content_type: sanitize_content_type(content_type).to_string(),
        last_modified: now,
        metadata,
    }
}

/// Stores an object.
pub fn handle_put_object<S: Storage>(
    storage: &mut S,
    bucket: &str,
    key: &str,
    content_type: &str,
    metadata: StringMap,
    body: Bytes,
) -> (r: Result<Response, AwsError>)
    ensures
        may_put_object(
            *old(storage),
            bucket@,
            key@,
            content_type@,
            metadata@,
            bytes_of(body),
            *final(storage),
            answer(r),
        ),
{
    let now = Timestamp::now();
    let object = object_to_store(content_type, metadata, body, now);
    let etag = object.etag.clone();
    let reply = storage.put_object(bucket, key, object);
    let request_id = random_uuid();
    assert(is_uuid(request_id@));
    answer_put_object(reply, bucket, key, etag.as_str(), request_id.as_str())
}

/// What a request for an object may be answered.
pub open spec fn may_get_object<S: Storage>(
    s: S,
    bucket: Seq<char>,
    key: Seq<char>,
    r: Result<ResponseState, ErrorState>,
) -> bool {
    exists|reply: Result<ObjectState, S3Error>, request_id: Seq<char>|
        #[trigger] S::may(s, Call::GetObject { bucket, key }, s, Reply::Object(reply))
            && #[trigger] is_uuid(request_id) && r == object_answer(
            reply,
            bucket,
            key,
            true,
            request_id,
        )
}

/// Reads an object.
pub fn handle_get_object<S: Storage>(storage: &S, bucket: &str, key: &str) -> (r: Result<
    Response,
    AwsError,
>)
    ensures
        may_get_object(*storage, bucket@, key@, answer(r)),
{
    let reply = storage.get_object(bucket, key);
    let request_id = random_uuid();
    assert(is_uuid(request_id@));
    answer_get_object(reply, bucket, key, request_id.as_str())
}

/// What a request for what is known of an object may be answered.
pub open spec fn may_head_object<S: Storage>(
    s: S,
    bucket: Seq<char>,
    key: Seq<char>,
    r: Result<ResponseState, ErrorState>,
) -> bool {
    exists|reply: Result<ObjectState, S3Error>, request_id: Seq<char>|
        #[trigger] S::may(s, Call::HeadObject { bucket, key }, s, Reply::Object(reply))
            && #[trigger] is_uuid(request_id) && r == object_answer(
            reply,
            bucket,
            key,
            false,
            request_id,
        )
}

/// Reads what is known of an object.
pub fn handle_head_object<S: Storage>(storage: &S, bucket: &str, key: &str) -> (r: Result<
    Response,
    AwsError,
>)
    ensures
        may_head_object(*storage, bucket@, key@, answer(r)),
{
    let reply = storage.head_object(bucket, key);
    let request_id = random_uuid();
    assert(is_uuid(request_id@));
    answer_head_object(reply, bucket, key, request_id.as_str())
}

/// What a request that deletes an object may be answered.
pub open spec fn may_delete_object<S: Storage>(
    pre: S,
    bucket: Seq<char>,
    key: Seq<char>,
    post: S,
    r: Result<ResponseState, ErrorState>,
) -> bool {
    exists|reply: Result<(), S3Error>, request_id: Seq<char>|
        #[trigger] S::may(pre, Call::DeleteObject { bucket, key }, post, Reply::Done(reply))
            && #[trigger] is_uuid(request_id) && r == object_deleted_answer(
            reply,
            bucket,
            key,
            request_id,
        )
}

/// Deletes an object. To delete what is not there succeeds.
pub fn handle_delete_object<S: Storage>(storage: &mut S, bucket: &str, key: &str) -> (r: Result<
    Response,
    AwsError,
>)
    ensures
        may_delete_object(*old(storage), bucket@, key@, *final(storage), answer(r)),
{
    let reply = storage.delete_object(bucket, key);
    let request_id = random_uuid();
    assert(is_uuid(request_id@));
    answer_delete_object(reply, bucket, key, request_id.as_str())
}

/// Begins a multipart upload: not implemented.
pub fn handle_create_multipart_upload<S: Storage>(_storage: &S, _bucket: &str, _key: &str) -> (r:
    Result<Response, AwsError>)
    ensures
        answer(r) == Err::<ResponseState, _>(not_implemented()),
{
    Err(AwsError::new(AwsErrorKind::NotImplemented))
}

/// Uploads a part: not implemented.
pub fn handle_upload_part<S: Storage>(
    _storage: &S,
    _bucket: &str,
    _key: &str,
    _part_number: u32,
    _upload_id: &str,
    _body: Bytes,
) -> (r: Result<Response, AwsError>)
    ensures
        answer(r) == Err::<ResponseState, _>(not_implemented()),
{
    Err(AwsError::new(AwsErrorKind::NotImplemented))
}

/// Completes a multipart upload: not implemented.
pub fn handle_complete_multipart_upload<S: Storage>(
    _storage: &S,
    _bucket: &str,
    _key: &str,
    _upload_id: &str,
    _body: Bytes,
) -> (r: Result<Response, AwsError>)
    ensures
        answer(r) == Err::<ResponseState, _>(not_implemented()),
{
    Err(AwsError::new(AwsErrorKind::NotImplemented))
}

/// Aborts a multipart upload: not implemented.
pub fn handle_abort_multipart_upload<S: Storage>(
    _storage: &S,
    _bucket: &str,
    _key: &str,
    _upload_id: &str,
) -> (r: Result<Response, AwsError>)
    ensures
        answer(r) == Err::<ResponseState, _>(not_implemented()),
{
    Err(AwsError::new(AwsErrorKind::NotImplemented))
}

/// Lists the parts of an upload: not implemented.
pub fn handle_list_parts<S: Storage>(
    _storage: &S,
    _bucket: &str,
    _key: &str,
    _upload_id: &str,
    _query: &str,
) -> (r: Result<Response, AwsError>)
    ensures
        answer(r) == Err::<ResponseState, _>(not_implemented()),
{
    Err(AwsError::new(AwsErrorKind::NotImplemented))
}

} // verus!
