//! What holds of the service across requests, on top of the backend that keeps all in memory.

use crate::clock::Timestamp;
use crate::digest::{etag_of, is_uuid};
use crate::message::{Fields, ResponseState};
use crate::numbers::decimal;
use crate::protocol::error::{fault_status, ErrorState, Fault};
use crate::protocol::types::{DeleteTarget, ObjectState};
use crate::s3::answers::{deleted_lines, error_lines, PendingState};
use crate::s3::copy_source::copy_source;
use crate::s3::handlers::{
    deletes, may_copy_object, may_create_bucket, may_delete_object, may_delete_objects,
    may_get_object, may_head_object, may_put_object, new_object, sanitized,
};
use crate::s3::laws::{put_reads_back, refused_call_changes_nothing};
use crate::s3::memory::DefaultStorage;
use crate::s3::model::{get_object, refuses, step, Call, Reply, S3Error};
use crate::s3::service::{may_dispatch, StepState};
use crate::s3::storage::Storage;
use crate::string_map::Entries;
use vstd::prelude::*;

verus! {

/// A request that is answered with an error changes nothing.
pub proof fn refused_request_changes_nothing(
    pre: DefaultStorage,
    method: Seq<char>,
    bucket: Seq<char>,
    key: Seq<char>,
    params: Entries,
    fields: Fields,
    data: Seq<u8>,
    post: DefaultStorage,
    r: Result<StepState, ErrorState>,
)
    requires
        may_dispatch(pre, method, bucket, key, params, fields, data, post, r),
        r is Err,
    ensures
        post@ == pre@,
{
    broadcast use lemma_refused_reply;

}

/// A reply that is an error comes with no change.
broadcast proof fn lemma_refused_reply(
    pre: DefaultStorage,
    call: Call,
    post: DefaultStorage,
    reply: Reply,
)
    requires
        #[trigger] DefaultStorage::may(pre, call, post, reply),
        refuses(reply),
    ensures
        post@ == pre@,
{
    let (now, id) = choose|now: Timestamp, id: Seq<char>|
        (call is CreateMultipartUpload ==> is_uuid(id)) && #[trigger] step(pre@, call, now, id)
            == (post@, reply);
    refused_call_changes_nothing(pre@, call, now, id);
}

/// What was stored is served: a GET that follows a PUT that succeeded gives its bytes back, and
/// the entity tag that the PUT was answered with. The object stored is the one given, whatever
/// was there before.
pub proof fn stored_object_is_served(
    pre: DefaultStorage,
    bucket: Seq<char>,
    key: Seq<char>,
    content_type: Seq<char>,
    metadata: Entries,
    data: Seq<u8>,
    post: DefaultStorage,
    put: Result<ResponseState, ErrorState>,
    got: Result<ResponseState, ErrorState>,
)
    requires
        may_put_object(pre, bucket, key, content_type, metadata, data, post, put),
        put is Ok,
        may_get_object(post, bucket, key, got),
    ensures
        put->Ok_0.status == 200,
        get_object(post@, bucket, key) is Ok,
        ({
            let o = get_object(post@, bucket, key)->Ok_0;
            &&& o.data == data
            &&& o.etag == etag_of(data)
            &&& o.metadata == metadata
            &&& o.content_type == sanitized(content_type)
        }),
        got is Ok,
        got->Ok_0.status == 200,
        got->Ok_0.body == data,
        got->Ok_0.headers[0] == ("Content-Type"@, sanitized(content_type)),
        put->Ok_0.headers[0] == ("ETag"@, etag_of(data)),
        got->Ok_0.headers[2] == ("ETag"@, etag_of(data)),
{
    let (now, reply, id) = choose|now: Timestamp, reply: Result<(), S3Error>, id: Seq<char>|
        #[trigger] DefaultStorage::may(
            pre,
            Call::PutObject {
                bucket,
                key,
                object: new_object(content_type, metadata, data, now),
            },
            post,
            Reply::Done(reply),
        ) && #[trigger] is_uuid(id) && put == crate::s3::answers::stored_answer(
            reply,
            bucket,
            key,
            etag_of(data),
            id,
        );
    put_reads_back(pre@, bucket, key, new_object(content_type, metadata, data, now));
}

/// A PUT into a bucket that does not exist is refused as not found, and stores nothing.
pub proof fn put_needs_a_bucket(
    pre: DefaultStorage,
    bucket: Seq<char>,
    key: Seq<char>,
    content_type: Seq<char>,
    metadata: Entries,
    data: Seq<u8>,
    post: DefaultStorage,
    put: Result<ResponseState, ErrorState>,
)
    requires
        may_put_object(pre, bucket, key, content_type, metadata, data, post, put),
        !pre@.buckets.contains_key(bucket),
    ensures
        put is Err,
        put->Err_0.fault == (Fault::NoSuchBucket { bucket_name: bucket }),
        fault_status(put->Err_0.fault) == 404,
        post@ == pre@,
{
}

/// A HEAD is answered as a GET of the same object, without the bytes and but for the
/// identifier of the request.
pub proof fn head_is_get_without_bytes(
    s: DefaultStorage,
    bucket: Seq<char>,
    key: Seq<char>,
    got: Result<ResponseState, ErrorState>,
    head: Result<ResponseState, ErrorState>,
)
    requires
        may_get_object(s, bucket, key, got),
        may_head_object(s, bucket, key, head),
    ensures
        got is Ok <==> head is Ok,
        got is Err ==> got == head,
        got is Ok ==> ({
            let g = got->Ok_0;
            let h = head->Ok_0;
            let o = get_object(s@, bucket, key)->Ok_0;
            &&& get_object(s@, bucket, key) is Ok
            &&& h.status == 200
            &&& g.status == 200
            &&& g.body == o.data
            &&& h.body.len() == 0
            &&& g.headers[1] == ("Content-Length"@, decimal(o.data.len()))
            &&& h.headers.len() == g.headers.len()
            &&& forall|i: int|
                0 <= i < g.headers.len() && i != 4 ==> #[trigger] h.headers[i] == g.headers[i]
        }),
{
}

/// To delete an object twice succeeds twice, and the second time changes nothing.
pub proof fn delete_is_idempotent(
    pre: DefaultStorage,
    bucket: Seq<char>,
    key: Seq<char>,
    mid: DefaultStorage,
    first: Result<ResponseState, ErrorState>,
    post: DefaultStorage,
    second: Result<ResponseState, ErrorState>,
)
    requires
        may_delete_object(pre, bucket, key, mid, first),
        first is Ok,
        may_delete_object(mid, bucket, key, post, second),
    ensures
        second is Ok,
        second->Ok_0.status == 204,
        post@ == mid@,
        get_object(post@, bucket, key) == Err::<ObjectState, _>(S3Error::NoSuchKey),
{
}

/// A copy is served: a GET of the destination gives the bytes of the source.
pub proof fn copy_is_served(
    pre: DefaultStorage,
    dst_bucket: Seq<char>,
    dst_key: Seq<char>,
    source: Seq<char>,
    metadata: Entries,
    post: DefaultStorage,
    copied: Result<PendingState, ErrorState>,
    got: Result<ResponseState, ErrorState>,
)
    requires
        may_copy_object(pre, dst_bucket, dst_key, source, metadata, post, copied),
        copied is Ok,
        may_get_object(post, dst_bucket, dst_key, got),
    ensures
        copy_source(source) is Ok,
        got is Ok,
        ({
            let (src_bucket, src_key) = copy_source(source)->Ok_0;
            let original = get_object(pre@, src_bucket, src_key);
            original is Ok && got->Ok_0.body == original->Ok_0.data
        }),
        post@.total_bytes == pre@.total_bytes,
{
}

/// Each object of a request that deletes several has one line in the answer.
pub proof fn every_target_has_a_line(
    targets: Seq<DeleteTarget>,
    replies: Seq<Result<(), S3Error>>,
)
    ensures
        deleted_lines(targets, replies).len() + error_lines(targets, replies).len()
            == replies.len(),
    decreases replies.len(),
{
    if replies.len() > 0 {
        every_target_has_a_line(targets, replies.drop_last());
    }
}

/// After a request that deletes several objects, none of them is there.
pub proof fn deleted_objects_are_gone(
    pre: DefaultStorage,
    bucket: Seq<char>,
    quiet: bool,
    targets: Seq<DeleteTarget>,
    post: DefaultStorage,
    r: Result<PendingState, ErrorState>,
    i: int,
)
    requires
        may_delete_objects(pre, bucket, Ok((quiet, targets)), post, r),
        r is Ok,
        0 <= i < targets.len(),
    ensures
        get_object(post@, bucket, targets[i].key) is Err,
{
    let (states, replies, id) = choose|
        states: Seq<DefaultStorage>,
        replies: Seq<Result<(), S3Error>>,
        id: Seq<char>,
    |
        #[trigger] deletes(states, bucket, targets, replies) && #[trigger] is_uuid(id)
            && replies.len() == targets.len() && states[0] == pre && states.last() == post && r
            == Ok::<_, ErrorState>(
            crate::s3::answers::delete_objects_answer(targets, replies, quiet, id),
        );
    lemma_gone(states, bucket, targets, replies, i, replies.len() as int);
}

/// Once deleted, an object stays away while others are deleted.
proof fn lemma_gone(
    states: Seq<DefaultStorage>,
    bucket: Seq<char>,
    targets: Seq<DeleteTarget>,
    replies: Seq<Result<(), S3Error>>,
    i: int,
    n: int,
)
    requires
        deletes(states, bucket, targets, replies),
        0 <= i < n <= replies.len(),
    ensures
        get_object(states[n]@, bucket, targets[i].key) is Err,
    decreases n,
{
    let j = n - 1;
    assert(DefaultStorage::may(
        states[j],
        Call::DeleteObject { bucket, key: targets[j].key },
        states[j + 1],
        Reply::Done(replies[j]),
    ));
    if i < j {
        lemma_gone(states, bucket, targets, replies, i, j);
    }
}

/// A bucket that was created cannot be created again.
pub proof fn second_creation_is_refused(
    pre: DefaultStorage,
    bucket: Seq<char>,
    mid: DefaultStorage,
    first: Result<PendingState, ErrorState>,
    post: DefaultStorage,
    second: Result<PendingState, ErrorState>,
)
    requires
        may_create_bucket(pre, bucket, mid, first),
        first is Ok,
        may_create_bucket(mid, bucket, post, second),
    ensures
        second is Err,
        post@ == mid@,
{
}

} // verus!
