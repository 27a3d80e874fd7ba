//! What requests for objects do, told by what the backend holds before and after.

use crate::clock::{formatted, Timestamp};
use crate::digest::{etag_of, is_uuid};
use crate::message::ResponseState;
use crate::numbers::decimal;
use crate::protocol::error::{ErrorState, Fault};
use crate::protocol::types::ObjectState;
use crate::router::service::error_response;
use crate::s3::answers::{DocumentState, PendingState};
use crate::s3::handlers::{
    is_active_type, may_copy_object, may_delete_object, may_get_object, may_head_object,
    may_put_object, new_object,
};
use crate::s3::memory::DefaultStorage;
use crate::s3::model::{Call, Reply, S3Error, StorageState};
use crate::s3::storage::Storage;
use crate::string_map::Entries;
use crate::text::{is_space, starts_with};
use crate::text_laws::space_around_is_trimmed;
use vstd::prelude::*;
use vstd::string::*;

verus! {

/// Whether an object is there.
pub open spec fn holds(s: StorageState, bucket: Seq<char>, key: Seq<char>) -> bool {
    s.buckets.contains_key(bucket) && s.buckets[bucket].objects.contains_key(key)
}

/// Whether all that is kept of other objects, and of buckets and uploads, is the same.
pub open spec fn same_but_for(
    a: StorageState,
    b: StorageState,
    bucket: Seq<char>,
    key: Seq<char>,
) -> bool {
    &&& a.buckets.dom() == b.buckets.dom()
    &&& forall|n: Seq<char>| #[trigger]
        a.buckets.contains_key(n) ==> {
            let x = a.buckets[n];
            let y = b.buckets[n];
            &&& x.name == y.name
            &&& x.creation_date == y.creation_date
            &&& x.uploads == y.uploads
            &&& n != bucket ==> x.objects == y.objects
            &&& forall|k: Seq<char>|
                (n != bucket || k != key) ==> (#[trigger] x.objects.contains_key(k)
                    <==> y.objects.contains_key(k))
            &&& forall|k: Seq<char>|
                (n != bucket || k != key) && #[trigger] x.objects.contains_key(k) ==> x.objects[k]
                    == y.objects[k]
        }
}

/// Whether the header fields of an answer are those of an object: its type, length, entity tag
/// and date, what identifies the request, and its metadata.
pub open spec fn tells_of(headers: Seq<(Seq<char>, Seq<char>)>, o: ObjectState) -> bool {
    &&& headers.len() == 6 + o.metadata.len()
    &&& headers[0] == ("Content-Type"@, o.content_type)
    &&& headers[1] == ("Content-Length"@, decimal(o.data.len()))
    &&& headers[2] == ("ETag"@, o.etag)
    &&& headers[3] == (
        "Last-Modified"@,
        formatted(
            o.last_modified.secs(),
            o.last_modified.nanos(),
            "%a, %d %b %Y %H:%M:%S GMT"@,
        ),
    )
    &&& headers[4].0 == "x-amz-request-id"@
    &&& is_uuid(headers[4].1)
    &&& headers[5].0 == "x-amz-id-2"@
    &&& forall|i: int|
        0 <= i < o.metadata.len() ==> headers[6 + i] == (
            "x-amz-meta-"@ + (#[trigger] o.metadata[i]).0,
            o.metadata[i].1,
        )
}

/// A GET or HEAD of an object that is there succeeds, and tells its type, length, entity tag,
/// date and metadata as the backend holds them. A GET gives its bytes, a HEAD none.
pub proof fn object_is_served_as_it_is_held(
    s: DefaultStorage,
    bucket: Seq<char>,
    key: Seq<char>,
    got: Result<ResponseState, ErrorState>,
    head: Result<ResponseState, ErrorState>,
)
    requires
        may_get_object(s, bucket, key, got),
        may_head_object(s, bucket, key, head),
        holds(s@, bucket, key),
    ensures
        got is Ok,
        head is Ok,
        ({
            let o = s@.buckets[bucket].objects[key];
            &&& got->Ok_0.status == 200
            &&& head->Ok_0.status == 200
            &&& got->Ok_0.body == o.data
            &&& head->Ok_0.body.len() == 0
            &&& tells_of(got->Ok_0.headers, o)
            &&& tells_of(head->Ok_0.headers, o)
        }),
{
}

/// A GET or HEAD of an object that is not there is answered with status 404: that there is no
/// such bucket, or no such key in it.
pub proof fn missing_object_is_not_found(
    s: DefaultStorage,
    bucket: Seq<char>,
    key: Seq<char>,
    got: Result<ResponseState, ErrorState>,
    head: Result<ResponseState, ErrorState>,
)
    requires
        may_get_object(s, bucket, key, got),
        may_head_object(s, bucket, key, head),
        !holds(s@, bucket, key),
    ensures
        got is Err,
        head is Err,
        got->Err_0 == head->Err_0,
        error_response(got->Err_0).status == 404,
        got->Err_0.fault == (if s@.buckets.contains_key(bucket) {
            Fault::NoSuchKey { bucket_name: bucket, key }
        } else {
            Fault::NoSuchBucket { bucket_name: bucket }
        }),
{
}

/// An object is stored where its bucket is there and has fewer than a hundred thousand objects,
/// it has at most 5 GiB, and all bytes that are counted stay within 10 TiB; else the request is
/// refused, and nothing changes. What is stored is the bytes and the metadata given, and no
/// other object, bucket or upload changes.
pub proof fn put_stores_what_fits(
    pre: DefaultStorage,
    bucket: Seq<char>,
    key: Seq<char>,
    content_type: Seq<char>,
    metadata: Entries,
    data: Seq<u8>,
    post: DefaultStorage,
    put: Result<ResponseState, ErrorState>,
)
    requires
        may_put_object(pre, bucket, key, content_type, metadata, data, post, put),
    ensures
        put is Ok <==> pre@.buckets.contains_key(bucket)
            && pre@.buckets[bucket].objects.dom().len() < 100_000 && data.len() <= 5 * 1024 * 1024
            * 1024 && pre@.total_bytes + data.len() <= 10 * 1024 * 1024 * 1024 * 1024,
        put is Err ==> post@ == pre@,
        put is Err ==> error_response(put->Err_0).status == (if !pre@.buckets.contains_key(bucket) {
            404
        } else if pre@.buckets[bucket].objects.dom().len() < 100_000 && data.len() > 5 * 1024 * 1024
            * 1024 {
            400
        } else {
            500u16
        }),
        put is Err ==> put->Err_0.fault == (if !pre@.buckets.contains_key(bucket) {
            Fault::NoSuchBucket { bucket_name: bucket }
        } else if pre@.buckets[bucket].objects.dom().len() < 100_000 && data.len() > 5 * 1024 * 1024
            * 1024 {
            Fault::EntityTooLarge { entity: "object"@ }
        } else {
            Fault::InternalError { details: Some("Max capacity exceeded"@) }
        }),
        put is Ok ==> ({
            let o = post@.buckets[bucket].objects[key];
            let r = put->Ok_0;
            &&& holds(post@, bucket, key)
            &&& o.data == data
            &&& o.etag == etag_of(data)
            &&& o.metadata == metadata
            &&& same_but_for(pre@, post@, bucket, key)
            &&& post@.total_bytes == pre@.total_bytes + data.len()
            &&& r.status == 200
            &&& r.body.len() == 0
            &&& r.headers.len() == 3
            &&& r.headers[0] == ("ETag"@, etag_of(data))
            &&& r.headers[1].0 == "x-amz-request-id"@
            &&& is_uuid(r.headers[1].1)
            &&& r.headers[2].0 == "x-amz-id-2"@
        }),
{
    let (now, reply, id) = choose|now: Timestamp, reply: Result<(), S3Error>, id: Seq<char>|
        #[trigger] DefaultStorage::may(
            pre,
            Call::PutObject {
                bucket,
                key,
                object: new_object(content_type, metadata, data, now),
            },
            post,
            Reply::Done(reply),
        ) && #[trigger] is_uuid(id) && put == crate::s3::answers::stored_answer(
            reply,
            bucket,
            key,
            etag_of(data),
            id,
        );
    if put is Ok {
        assert(post@.buckets.dom() =~= pre@.buckets.dom());
    }
}

/// An object that is to be stored has the bytes, the metadata and the time that are given, and
/// the checksum of the bytes.
pub proof fn object_to_store_is_what_was_given(
    content_type: Seq<char>,
    metadata: Entries,
    data: Seq<u8>,
    now: Timestamp,
)
    ensures
        ({
            let o = new_object(content_type, metadata, data, now);
            &&& o.data == data
            &&& o.metadata == metadata
            &&& o.last_modified == now
            &&& o.etag == etag_of(data)
        }),
{
}

/// Whether a content type, without white space around it, begins with one of those that
/// browsers may take for an active document.
pub open spec fn begins_as_active(t: Seq<char>) -> bool {
    ||| starts_with(t, "text/html"@)
    ||| starts_with(t, "application/xhtml+xml"@)
    ||| starts_with(t, "image/svg+xml"@)
    ||| starts_with(t, "text/javascript"@)
    ||| starts_with(t, "application/javascript"@)
    ||| starts_with(t, "application/ecmascript"@)
    ||| starts_with(t, "text/ecmascript"@)
    ||| starts_with(t, "application/xml"@)
}

/// An object is stored and served with the content type exactly as it was given, white space
/// around it and all. The two exceptions are a blank one, and one that begins as an active type
/// does: those are stored and served as `binary/octet-stream`.
pub proof fn content_type_is_kept_unless_active(
    pre: DefaultStorage,
    bucket: Seq<char>,
    key: Seq<char>,
    left: Seq<char>,
    core: Seq<char>,
    right: Seq<char>,
    metadata: Entries,
    data: Seq<u8>,
    post: DefaultStorage,
    put: Result<ResponseState, ErrorState>,
    got: Result<ResponseState, ErrorState>,
    head: Result<ResponseState, ErrorState>,
)
    requires
        forall|i: int| 0 <= i < left.len() ==> is_space(#[trigger] left[i]),
        forall|i: int| 0 <= i < right.len() ==> is_space(#[trigger] right[i]),
        core.len() > 0 ==> !is_space(core[0]) && !is_space(core.last()),
        may_put_object(pre, bucket, key, left + core + right, metadata, data, post, put),
        put is Ok,
        may_get_object(post, bucket, key, got),
        may_head_object(post, bucket, key, head),
    ensures
        holds(post@, bucket, key),
        got is Ok,
        head is Ok,
        ({
            let t = if core.len() == 0 || begins_as_active(core) {
                "binary/octet-stream"@
            } else {
                left + core + right
            };
            &&& post@.buckets[bucket].objects[key].content_type == t
            &&& got->Ok_0.headers[0] == ("Content-Type"@, t)
            &&& head->Ok_0.headers[0] == ("Content-Type"@, t)
        }),
{
    space_around_is_trimmed(left, core, right);
    assert(is_active_type(core) == begins_as_active(core));
}

/// Deleting succeeds with status 204 wherever the bucket is there, whether the object is or not;
/// then the object is gone, and its bytes are no longer counted. No other object, bucket or
/// upload changes. Without the bucket, the answer is status 404.
pub proof fn delete_takes_the_object_away(
    pre: DefaultStorage,
    bucket: Seq<char>,
    key: Seq<char>,
    post: DefaultStorage,
    r: Result<ResponseState, ErrorState>,
)
    requires
        may_delete_object(pre, bucket, key, post, r),
    ensures
        r is Ok <==> pre@.buckets.contains_key(bucket),
        r is Ok ==> r->Ok_0.status == 204 && r->Ok_0.body.len() == 0,
        r is Err ==> post@ == pre@ && r->Err_0.fault == (Fault::NoSuchBucket {
            bucket_name: bucket,
        }) && error_response(r->Err_0).status == 404,
        !holds(post@, bucket, key),
        same_but_for(pre@, post@, bucket, key),
        !holds(pre@, bucket, key) ==> post@ == pre@,
        holds(pre@, bucket, key) && pre@.buckets[bucket].objects[key].data.len()
            <= pre@.total_bytes ==> post@.total_bytes == pre@.total_bytes
            - pre@.buckets[bucket].objects[key].data.len(),
{
    assert(post@.buckets.dom() =~= pre@.buckets.dom());
}

/// A copy, whose source is written as bucket and key with a slash between them and one in front
/// or none, has the bytes, the entity tag and the content type of its source, and the metadata
/// given where there is any, else that of its source. Nothing else changes, and the bytes are
/// not counted twice. The answer tells the entity tag and the date of the copy.
pub proof fn copy_is_made_of_its_source(
    pre: DefaultStorage,
    src_bucket: Seq<char>,
    src_key: Seq<char>,
    dst_bucket: Seq<char>,
    dst_key: Seq<char>,
    source: Seq<char>,
    metadata: Entries,
    post: DefaultStorage,
    r: Result<PendingState, ErrorState>,
)
    requires
        may_copy_object(pre, dst_bucket, dst_key, source, metadata, post, r),
        crate::s3::copy_source::copy_source(source) == Ok::<_, ErrorState>((src_bucket, src_key)),
    ensures
        r is Ok <==> holds(pre@, src_bucket, src_key) && pre@.buckets.contains_key(dst_bucket) && (
        pre@.buckets[dst_bucket].objects.dom().len() < 100_000 || holds(pre@, dst_bucket, dst_key)),
        r is Err ==> post@ == pre@,
        r is Err && pre@.buckets.contains_key(src_bucket) && !holds(pre@, src_bucket, src_key)
            ==> r->Err_0.fault == (Fault::NoSuchKey { bucket_name: src_bucket, key: src_key })
            && error_response(r->Err_0).status == 404,
        r is Err && !pre@.buckets.contains_key(src_bucket) || !pre@.buckets.contains_key(dst_bucket)
            && holds(pre@, src_bucket, src_key) ==> r->Err_0.fault == (Fault::NoSuchBucket {
            bucket_name: dst_bucket,
        }) && error_response(r->Err_0).status == 404,
        r is Ok ==> ({
            let original = pre@.buckets[src_bucket].objects[src_key];
            let copy = post@.buckets[dst_bucket].objects[dst_key];
            let p = r->Ok_0;
            &&& holds(post@, dst_bucket, dst_key)
            &&& copy.data == original.data
            &&& copy.etag == original.etag
            &&& copy.content_type == original.content_type
            &&& metadata.len() > 0 ==> copy.metadata == metadata
            &&& metadata.len() == 0 ==> copy.metadata == original.metadata
            &&& same_but_for(pre@, post@, dst_bucket, dst_key)
            &&& post@.total_bytes == pre@.total_bytes
            &&& p.status == 200
            &&& p.document == (DocumentState::Copied {
                etag: original.etag,
                last_modified: copy.last_modified,
            })
            &&& p.headers.len() == 3
            &&& p.headers[0] == ("Content-Type"@, "application/xml"@)
            &&& p.headers[1].0 == "x-amz-request-id"@
            &&& is_uuid(p.headers[1].1)
            &&& p.headers[2].0 == "x-amz-id-2"@
        }),
{
    assert(post@.buckets.dom() =~= pre@.buckets.dom());
}

} // verus!
