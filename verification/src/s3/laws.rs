//! What holds of a storage backend across calls.

use crate::clock::Timestamp;
use crate::numbers::{decimal_reads_back, parsed};
use crate::protocol::types::{ObjectState, PartName};
use crate::s3::listing::{listing, pages_join};
use crate::s3::model::{
    abort_multipart_upload, bucket_kept, complete_multipart_upload, copy_object, create_bucket,
    create_multipart_upload, delete_bucket, delete_object, empty_state, find_upload, get_object,
    joined_object, joined_parts, list_objects_v2, lists_numbers, numbers_after, object_page,
    page_limit, part_kept, part_page, parts_size, put_object, refuses, resume_point, size_sum,
    sorted_numbers, step, upload_kept, upload_part, well_kept, within_limits, Call, PartState,
    S3Error, StorageState, UploadState, CIRRUS_MAX_MULTIPART_UPLOADS, CIRRUS_MAX_OBJECTS_PER_BUCKET,
    CIRRUS_MAX_OBJECT_SIZE, CIRRUS_MAX_PARTS_PER_UPLOAD, CIRRUS_MAX_TOTAL_BYTES,
};
use crate::s3::parts::lemma_sorted_numbers_is;
use crate::string_map::Entries;
use vstd::prelude::*;

verus! {

/// A refused call changes nothing.
pub proof fn refused_call_changes_nothing(
    s: StorageState,
    call: Call,
    now: Timestamp,
    id: Seq<char>,
)
    requires
        refuses(step(s, call, now, id).1),
    ensures
        step(s, call, now, id).0 == s,
{
}

/// Every call keeps everything under its own name.
pub proof fn calls_keep_names(s: StorageState, call: Call, now: Timestamp, id: Seq<char>)
    requires
        well_kept(s),
    ensures
        well_kept(step(s, call, now, id).0),
{
    let t = step(s, call, now, id).0;
    assert forall|name: Seq<char>| #[trigger] t.buckets.contains_key(name) implies bucket_kept(
        t.buckets[name],
        name,
    ) by {
        if s.buckets.contains_key(name) {
            assert(bucket_kept(s.buckets[name], name));
            let b = s.buckets[name];
            let c = t.buckets[name];
            assert forall|k: Seq<char>| #[trigger] c.uploads.contains_key(k) implies upload_kept(
                c.uploads[k],
                k,
            ) by {
                if b.uploads.contains_key(k) {
                    assert(upload_kept(b.uploads[k], k));
                    assert forall|n: u32| #[trigger]
                        c.uploads[k].parts.contains_key(n) implies part_kept(
                        c.uploads[k].parts[n],
                        n,
                    ) by {
                        if b.uploads[k].parts.contains_key(n) {
                            assert(part_kept(b.uploads[k].parts[n], n));
                        }
                    }
                }
            }
        }
    }
}

/// A backend that holds nothing keeps everything under its own name and within its limits.
pub proof fn empty_state_is_well_kept()
    ensures
        well_kept(empty_state()),
        within_limits(empty_state()),
{
}

/// Every call keeps everything within its limits.
pub proof fn calls_keep_within_limits(s: StorageState, call: Call, now: Timestamp, id: Seq<char>)
    requires
        well_kept(s),
        within_limits(s),
    ensures
        within_limits(step(s, call, now, id).0),
{
    let t = step(s, call, now, id).0;
    match call {
        Call::CreateBucket { .. } => {},
        Call::DeleteBucket { name } => {
            assert(t.buckets.dom() =~= s.buckets.dom() || t.buckets.dom()
                =~= s.buckets.dom().remove(name));
        },
        _ => {
            assert(t.buckets.dom() =~= s.buckets.dom());
        },
    }
    assert(t.total_bytes <= CIRRUS_MAX_TOTAL_BYTES) by {
        if call is AbortMultipartUpload && !refuses(step(s, call, now, id).1) {
            let upload = find_upload(
                s,
                call->AbortMultipartUpload_bucket,
                call->AbortMultipartUpload_key,
                call->AbortMultipartUpload_upload_id,
            )->Ok_0;
            lemma_size_is_no_debt(sorted_numbers(upload.parts.dom()), upload.parts);
        }
    }
    assert forall|name: Seq<char>| #[trigger] t.buckets.contains_key(name) implies {
        t.buckets[name].uploads.dom().len() <= CIRRUS_MAX_MULTIPART_UPLOADS
            && t.buckets[name].objects.dom().len() <= CIRRUS_MAX_OBJECTS_PER_BUCKET
    } by {
        if s.buckets.contains_key(name) {
            assert(bucket_kept(s.buckets[name], name));
            lemma_objects_within(s, call, now, id, name);
            let had = s.buckets[name].uploads.dom();
            let has = t.buckets[name].uploads.dom();
            match call {
                Call::CreateMultipartUpload { .. } => {
                    assert(has =~= had || has =~= had.insert(id));
                },
                Call::CompleteMultipartUpload { upload_id, .. } => {
                    assert(has =~= had || has =~= had.remove(upload_id));
                },
                Call::AbortMultipartUpload { upload_id, .. } => {
                    assert(has =~= had || has =~= had.remove(upload_id));
                },
                _ => {
                    assert(has =~= had);
                },
            }
        } else {
            assert(t.buckets[name].uploads.dom() =~= Set::empty());
            assert(t.buckets[name].objects.dom() =~= Set::empty());
        }
    }
    assert forall|name: Seq<char>, k: Seq<char>|
        t.buckets.contains_key(name)
            && #[trigger] t.buckets[name].objects.contains_key(k) implies {
        t.buckets[name].objects[k].data.len() <= CIRRUS_MAX_OBJECT_SIZE
    } by {
        if s.buckets.contains_key(name) && s.buckets[name].objects.contains_key(k) {
            assert(s.buckets[name].objects[k].data.len() <= CIRRUS_MAX_OBJECT_SIZE);
        }
        if call is CopyObject {
            let from = s.buckets[call->CopyObject_src_bucket].objects;
            assert(from.contains_key(call->CopyObject_src_key)
                ==> from[call->CopyObject_src_key].data.len() <= CIRRUS_MAX_OBJECT_SIZE
                || !s.buckets.contains_key(call->CopyObject_src_bucket));
        }
    }
    assert forall|name: Seq<char>, k: Seq<char>|
        t.buckets.contains_key(name)
            && #[trigger] t.buckets[name].uploads.contains_key(k) implies {
        t.buckets[name].uploads[k].parts.dom().len() <= CIRRUS_MAX_PARTS_PER_UPLOAD
    } by {
        if s.buckets.contains_key(name) && s.buckets[name].uploads.contains_key(k) {
            assert(bucket_kept(s.buckets[name], name));
            assert(upload_kept(s.buckets[name].uploads[k], k));
        }
    }
}

/// The sizes of parts add up to no less than zero.
proof fn lemma_size_is_no_debt(numbers: Seq<u32>, parts: Map<u32, PartState>)
    ensures
        size_sum(numbers, parts) >= 0,
    decreases numbers.len(),
{
    if numbers.len() > 0 {
        lemma_size_is_no_debt(numbers.drop_last(), parts);
    }
}

/// A call adds at most one object to a bucket, and none to one that is full.
proof fn lemma_objects_within(
    s: StorageState,
    call: Call,
    now: Timestamp,
    id: Seq<char>,
    name: Seq<char>,
)
    requires
        well_kept(s),
        within_limits(s),
        s.buckets.contains_key(name),
        step(s, call, now, id).0.buckets.contains_key(name),
    ensures
        step(s, call, now, id).0.buckets[name].objects.dom().len()
            <= CIRRUS_MAX_OBJECTS_PER_BUCKET,
{
    let t = step(s, call, now, id).0;
    assert(bucket_kept(s.buckets[name], name));
    let had = s.buckets[name].objects.dom();
    let has = t.buckets[name].objects.dom();
    match call {
        Call::PutObject { key, .. } => {
            assert(has =~= had || has =~= had.insert(key));
        },
        Call::CopyObject { dst_key, .. } => {
            assert(has =~= had || has =~= had.insert(dst_key));
        },
        Call::CompleteMultipartUpload { key, .. } => {
            assert(has =~= had || has =~= had.insert(key));
        },
        Call::DeleteObject { key, .. } => {
            assert(has =~= had || has =~= had.remove(key));
        },
        _ => {
            assert(has =~= had);
        },
    }
}

/// An object that was stored is what is read.
pub proof fn put_reads_back(
    s: StorageState,
    bucket: Seq<char>,
    key: Seq<char>,
    object: ObjectState,
)
    requires
        put_object(s, bucket, key, object).1 is Ok,
    ensures
        get_object(put_object(s, bucket, key, object).0, bucket, key) == Ok::<_, S3Error>(object),
{
}

/// Storing an object leaves every other object as it was.
pub proof fn put_leaves_others(
    s: StorageState,
    bucket: Seq<char>,
    key: Seq<char>,
    object: ObjectState,
    other_bucket: Seq<char>,
    other_key: Seq<char>,
)
    requires
        other_bucket != bucket || other_key != key,
    ensures
        get_object(put_object(s, bucket, key, object).0, other_bucket, other_key) == get_object(
            s,
            other_bucket,
            other_key,
        ),
{
}

/// Deleting a new object undoes storing it, down to the count of bytes.
pub proof fn delete_undoes_put(
    s: StorageState,
    bucket: Seq<char>,
    key: Seq<char>,
    object: ObjectState,
)
    requires
        put_object(s, bucket, key, object).1 is Ok,
        get_object(s, bucket, key) is Err,
    ensures
        delete_object(put_object(s, bucket, key, object).0, bucket, key) == (
            s,
            Ok::<(), S3Error>(()),
        ),
{
    let t = put_object(s, bucket, key, object).0;
    let u = delete_object(t, bucket, key).0;
    assert(t.buckets[bucket].objects.remove(key) =~= s.buckets[bucket].objects);
    assert(u.buckets =~= s.buckets);
}

/// A deleted object cannot be read, nor deleted again.
pub proof fn deleted_object_is_gone(s: StorageState, bucket: Seq<char>, key: Seq<char>)
    requires
        delete_object(s, bucket, key).1 is Ok,
    ensures
        get_object(delete_object(s, bucket, key).0, bucket, key) == Err::<ObjectState, _>(
            S3Error::NoSuchKey,
        ),
        delete_object(delete_object(s, bucket, key).0, bucket, key).1 == Err::<(), _>(
            S3Error::NoSuchKey,
        ),
{
}

/// A copy holds the bytes, entity tag and content type of its source; the source stays as it
/// was, and the count of bytes too.
pub proof fn copy_shares_bytes(
    s: StorageState,
    src_bucket: Seq<char>,
    src_key: Seq<char>,
    dst_bucket: Seq<char>,
    dst_key: Seq<char>,
    metadata: Entries,
    now: Timestamp,
)
    requires
        copy_object(s, src_bucket, src_key, dst_bucket, dst_key, metadata, now).1 is Ok,
    ensures
        ({
            let t = copy_object(s, src_bucket, src_key, dst_bucket, dst_key, metadata, now).0;
            let source = get_object(s, src_bucket, src_key)->Ok_0;
            let copy = get_object(t, dst_bucket, dst_key)->Ok_0;
            &&& get_object(s, src_bucket, src_key) is Ok
            &&& get_object(t, dst_bucket, dst_key) is Ok
            &&& copy.data == source.data
            &&& copy.etag == source.etag
            &&& copy.content_type == source.content_type
            &&& copy.last_modified == now
            &&& t.total_bytes == s.total_bytes
            &&& (src_bucket != dst_bucket || src_key != dst_key) ==> get_object(
                t,
                src_bucket,
                src_key,
            ) == get_object(s, src_bucket, src_key)
        }),
{
}

/// Deleting a new bucket undoes creating it.
pub proof fn delete_undoes_create_bucket(s: StorageState, name: Seq<char>, now: Timestamp)
    requires
        create_bucket(s, name, now).1 is Ok,
    ensures
        delete_bucket(create_bucket(s, name, now).0, name) == (s, Ok::<(), S3Error>(())),
{
    assert(delete_bucket(create_bucket(s, name, now).0, name).0.buckets =~= s.buckets);
}

/// A bucket cannot be created twice.
pub proof fn bucket_is_created_once(
    s: StorageState,
    name: Seq<char>,
    now: Timestamp,
    later: Timestamp,
)
    requires
        create_bucket(s, name, now).1 is Ok,
    ensures
        create_bucket(create_bucket(s, name, now).0, name, later).1 is Err,
{
}

/// A bucket with an object in it cannot be deleted.
pub proof fn bucket_with_object_stays(s: StorageState, bucket: Seq<char>, key: Seq<char>)
    requires
        well_kept(s),
        get_object(s, bucket, key) is Ok,
    ensures
        delete_bucket(s, bucket) == (s, Err::<(), _>(S3Error::BucketNotEmpty)),
{
    assert(bucket_kept(s.buckets[bucket], bucket));
    let keys = s.buckets[bucket].objects.dom();
    assert(keys.contains(key));
    if keys.len() == 0 {
        assert(keys =~= Set::empty());
    }
}

/// The page that a continuation token leads to holds the lines that follow the page before.
pub proof fn next_page_continues(
    s: StorageState,
    bucket: Seq<char>,
    prefix: Seq<char>,
    delimiter: Seq<char>,
    start_after: Seq<char>,
    max_keys: u32,
    token: Seq<char>,
)
    requires
        well_kept(s),
        list_objects_v2(s, bucket, prefix, delimiter, start_after, max_keys, token) is Ok,
        ({
            let first = list_objects_v2(
                s,
                bucket,
                prefix,
                delimiter,
                start_after,
                max_keys,
                token,
            )->Ok_0;
            first.is_truncated && first.next_continuation_token.len() > 0
        }),
    ensures
        ({
            let first = list_objects_v2(
                s,
                bucket,
                prefix,
                delimiter,
                start_after,
                max_keys,
                token,
            )->Ok_0;
            let objects = s.buckets[bucket].objects;
            let lines = listing(
                objects.dom(),
                prefix,
                delimiter,
                resume_point(start_after, token),
            );
            let limit = page_limit(max_keys) as int;
            &&& first == object_page(lines, max_keys, objects)
            &&& list_objects_v2(
                s,
                bucket,
                prefix,
                delimiter,
                start_after,
                max_keys,
                first.next_continuation_token,
            ) == Ok::<_, S3Error>(object_page(lines.skip(limit), max_keys, objects))
        }),
{
    assert(bucket_kept(s.buckets[bucket], bucket));
    let objects = s.buckets[bucket].objects;
    pages_join(
        objects.dom(),
        prefix,
        delimiter,
        resume_point(start_after, token),
        page_limit(max_keys),
    );
}

/// An uploaded part is kept with its bytes, under its number.
pub proof fn uploaded_part_is_kept(
    s: StorageState,
    bucket: Seq<char>,
    key: Seq<char>,
    id: Seq<char>,
    part_number: u32,
    data: Seq<u8>,
    now: Timestamp,
)
    requires
        upload_part(s, bucket, key, id, part_number, data, now).1 is Ok,
    ensures
        ({
            let t = upload_part(s, bucket, key, id, part_number, data, now).0;
            let parts = find_upload(t, bucket, key, id)->Ok_0.parts;
            &&& find_upload(t, bucket, key, id) is Ok
            &&& parts.contains_key(part_number)
            &&& parts[part_number].data == data
            &&& upload_part(s, bucket, key, id, part_number, data, now).1 == Ok::<_, S3Error>(
                parts[part_number].etag,
            )
        }),
{
}

/// The bytes of parts, one after the other.
pub open spec fn concatenated(names: Seq<PartName>, parts: Map<u32, PartState>) -> Seq<u8>
    decreases names.len(),
{
    if names.len() == 0 {
        Seq::empty()
    } else {
        parts[names[0].part_number].data + concatenated(names.drop_first(), parts)
    }
}

/// Parts that can be joined are joined one after the other.
pub proof fn lemma_joined(names: Seq<PartName>, parts: Map<u32, PartState>, above: u32)
    requires
        joined_parts(names, parts, above) is Ok,
    ensures
        joined_parts(names, parts, above) == Ok::<_, S3Error>(concatenated(names, parts)),
    decreases names.len(),
{
    if names.len() > 0 {
        lemma_joined(names.drop_first(), parts, names[0].part_number);
    }
}

/// A completed upload reads as the bytes of its parts, one after the other; the upload is gone
/// and the count of bytes is as it was.
pub proof fn completed_upload_reads_back(
    s: StorageState,
    bucket: Seq<char>,
    key: Seq<char>,
    id: Seq<char>,
    names: Seq<PartName>,
    now: Timestamp,
)
    requires
        complete_multipart_upload(s, bucket, key, id, names, now).1 is Ok,
    ensures
        ({
            let t = complete_multipart_upload(s, bucket, key, id, names, now).0;
            let parts = find_upload(s, bucket, key, id)->Ok_0.parts;
            let object = joined_object(concatenated(names, parts), names.len(), now);
            &&& find_upload(s, bucket, key, id) is Ok
            &&& get_object(t, bucket, key) == Ok::<_, S3Error>(object)
            &&& complete_multipart_upload(s, bucket, key, id, names, now).1 == Ok::<_, S3Error>(
                object.etag,
            )
            &&& find_upload(t, bucket, key, id) == Err::<UploadState, _>(S3Error::NoSuchUpload)
            &&& t.total_bytes == s.total_bytes
        }),
{
    lemma_joined(names, find_upload(s, bucket, key, id)->Ok_0.parts, 0);
}

/// Parts named out of order, or twice, are refused.
pub proof fn parts_out_of_order_are_refused(
    s: StorageState,
    bucket: Seq<char>,
    key: Seq<char>,
    id: Seq<char>,
    names: Seq<PartName>,
    now: Timestamp,
    i: int,
)
    requires
        0 <= i < names.len() - 1,
        names[i + 1].part_number <= names[i].part_number,
    ensures
        complete_multipart_upload(s, bucket, key, id, names, now).1 is Err,
{
    if find_upload(s, bucket, key, id) is Ok {
        lemma_order(names, find_upload(s, bucket, key, id)->Ok_0.parts, 0, i);
    }
}

/// Parts out of order cannot be joined.
proof fn lemma_order(names: Seq<PartName>, parts: Map<u32, PartState>, above: u32, i: int)
    requires
        0 <= i < names.len() - 1,
        names[i + 1].part_number <= names[i].part_number,
    ensures
        joined_parts(names, parts, above) is Err,
    decreases i,
{
    let rest = names.drop_first();
    if i == 0 {
        assert(rest[0] == names[1]);
    } else {
        assert(rest[i - 1] == names[i]);
        assert(rest[i] == names[i + 1]);
        lemma_order(rest, parts, names[0].part_number, i - 1);
    }
}

/// Aborting a new upload undoes beginning it.
pub proof fn abort_undoes_begin(
    s: StorageState,
    bucket: Seq<char>,
    key: Seq<char>,
    id: Seq<char>,
    now: Timestamp,
)
    requires
        create_multipart_upload(s, bucket, key, id, now).1 is Ok,
        !s.buckets[bucket].uploads.contains_key(id),
    ensures
        abort_multipart_upload(
            create_multipart_upload(s, bucket, key, id, now).0,
            bucket,
            key,
            id,
        ) == (s, Ok::<(), S3Error>(())),
{
    let t = create_multipart_upload(s, bucket, key, id, now).0;
    let u = abort_multipart_upload(t, bucket, key, id).0;
    let parts = t.buckets[bucket].uploads[id].parts;
    lemma_sorted_numbers_is(Seq::empty(), parts.dom());
    assert(parts_size(parts) == 0);
    assert(t.buckets[bucket].uploads.remove(id) =~= s.buckets[bucket].uploads);
    assert(u.buckets =~= s.buckets);
}

/// The sizes of two runs of parts add up.
proof fn lemma_size_of_runs(a: Seq<u32>, b: Seq<u32>, parts: Map<u32, PartState>)
    ensures
        size_sum(a + b, parts) == size_sum(a, parts) + size_sum(b, parts),
    decreases b.len(),
{
    if b.len() == 0 {
        assert(a + b =~= a);
    } else {
        assert((a + b).drop_last() =~= a + b.drop_last());
        lemma_size_of_runs(a, b.drop_last(), parts);
    }
}

/// A part does not count where its number is not asked for.
proof fn lemma_size_of_others(
    numbers: Seq<u32>,
    parts: Map<u32, PartState>,
    number: u32,
    part: PartState,
)
    requires
        !numbers.contains(number),
    ensures
        size_sum(numbers, parts.insert(number, part)) == size_sum(numbers, parts),
    decreases numbers.len(),
{
    if numbers.len() > 0 {
        assert(numbers[numbers.len() - 1] != number);
        assert(!numbers.drop_last().contains(number)) by {
            if numbers.drop_last().contains(number) {
                let i = choose|i: int|
                    0 <= i < numbers.len() - 1 && numbers.drop_last()[i] == number;
                assert(numbers[i] == number);
            }
        }
        lemma_size_of_others(numbers.drop_last(), parts, number, part);
    }
}

/// Where a new number belongs among ascending ones.
proof fn lemma_place(numbers: Seq<u32>, number: u32) -> (k: int)
    requires
        forall|i: int, j: int| 0 <= i < j < numbers.len() ==> numbers[i] < numbers[j],
        !numbers.contains(number),
    ensures
        0 <= k <= numbers.len(),
        forall|i: int| 0 <= i < k ==> numbers[i] < number,
        forall|i: int| k <= i < numbers.len() ==> number < numbers[i],
    decreases numbers.len(),
{
    if numbers.len() == 0 {
        0
    } else {
        let last = numbers[numbers.len() - 1];
        assert(last != number);
        if last < number {
            numbers.len() as int
        } else {
            let init = numbers.drop_last();
            assert(!init.contains(number)) by {
                if init.contains(number) {
                    let i = choose|i: int| 0 <= i < init.len() && init[i] == number;
                    assert(numbers[i] == number);
                }
            }
            let k = lemma_place(init, number);
            assert forall|i: int| k <= i < numbers.len() implies number < numbers[i] by {
                if i < init.len() {
                    assert(init[i] == numbers[i]);
                }
            }
            assert forall|i: int| 0 <= i < k implies numbers[i] < number by {
                assert(init[i] == numbers[i]);
            }
            k
        }
    }
}

/// A new part adds its size to the sizes of all parts.
proof fn lemma_size_with_part(parts: Map<u32, PartState>, number: u32, part: PartState)
    requires
        parts.dom().finite(),
        !parts.contains_key(number),
    ensures
        parts_size(parts.insert(number, part)) == parts_size(parts) + part.size,
{
    let set = parts.dom();
    let numbers = sorted_numbers(set);
    lemma_numbers_listed(set);
    assert(!numbers.contains(number)) by {
        if numbers.contains(number) {
            let i = choose|i: int| 0 <= i < numbers.len() && numbers[i] == number;
            assert(set.contains(numbers[i]));
        }
    }
    let k = lemma_place(numbers, number);
    let a = numbers.take(k);
    let b = numbers.skip(k);
    let grown = a + seq![number] + b;
    let more = parts.insert(number, part);
    assert forall|i: int| 0 <= i < grown.len() implies more.dom().contains(
        #[trigger] grown[i],
    ) by {
        if i < k {
            assert(set.contains(numbers[i]));
        } else if i > k {
            assert(set.contains(numbers[i - 1]));
        }
    }
    assert forall|n: u32| #[trigger] more.dom().contains(n) implies grown.contains(n) by {
        if n == number {
            assert(grown[k] == n);
        } else {
            assert(set.contains(n));
            let i = choose|i: int| 0 <= i < numbers.len() && numbers[i] == n;
            if i < k {
                assert(grown[i] == n);
            } else {
                assert(grown[i + 1] == n);
            }
        }
    }
    assert(lists_numbers(grown, more.dom()));
    lemma_sorted_numbers_is(grown, more.dom());
    assert(numbers =~= a + b);
    lemma_size_of_runs(a, b, parts);
    lemma_size_of_runs(a + seq![number], b, more);
    lemma_size_of_runs(a, seq![number], more);
    assert(!a.contains(number) && !b.contains(number)) by {
        if a.contains(number) {
            let i = choose|i: int| 0 <= i < a.len() && a[i] == number;
            assert(numbers[i] == number);
        }
        if b.contains(number) {
            let i = choose|i: int| 0 <= i < b.len() && b[i] == number;
            assert(numbers[k + i] == number);
        }
    }
    lemma_size_of_others(a, parts, number, part);
    lemma_size_of_others(b, parts, number, part);
    reveal_with_fuel(size_sum, 2);
    assert(seq![number].drop_last() =~= Seq::empty());
}

/// Aborting an upload takes back the bytes of a part that was new to it: nothing is left of
/// the part, not even in the count of bytes.
pub proof fn abort_takes_bytes_back(
    s: StorageState,
    bucket: Seq<char>,
    key: Seq<char>,
    id: Seq<char>,
    part_number: u32,
    data: Seq<u8>,
    now: Timestamp,
)
    requires
        well_kept(s),
        upload_part(s, bucket, key, id, part_number, data, now).1 is Ok,
        !find_upload(s, bucket, key, id)->Ok_0.parts.contains_key(part_number),
    ensures
        abort_multipart_upload(
            upload_part(s, bucket, key, id, part_number, data, now).0,
            bucket,
            key,
            id,
        ).0 == abort_multipart_upload(s, bucket, key, id).0,
{
    let t = upload_part(s, bucket, key, id, part_number, data, now).0;
    let parts = t.buckets[bucket].uploads[id].parts;
    let fewer = s.buckets[bucket].uploads[id].parts;
    assert(bucket_kept(s.buckets[bucket], bucket));
    assert(upload_kept(s.buckets[bucket].uploads[id], id));
    lemma_size_with_part(fewer, part_number, parts[part_number]);
    let a = abort_multipart_upload(t, bucket, key, id).0;
    let b = abort_multipart_upload(s, bucket, key, id).0;
    assert(t.buckets[bucket].uploads.remove(id) =~= s.buckets[bucket].uploads.remove(id));
    assert(a.buckets =~= b.buckets);
}

/// The page that a part number marker leads to holds the parts that follow the page before.
/// The marker is the decimal notation of a part number, and reads back as that number.
pub proof fn next_parts_continue(parts: Map<u32, PartState>, marker: u32, max_parts: u32)
    requires
        parts.dom().finite(),
        0 < max_parts < numbers_after(parts, marker).len(),
    ensures
        ({
            let numbers = numbers_after(parts, marker);
            let next = numbers[max_parts - 1];
            let text = part_page(numbers, parts, max_parts).next_part_number_marker;
            &&& parsed(text, u32::MAX as nat) == Some(next as nat)
            &&& numbers_after(parts, next) == numbers.skip(max_parts as int)
        }),
{
    let set = parts.dom().filter(|n: u32| n > marker);
    let numbers = sorted_numbers(set);
    lemma_numbers_listed(set);
    let next = numbers[max_parts - 1];
    let rest = numbers.skip(max_parts as int);
    let after = parts.dom().filter(|n: u32| n > next);
    assert(set.contains(numbers[max_parts - 1]));
    assert forall|i: int| 0 <= i < rest.len() implies after.contains(#[trigger] rest[i]) by {
        assert(set.contains(numbers[max_parts + i]));
    }
    assert forall|n: u32| #[trigger] after.contains(n) implies rest.contains(n) by {
        assert(set.contains(n));
        assert(numbers.contains(n));
        let i = choose|i: int| 0 <= i < numbers.len() && numbers[i] == n;
        assert(rest[i - max_parts] == n);
    }
    lemma_sorted_numbers_is(rest, after);
    decimal_reads_back(next as nat, u32::MAX as nat);
    assert(numbers.take(max_parts as int).last() == next);
}

/// Every finite set of numbers has an ascending listing.
pub proof fn lemma_numbers_listed(set: Set<u32>)
    requires
        set.finite(),
    ensures
        lists_numbers(sorted_numbers(set), set),
    decreases set.len(),
{
    if set.len() == 0 {
        assert(set =~= Set::empty());
        assert(lists_numbers(Seq::empty(), set));
    } else {
        let leq = |a: u32, b: u32| a <= b;
        set.find_unique_minimal_ensures(leq);
        let least = set.find_unique_minimal(leq);
        let rest = set.remove(least);
        lemma_numbers_listed(rest);
        let tail = sorted_numbers(rest);
        let numbers = seq![least] + tail;
        assert forall|n: u32| set.contains(n) implies least <= n by {
            assert(leq(least, n) == (least <= n));
            assert(leq(n, least) == (n <= least));
        }
        assert forall|i: int| 0 <= i < numbers.len() implies set.contains(
            #[trigger] numbers[i],
        ) by {
            if i > 0 {
                assert(rest.contains(tail[i - 1]));
            }
        }
        assert forall|i: int, j: int| 0 <= i < j < numbers.len() implies numbers[i]
            < numbers[j] by {
            assert(rest.contains(tail[j - 1]));
        }
        assert forall|n: u32| #[trigger] set.contains(n) implies numbers.contains(n) by {
            if n == least {
                assert(numbers[0] == n);
            } else {
                assert(rest.contains(n));
                let i = choose|i: int| 0 <= i < tail.len() && tail[i] == n;
                assert(numbers[i + 1] == n);
            }
        }
        assert(lists_numbers(numbers, set));
    }
}

} // verus!
