//! What the calls for multipart uploads do, told by what the backend holds before and after.

use crate::clock::Timestamp;
use crate::digest::{base64url, etag_of, md5_of, sha256_of};
use crate::numbers::{decimal, hex};
use crate::protocol::types::PartName;
use crate::s3::laws::{concatenated, lemma_joined, lemma_numbers_listed};
use crate::s3::model::{
    abort_multipart_upload, bucket_kept, complete_multipart_upload, create_multipart_upload,
    joined_parts, list_parts, numbers_after, sorted_numbers, upload_kept, upload_part, well_kept,
    PartState, S3Error, StorageState,
};
use crate::s3::multipart::{upload_id, upload_seed};
use crate::s3::object_laws::holds;
use vstd::prelude::*;
use vstd::string::*;
use vstd::utf8::encode_utf8;

verus! {

/// The identifier of an upload is the checksum of the bucket, the key, the time and the random
/// text, with colons between them, in URL-safe base64. Another random text makes another text to
/// take the checksum of.
pub proof fn upload_identifier_is_a_checksum(
    bucket: Seq<char>,
    key: Seq<char>,
    nanos: nat,
    random: Seq<char>,
    other: Seq<char>,
)
    ensures
        upload_id(bucket, key, nanos as int, random) == base64url(
            sha256_of(
                encode_utf8(
                    bucket + seq![':'] + key + seq![':'] + decimal(nanos) + seq![':'] + random,
                ),
            ),
        ),
        random != other ==> upload_seed(bucket, key, nanos as int, random) != upload_seed(
            bucket,
            key,
            nanos as int,
            other,
        ),
{
    reveal_strlit(":");
    assert(":"@ =~= seq![':']);
    let front = bucket + ":"@ + key + ":"@ + decimal(nanos) + ":"@;
    let a = upload_seed(bucket, key, nanos as int, random);
    let b = upload_seed(bucket, key, nanos as int, other);
    assert(a =~= front + random);
    assert(b =~= front + other);
    if a == b {
        assert(random =~= a.skip(front.len() as int));
        assert(other =~= b.skip(front.len() as int));
    }
}

/// Whether an upload of the key is in progress under the identifier.
pub open spec fn uploads_to(
    s: StorageState,
    bucket: Seq<char>,
    key: Seq<char>,
    id: Seq<char>,
) -> bool {
    s.buckets.contains_key(bucket) && s.buckets[bucket].uploads.contains_key(id)
        && s.buckets[bucket].uploads[id].key == key
}

/// Whether all that is kept of other uploads is the same, and of buckets, and of objects in other
/// buckets.
pub open spec fn same_but_for_upload(
    a: StorageState,
    b: StorageState,
    bucket: Seq<char>,
    id: Seq<char>,
) -> bool {
    &&& a.buckets.dom() == b.buckets.dom()
    &&& forall|n: Seq<char>| #[trigger]
        a.buckets.contains_key(n) ==> {
            let x = a.buckets[n];
            let y = b.buckets[n];
            &&& x.name == y.name
            &&& x.creation_date == y.creation_date
            &&& n != bucket ==> x.objects == y.objects && x.uploads == y.uploads
            &&& forall|k: Seq<char>|
                k != id ==> (#[trigger] x.uploads.contains_key(k) <==> y.uploads.contains_key(k))
            &&& forall|k: Seq<char>|
                k != id && #[trigger] x.uploads.contains_key(k) ==> x.uploads[k] == y.uploads[k]
        }
}

/// An upload begins where its bucket is there and has fewer than a thousand in progress. It is
/// for the key, and has no parts yet.
pub proof fn upload_begins_without_parts(
    s: StorageState,
    bucket: Seq<char>,
    key: Seq<char>,
    id: Seq<char>,
    now: Timestamp,
)
    ensures
        ({
            let (t, r) = create_multipart_upload(s, bucket, key, id, now);
            &&& r is Ok <==> s.buckets.contains_key(bucket) && s.buckets[bucket].uploads.dom().len()
                < 1000
            &&& r is Ok ==> r->Ok_0 == id && uploads_to(t, bucket, key, id) && (forall|n: u32|
                !#[trigger] t.buckets[bucket].uploads[id].parts.contains_key(n))
                && t.buckets[bucket].uploads[id].initiated == now && t.buckets[bucket].objects
                == s.buckets[bucket].objects && same_but_for_upload(s, t, bucket, id)
                && t.total_bytes == s.total_bytes
            &&& r is Err ==> t == s && r->Err_0 == (if s.buckets.contains_key(bucket) {
                S3Error::MaxCapacityExceeded
            } else {
                S3Error::NoSuchBucket
            })
        }),
{
    let (t, r) = create_multipart_upload(s, bucket, key, id, now);
    assert(t.buckets.dom() =~= s.buckets.dom());
}

/// A part is taken where its number is from 1 to 10000, the upload is in progress for the key
/// and has fewer than 10000 parts, and all bytes that are counted stay within 10 TiB. It holds
/// the bytes given, and its entity tag is their checksum; no other part changes.
pub proof fn part_is_taken_where_it_fits(
    s: StorageState,
    bucket: Seq<char>,
    key: Seq<char>,
    id: Seq<char>,
    part_number: u32,
    data: Seq<u8>,
    now: Timestamp,
)
    ensures
        ({
            let (t, r) = upload_part(s, bucket, key, id, part_number, data, now);
            let had = s.buckets[bucket].uploads[id].parts;
            let has = t.buckets[bucket].uploads[id].parts;
            let in_range = 1 <= part_number <= 10000;
            &&& r is Ok <==> in_range && uploads_to(s, bucket, key, id) && had.dom().len() < 10000
                && s.total_bytes + data.len() <= 10 * 1024 * 1024 * 1024 * 1024
            &&& r is Ok ==> r->Ok_0 == etag_of(data) && uploads_to(t, bucket, key, id)
                && has.contains_key(part_number) && has[part_number].data == data
                && has[part_number].etag == etag_of(data) && has[part_number].size == data.len()
                && has[part_number].part_number == part_number && has[part_number].last_modified
                == now && (forall|n: u32|
                n != part_number ==> (#[trigger] has.contains_key(n) <==> had.contains_key(n))
                    && has[n] == had[n]) && t.total_bytes == s.total_bytes + data.len()
                && t.buckets[bucket].objects == s.buckets[bucket].objects && same_but_for_upload(
                s,
                t,
                bucket,
                id,
            )
            &&& r is Err ==> t == s && r->Err_0 == (if !in_range {
                S3Error::InvalidPart
            } else if !s.buckets.contains_key(bucket) {
                S3Error::NoSuchBucket
            } else if !uploads_to(s, bucket, key, id) {
                S3Error::NoSuchUpload
            } else {
                S3Error::MaxCapacityExceeded
            })
        }),
{
    let (t, r) = upload_part(s, bucket, key, id, part_number, data, now);
    assert(t.buckets.dom() =~= s.buckets.dom());
}

/// Whether a part is named as it is stored, and after the one that is named before it.
pub open spec fn named_well(names: Seq<PartName>, parts: Map<u32, PartState>, i: int) -> bool {
    &&& names[i].part_number >= 1
    &&& i > 0 ==> names[i].part_number > names[i - 1].part_number
    &&& parts.contains_key(names[i].part_number)
    &&& parts[names[i].part_number].etag == names[i].etag
}

/// The number that the number of a part must be above.
spec fn floor_of(names: Seq<PartName>, above: u32, i: int) -> u32 {
    if i > 0 {
        names[i - 1].part_number
    } else {
        above
    }
}

/// Whether a part is named as it is stored, with a number above the one before it.
spec fn fits(names: Seq<PartName>, parts: Map<u32, PartState>, above: u32, i: int) -> bool {
    &&& names[i].part_number > floor_of(names, above, i)
    &&& parts.contains_key(names[i].part_number)
    &&& parts[names[i].part_number].etag == names[i].etag
}

/// A part fits among all names as it does among those behind the first.
proof fn lemma_fits_behind(names: Seq<PartName>, parts: Map<u32, PartState>, above: u32, i: int)
    requires
        0 <= i < names.len() - 1,
    ensures
        fits(names.drop_first(), parts, names[0].part_number, i) == fits(
            names,
            parts,
            above,
            i + 1,
        ),
        floor_of(names.drop_first(), names[0].part_number, i) == floor_of(names, above, i + 1),
        names.drop_first()[i] == names[i + 1],
{
    let rest = names.drop_first();
    assert(rest[i] == names[i + 1]);
    if i > 0 {
        assert(rest[i - 1] == names[i]);
    }
}

/// Parts that all fit can be joined.
proof fn lemma_joinable(names: Seq<PartName>, parts: Map<u32, PartState>, above: u32)
    requires
        forall|i: int| 0 <= i < names.len() ==> #[trigger] fits(names, parts, above, i),
    ensures
        joined_parts(names, parts, above) is Ok,
    decreases names.len(),
{
    if names.len() > 0 {
        let rest = names.drop_first();
        let next = names[0].part_number;
        assert(fits(names, parts, above, 0));
        assert forall|i: int| 0 <= i < rest.len() implies #[trigger] fits(
            rest,
            parts,
            next,
            i,
        ) by {
            lemma_fits_behind(names, parts, above, i);
            assert(fits(names, parts, above, i + 1));
        }
        lemma_joinable(rest, parts, next);
    }
}

/// The first part that does not fit decides the error.
proof fn lemma_first_misfit(names: Seq<PartName>, parts: Map<u32, PartState>, above: u32, i: int)
    requires
        0 <= i < names.len(),
        !fits(names, parts, above, i),
        forall|j: int| 0 <= j < i ==> #[trigger] fits(names, parts, above, j),
    ensures
        joined_parts(names, parts, above) == Err::<Seq<u8>, _>(
            if names[i].part_number > floor_of(names, above, i) {
                S3Error::InvalidPart
            } else {
                S3Error::InvalidPartOrder
            },
        ),
    decreases i,
{
    if i > 0 {
        let rest = names.drop_first();
        let next = names[0].part_number;
        assert(fits(names, parts, above, 0));
        lemma_fits_behind(names, parts, above, i - 1);
        assert forall|j: int| 0 <= j < i - 1 implies #[trigger] fits(rest, parts, next, j) by {
            lemma_fits_behind(names, parts, above, j);
            assert(fits(names, parts, above, j + 1));
        }
        lemma_first_misfit(rest, parts, next, i - 1);
    }
}

/// Where a part does not fit, there is a first one that does not.
proof fn lemma_some_misfit(names: Seq<PartName>, parts: Map<u32, PartState>, i: int) -> (k: int)
    requires
        0 <= i < names.len(),
        !fits(names, parts, 0, i),
    ensures
        0 <= k <= i,
        !fits(names, parts, 0, k),
        forall|j: int| 0 <= j < k ==> #[trigger] fits(names, parts, 0, j),
    decreases i,
{
    if exists|j: int| 0 <= j < i && !fits(names, parts, 0, j) {
        let j = choose|j: int| 0 <= j < i && !fits(names, parts, 0, j);
        let k = lemma_some_misfit(names, parts, j);
        k
    } else {
        i
    }
}

/// An upload is completed where it is in progress for the key, at least one part is named, each
/// as it is stored and after the one before it, the parts have at most 5 GiB together, and the
/// bucket has room or the key is there. The object has the bytes of the parts in order, the
/// checksum of them and the number of parts for its entity tag, the default content type and no
/// metadata. The upload is gone; no other object and no other upload changes, and no byte is
/// counted twice.
pub proof fn upload_is_completed_from_its_parts(
    s: StorageState,
    bucket: Seq<char>,
    key: Seq<char>,
    id: Seq<char>,
    names: Seq<PartName>,
    now: Timestamp,
)
    ensures
        ({
            let (t, r) = complete_multipart_upload(s, bucket, key, id, names, now);
            let parts = s.buckets[bucket].uploads[id].parts;
            let data = concatenated(names, parts);
            let named = names.len() > 0 && forall|i: int|
                0 <= i < names.len() ==> #[trigger] named_well(names, parts, i);
            &&& r is Ok <==> uploads_to(s, bucket, key, id) && named && data.len() <= 5 * 1024
                * 1024 * 1024 && (s.buckets[bucket].objects.dom().len() < 100_000 || holds(
                s,
                bucket,
                key,
            ))
            &&& r is Err ==> t == s
            &&& r is Ok ==> ({
                let o = t.buckets[bucket].objects[key];
                &&& holds(t, bucket, key)
                &&& o.data == data
                &&& o.etag == seq!['"'] + hex(md5_of(data)) + seq!['-'] + decimal(names.len())
                    + seq!['"']
                &&& r->Ok_0 == o.etag
                &&& o.content_type == "binary/octet-stream"@
                &&& o.metadata.len() == 0
                &&& o.last_modified == now
                &&& !t.buckets[bucket].uploads.contains_key(id)
                &&& same_but_for_upload(s, t, bucket, id)
                &&& forall|k: Seq<char>|
                    k != key ==> (#[trigger] t.buckets[bucket].objects.contains_key(k)
                        <==> s.buckets[bucket].objects.contains_key(k))
                        && t.buckets[bucket].objects[k] == s.buckets[bucket].objects[k]
                &&& t.total_bytes == s.total_bytes
            })
        }),
{
    let (t, r) = complete_multipart_upload(s, bucket, key, id, names, now);
    let parts = s.buckets[bucket].uploads[id].parts;
    assert(t.buckets.dom() =~= s.buckets.dom());
    assert forall|i: int| 0 <= i < names.len() implies #[trigger] named_well(names, parts, i)
        == fits(names, parts, 0, i) by {}
    if forall|i: int| 0 <= i < names.len() ==> #[trigger] named_well(names, parts, i) {
        assert forall|i: int| 0 <= i < names.len() implies #[trigger] fits(names, parts, 0, i) by {
            assert(named_well(names, parts, i));
        }
        lemma_joinable(names, parts, 0);
        lemma_joined(names, parts, 0);
    } else {
        let i = choose|i: int| 0 <= i < names.len() && !#[trigger] named_well(names, parts, i);
        let k = lemma_some_misfit(names, parts, i);
        lemma_first_misfit(names, parts, 0, k);
    }
}

/// The first part that is not named well decides how a completion is refused: out of order where
/// its number is not above the one before it, else as an invalid part. Before that come no parts
/// at all, a missing bucket, and a missing upload.
pub proof fn first_bad_part_decides(
    s: StorageState,
    bucket: Seq<char>,
    key: Seq<char>,
    id: Seq<char>,
    names: Seq<PartName>,
    now: Timestamp,
    i: int,
)
    ensures
        ({
            let r = complete_multipart_upload(s, bucket, key, id, names, now).1;
            let parts = s.buckets[bucket].uploads[id].parts;
            &&& names.len() == 0 ==> r == Err::<Seq<char>, _>(S3Error::InvalidPart)
            &&& names.len() > 0 && !s.buckets.contains_key(bucket) ==> r == Err::<Seq<char>, _>(
                S3Error::NoSuchBucket,
            )
            &&& names.len() > 0 && s.buckets.contains_key(bucket) && !uploads_to(s, bucket, key, id)
                ==> r == Err::<Seq<char>, _>(S3Error::NoSuchUpload)
            &&& uploads_to(s, bucket, key, id) && 0 <= i < names.len() && !named_well(
                names,
                parts,
                i,
            ) && (forall|j: int| 0 <= j < i ==> #[trigger] named_well(names, parts, j)) ==> r
                == Err::<Seq<char>, _>(
                if names[i].part_number == 0 || (i > 0 && names[i].part_number
                    <= names[i - 1].part_number) {
                    S3Error::InvalidPartOrder
                } else {
                    S3Error::InvalidPart
                },
            )
        }),
{
    let parts = s.buckets[bucket].uploads[id].parts;
    if 0 <= i < names.len() && !named_well(names, parts, i) && (forall|j: int|
        0 <= j < i ==> #[trigger] named_well(names, parts, j)) {
        assert forall|j: int| 0 <= j < i implies #[trigger] fits(names, parts, 0, j) by {
            assert(named_well(names, parts, j));
        }
        lemma_first_misfit(names, parts, 0, i);
    }
}

/// An upload that is in progress for the key is aborted: it is gone with its parts. No object
/// and no other upload changes. Where there is none, nothing changes.
pub proof fn aborted_upload_is_gone(
    s: StorageState,
    bucket: Seq<char>,
    key: Seq<char>,
    id: Seq<char>,
)
    ensures
        ({
            let (t, r) = abort_multipart_upload(s, bucket, key, id);
            &&& r is Ok <==> uploads_to(s, bucket, key, id)
            &&& r is Ok ==> !t.buckets[bucket].uploads.contains_key(id)
                && t.buckets[bucket].objects == s.buckets[bucket].objects && same_but_for_upload(
                s,
                t,
                bucket,
                id,
            )
            &&& r is Err ==> t == s && r->Err_0 == (if s.buckets.contains_key(bucket) {
                S3Error::NoSuchUpload
            } else {
                S3Error::NoSuchBucket
            })
        }),
{
    let (t, r) = abort_multipart_upload(s, bucket, key, id);
    assert(t.buckets.dom() =~= s.buckets.dom());
}

/// A list of parts has the parts of the upload with a number above the marker, in the order of
/// their numbers, each as it is stored, and at most as many as were asked for. It is truncated
/// exactly where there are more, and then tells the number of its last part.
pub proof fn listed_parts_are_stored_parts(
    s: StorageState,
    bucket: Seq<char>,
    key: Seq<char>,
    id: Seq<char>,
    max_parts: u32,
    marker: u32,
)
    requires
        well_kept(s),
    ensures
        ({
            let r = list_parts(s, bucket, key, id, max_parts, marker);
            let parts = s.buckets[bucket].uploads[id].parts;
            let page = r->Ok_0;
            &&& r is Ok <==> uploads_to(s, bucket, key, id)
            &&& r is Ok ==> page.parts.len() <= max_parts
            &&& r is Ok ==> forall|i: int|
                0 <= i < page.parts.len() ==> {
                    let line = #[trigger] page.parts[i];
                    &&& line.part_number > marker
                    &&& parts.contains_key(line.part_number)
                    &&& line.etag == parts[line.part_number].etag
                    &&& line.size == parts[line.part_number].data.len()
                    &&& line.last_modified == parts[line.part_number].last_modified
                }
            &&& r is Ok ==> forall|i: int, j: int|
                0 <= i < j < page.parts.len() ==> (#[trigger] page.parts[i]).part_number < (
                #[trigger] page.parts[j]).part_number
            &&& r is Ok && !page.is_truncated ==> page.next_part_number_marker.len() == 0
                && forall|n: u32| #[trigger]
                parts.contains_key(n) && n > marker ==> exists|i: int|
                    0 <= i < page.parts.len() && (#[trigger] page.parts[i]).part_number == n
            &&& r is Ok && page.is_truncated ==> page.parts.len() == max_parts && exists|n: u32|
                #[trigger]
                parts.contains_key(n) && n > marker && forall|i: int|
                    0 <= i < page.parts.len() ==> (#[trigger] page.parts[i]).part_number < n
            &&& r is Ok && page.is_truncated && max_parts > 0 ==> page.next_part_number_marker
                == decimal(page.parts.last().part_number as nat)
        }),
{
    if uploads_to(s, bucket, key, id) {
        let upload = s.buckets[bucket].uploads[id];
        let parts = upload.parts;
        assert(bucket_kept(s.buckets[bucket], bucket));
        assert(upload_kept(upload, id));
        let set = parts.dom().filter(|n: u32| n > marker);
        let numbers = sorted_numbers(set);
        lemma_numbers_listed(set);
        let page = list_parts(s, bucket, key, id, max_parts, marker)->Ok_0;
        assert(numbers == numbers_after(parts, marker));
        assert forall|i: int| 0 <= i < page.parts.len() implies {
            let line = #[trigger] page.parts[i];
            &&& line.part_number == numbers[i]
            &&& line.part_number > marker
            &&& parts.contains_key(line.part_number)
            &&& line.etag == parts[line.part_number].etag
            &&& line.size == parts[line.part_number].data.len()
            &&& line.last_modified == parts[line.part_number].last_modified
        } by {
            assert(set.contains(numbers[i]));
            assert(parts.contains_key(numbers[i]));
        }
        assert forall|i: int, j: int| 0 <= i < j < page.parts.len() implies (
        #[trigger] page.parts[i]).part_number < (#[trigger] page.parts[j]).part_number by {
            assert(numbers[i] < numbers[j]);
        }
        if page.is_truncated {
            let n = numbers[max_parts as int];
            assert(set.contains(n));
            assert(parts.contains_key(n));
            assert forall|i: int| 0 <= i < page.parts.len() implies (
            #[trigger] page.parts[i]).part_number < n by {
                assert(numbers[i] < numbers[max_parts as int]);
            }
        } else {
            assert forall|n: u32| #[trigger]
                parts.contains_key(n) && n > marker implies exists|i: int|
                0 <= i < page.parts.len() && (#[trigger] page.parts[i]).part_number == n by {
                assert(set.contains(n));
                assert(numbers.contains(n));
                let i = choose|i: int| 0 <= i < numbers.len() && numbers[i] == n;
                assert(page.parts[i].part_number == n);
            }
        }
    }
}

} // verus!
