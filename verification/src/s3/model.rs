//! What a storage backend holds, and what each call does to it.
//!
//! A call takes a state to the next state and a reply. The current time and a fresh upload
//! identifier are arguments of the calls that use them.

use crate::clock::Timestamp;
use crate::digest::{etag_of, md5_of};
use crate::numbers::{decimal, hex};
use crate::order::sorted;
use crate::protocol::types::{BucketLine, ObjectLine, ObjectState, PartLine, PartName, StorageClass};
use crate::s3::listing::{listing, next_token, page, Entry, Group};
use crate::string_map::Entries;
use vstd::prelude::*;

verus! {

/// The number of buckets that fit.
pub const CIRRUS_MAX_BUCKETS: u64 = 1000;

/// The number of objects that fit in a bucket.
pub const CIRRUS_MAX_OBJECTS_PER_BUCKET: u64 = 100_000;

/// The size of the largest object: 5 GiB.
pub const CIRRUS_MAX_OBJECT_SIZE: u64 = 5_368_709_120;

/// The number of multipart uploads that a bucket can have in progress.
pub const CIRRUS_MAX_MULTIPART_UPLOADS: usize = 1000;

/// The number of parts of an upload, and the largest part number.
pub const CIRRUS_MAX_PARTS_PER_UPLOAD: u32 = 10000;

/// The number of bytes that fit in all buckets together: 10 TiB.
pub const CIRRUS_MAX_TOTAL_BYTES: u64 = 10_995_116_277_760;

/// The errors of a storage backend.
#[derive(Debug, Clone, Copy, PartialEq, Eq, Structural)]
pub enum S3Error {
    NoSuchBucket,
    NoSuchKey,
    NoSuchUpload,
    BucketAlreadyExists,
    BucketNotEmpty,
    InvalidPart,
    InvalidPartOrder,
    EntityTooLarge,
    MaxCapacityExceeded,
}

impl S3Error {
    /// What the error says.
    pub fn to_text(self) -> (s: &'static str)
        ensures
            s@ == error_text(self),
    {
        match self {
            S3Error::NoSuchBucket => "The specified bucket does not exist",
            S3Error::NoSuchKey => "The specified key does not exist",
            S3Error::NoSuchUpload => "The specified upload does not exist",
            S3Error::BucketAlreadyExists => "The requested bucket already exists",
            S3Error::BucketNotEmpty => "The bucket you tried to delete is not empty",
            S3Error::InvalidPart => "One or more of the specified parts could not be found",
            S3Error::InvalidPartOrder => "The list of parts was not in ascending order",
            S3Error::EntityTooLarge =>
                "Your proposed upload exceeds the maximum allowed object size",
            S3Error::MaxCapacityExceeded => "The maximum capacity has been exceeded",
        }
    }
}

/// What an error says.
pub open spec fn error_text(e: S3Error) -> Seq<char> {
    match e {
        S3Error::NoSuchBucket => "The specified bucket does not exist"@,
        S3Error::NoSuchKey => "The specified key does not exist"@,
        S3Error::NoSuchUpload => "The specified upload does not exist"@,
        S3Error::BucketAlreadyExists => "The requested bucket already exists"@,
        S3Error::BucketNotEmpty => "The bucket you tried to delete is not empty"@,
        S3Error::InvalidPart => "One or more of the specified parts could not be found"@,
        S3Error::InvalidPartOrder => "The list of parts was not in ascending order"@,
        S3Error::EntityTooLarge =>
            "Your proposed upload exceeds the maximum allowed object size"@,
        S3Error::MaxCapacityExceeded => "The maximum capacity has been exceeded"@,
    }
}

/// One uploaded part.
pub struct PartState {
    pub part_number: u32,
    pub data: Seq<u8>,
    pub etag: Seq<char>,
    pub last_modified: Timestamp,
    pub size: u64,
}

/// A multipart upload in progress.
pub struct UploadState {
    pub upload_id: Seq<char>,
    pub key: Seq<char>,
    pub initiated: Timestamp,
    pub parts: Map<u32, PartState>,
}

/// A bucket.
pub struct BucketState {
    pub name: Seq<char>,
    pub creation_date: Timestamp,
    pub objects: Map<Seq<char>, ObjectState>,
    pub uploads: Map<Seq<char>, UploadState>,
}

/// All that a backend holds.
pub struct StorageState {
    pub buckets: Map<Seq<char>, BucketState>,
    pub total_bytes: u64,
}

/// A page of a list of objects.
pub struct ObjectPage {
    pub is_truncated: bool,
    pub next_continuation_token: Seq<char>,
    pub contents: Seq<ObjectLine>,
    pub common_prefixes: Seq<Seq<char>>,
    pub key_count: int,
}

/// A page of a list of parts.
pub struct PartPage {
    pub parts: Seq<PartLine>,
    pub is_truncated: bool,
    pub next_part_number_marker: Seq<char>,
}

/// A count of bytes less some that are gone; it does not go below zero.
pub open spec fn count_less(total: u64, gone: int) -> u64 {
    if total >= gone {
        (total - gone) as u64
    } else {
        0
    }
}

/// Whether a bucket has as many objects as fit.
pub open spec fn is_full(b: BucketState) -> bool {
    b.objects.dom().len() >= CIRRUS_MAX_OBJECTS_PER_BUCKET
}

/// Whether a bucket has room for an object under the key: one that is there already makes room
/// for its successor.
pub open spec fn has_room(b: BucketState, key: Seq<char>) -> bool {
    !is_full(b) || b.objects.contains_key(key)
}

/// Whether a part is kept under its own number, with its own size.
pub open spec fn part_kept(p: PartState, number: u32) -> bool {
    p.part_number == number && p.size == p.data.len()
}

/// Whether an upload is kept under its own identifier, and so are its parts.
pub open spec fn upload_kept(u: UploadState, id: Seq<char>) -> bool {
    &&& u.upload_id == id
    &&& u.parts.dom().finite()
    &&& forall|n: u32| #[trigger] u.parts.contains_key(n) ==> part_kept(u.parts[n], n)
}

/// Whether a bucket is kept under its own name, and so is all in it.
pub open spec fn bucket_kept(b: BucketState, name: Seq<char>) -> bool {
    &&& b.name == name
    &&& b.objects.dom().finite()
    &&& b.uploads.dom().finite()
    &&& forall|id: Seq<char>| #[trigger]
        b.uploads.contains_key(id) ==> upload_kept(b.uploads[id], id)
}

/// Whether everything is kept under its own name, and there is finitely much.
pub open spec fn well_kept(s: StorageState) -> bool {
    &&& s.buckets.dom().finite()
    &&& forall|name: Seq<char>| #[trigger]
        s.buckets.contains_key(name) ==> bucket_kept(s.buckets[name], name)
}

/// Whether everything is within its limits: the numbers of buckets, of objects and uploads in a
/// bucket and of parts of an upload, the size of each object, and the count of bytes.
pub open spec fn within_limits(s: StorageState) -> bool {
    &&& s.buckets.dom().len() <= CIRRUS_MAX_BUCKETS
    &&& s.total_bytes <= CIRRUS_MAX_TOTAL_BYTES
    &&& forall|name: Seq<char>| #[trigger]
        s.buckets.contains_key(name) ==> s.buckets[name].uploads.dom().len()
            <= CIRRUS_MAX_MULTIPART_UPLOADS && s.buckets[name].objects.dom().len()
            <= CIRRUS_MAX_OBJECTS_PER_BUCKET
    &&& forall|name: Seq<char>, key: Seq<char>|
        s.buckets.contains_key(name) && #[trigger] s.buckets[name].objects.contains_key(key)
            ==> s.buckets[name].objects[key].data.len() <= CIRRUS_MAX_OBJECT_SIZE
    &&& forall|name: Seq<char>, id: Seq<char>|
        s.buckets.contains_key(name) && #[trigger] s.buckets[name].uploads.contains_key(id)
            ==> s.buckets[name].uploads[id].parts.dom().len() <= CIRRUS_MAX_PARTS_PER_UPLOAD
}

/// A backend that holds nothing.
pub open spec fn empty_state() -> StorageState {
    StorageState { buckets: Map::empty(), total_bytes: 0 }
}

/// The state with one bucket set.
pub open spec fn with_bucket(s: StorageState, name: Seq<char>, b: BucketState) -> StorageState {
    StorageState { buckets: s.buckets.insert(name, b), total_bytes: s.total_bytes }
}

/// The bucket with one object set.
pub open spec fn with_object(b: BucketState, key: Seq<char>, o: ObjectState) -> BucketState {
    BucketState { objects: b.objects.insert(key, o), ..b }
}

/// The bucket with one upload set.
pub open spec fn with_upload(b: BucketState, id: Seq<char>, u: UploadState) -> BucketState {
    BucketState { uploads: b.uploads.insert(id, u), ..b }
}

/// A new bucket.
pub open spec fn new_bucket(name: Seq<char>, now: Timestamp) -> BucketState {
    BucketState { name, creation_date: now, objects: Map::empty(), uploads: Map::empty() }
}

/// Creates a bucket.
pub open spec fn create_bucket(s: StorageState, name: Seq<char>, now: Timestamp) -> (
    StorageState,
    Result<BucketState, S3Error>,
) {
    if s.buckets.dom().len() >= CIRRUS_MAX_BUCKETS {
        (s, Err(S3Error::MaxCapacityExceeded))
    } else if s.buckets.contains_key(name) {
        (s, Err(S3Error::BucketAlreadyExists))
    } else {
        (with_bucket(s, name, new_bucket(name, now)), Ok(new_bucket(name, now)))
    }
}

/// Deletes a bucket that holds nothing.
pub open spec fn delete_bucket(s: StorageState, name: Seq<char>) -> (
    StorageState,
    Result<(), S3Error>,
) {
    if !s.buckets.contains_key(name) {
        (s, Err(S3Error::NoSuchBucket))
    } else if s.buckets[name].objects.dom().len() != 0 || s.buckets[name].uploads.dom().len() != 0 {
        (s, Err(S3Error::BucketNotEmpty))
    } else {
        (
            StorageState { buckets: s.buckets.remove(name), total_bytes: s.total_bytes },
            Ok(()),
        )
    }
}

/// The line for a bucket.
pub open spec fn bucket_line(b: BucketState) -> BucketLine {
    BucketLine { name: b.name, creation_date: b.creation_date }
}

/// All buckets, in the order of their names.
pub open spec fn list_buckets(s: StorageState) -> Seq<BucketLine> {
    sorted(s.buckets.dom()).map_values(|name: Seq<char>| bucket_line(s.buckets[name]))
}

/// Stores an object.
pub open spec fn put_object(
    s: StorageState,
    bucket: Seq<char>,
    key: Seq<char>,
    object: ObjectState,
) -> (StorageState, Result<(), S3Error>) {
    if !s.buckets.contains_key(bucket) {
        (s, Err(S3Error::NoSuchBucket))
    } else if is_full(s.buckets[bucket]) {
        (s, Err(S3Error::MaxCapacityExceeded))
    } else if object.data.len() > CIRRUS_MAX_OBJECT_SIZE {
        (s, Err(S3Error::EntityTooLarge))
    } else if s.total_bytes + object.data.len() > CIRRUS_MAX_TOTAL_BYTES {
        (s, Err(S3Error::MaxCapacityExceeded))
    } else {
        (
            StorageState {
                buckets: s.buckets.insert(bucket, with_object(s.buckets[bucket], key, object)),
                total_bytes: (s.total_bytes + object.data.len()) as u64,
            },
            Ok(()),
        )
    }
}

/// Reads an object.
pub open spec fn get_object(s: StorageState, bucket: Seq<char>, key: Seq<char>) -> Result<
    ObjectState,
    S3Error,
> {
    if !s.buckets.contains_key(bucket) {
        Err(S3Error::NoSuchBucket)
    } else if !s.buckets[bucket].objects.contains_key(key) {
        Err(S3Error::NoSuchKey)
    } else {
        Ok(s.buckets[bucket].objects[key])
    }
}

/// Deletes an object.
pub open spec fn delete_object(s: StorageState, bucket: Seq<char>, key: Seq<char>) -> (
    StorageState,
    Result<(), S3Error>,
) {
    match get_object(s, bucket, key) {
        Err(e) => (s, Err(e)),
        Ok(object) => {
            let b = s.buckets[bucket];
            let left = BucketState { objects: b.objects.remove(key), ..b };
            (
                StorageState {
                    buckets: s.buckets.insert(bucket, left),
                    total_bytes: count_less(s.total_bytes, object.data.len() as int),
                },
                Ok(()),
            )
        },
    }
}

/// The copy of an object: modified now, and with the metadata given if there is any.
pub open spec fn copy_of(object: ObjectState, metadata: Entries, now: Timestamp) -> ObjectState {
    ObjectState {
        last_modified: now,
        metadata: if metadata.len() == 0 {
            object.metadata
        } else {
            metadata
        },
        ..object
    }
}

/// Copies an object, where the bucket has room. The bytes are shared, so they are not counted
/// again.
pub open spec fn copy_object(
    s: StorageState,
    src_bucket: Seq<char>,
    src_key: Seq<char>,
    dst_bucket: Seq<char>,
    dst_key: Seq<char>,
    metadata: Entries,
    now: Timestamp,
) -> (StorageState, Result<ObjectState, S3Error>) {
    match get_object(s, src_bucket, src_key) {
        Err(e) => (s, Err(e)),
        Ok(object) => {
            let copy = copy_of(object, metadata, now);
            if !s.buckets.contains_key(dst_bucket) {
                (s, Err(S3Error::NoSuchBucket))
            } else if !has_room(s.buckets[dst_bucket], dst_key) {
                (s, Err(S3Error::MaxCapacityExceeded))
            } else {
                (
                    with_bucket(s, dst_bucket, with_object(s.buckets[dst_bucket], dst_key, copy)),
                    Ok(copy),
                )
            }
        },
    }
}

/// The line for an object.
pub open spec fn object_line(key: Seq<char>, o: ObjectState) -> ObjectLine {
    ObjectLine {
        key,
        last_modified: o.last_modified,
        etag: o.etag,
        size: o.data.len() as int,
        storage_class: StorageClass::STANDARD,
        owner: None,
    }
}

/// The lines of a page that are objects.
pub open spec fn object_lines(
    groups: Seq<Group>,
    objects: Map<Seq<char>, ObjectState>,
) -> Seq<ObjectLine>
    decreases groups.len(),
{
    if groups.len() == 0 {
        Seq::empty()
    } else {
        let lines = object_lines(groups.drop_last(), objects);
        match groups.last().entry {
            Entry::Object(key) => lines.push(object_line(key, objects[key])),
            Entry::Prefix(_) => lines,
        }
    }
}

/// The lines of a page that are common prefixes.
pub open spec fn prefix_lines(groups: Seq<Group>) -> Seq<Seq<char>>
    decreases groups.len(),
{
    if groups.len() == 0 {
        Seq::empty()
    } else {
        let lines = prefix_lines(groups.drop_last());
        match groups.last().entry {
            Entry::Object(_) => lines,
            Entry::Prefix(prefix) => lines.push(prefix),
        }
    }
}

/// Where a listing resumes: the token of the page before, else the key given to start after.
pub open spec fn resume_point(start_after: Seq<char>, token: Seq<char>) -> Seq<char> {
    if token.len() > 0 {
        token
    } else {
        start_after
    }
}

/// The number of lines of a page: at least one.
pub open spec fn page_limit(max_keys: u32) -> nat {
    if max_keys == 0 {
        1
    } else {
        max_keys as nat
    }
}

/// A page of the listing of objects.
pub open spec fn object_page(
    groups: Seq<Group>,
    max_keys: u32,
    objects: Map<Seq<char>, ObjectState>,
) -> ObjectPage {
    let limit = page_limit(max_keys);
    let shown = page(groups, limit);
    ObjectPage {
        is_truncated: groups.len() > limit,
        next_continuation_token: next_token(groups, limit),
        contents: object_lines(shown, objects),
        common_prefixes: prefix_lines(shown),
        key_count: shown.len() as int,
    }
}

/// Lists the objects of a bucket, a page of them.
pub open spec fn list_objects_v2(
    s: StorageState,
    bucket: Seq<char>,
    prefix: Seq<char>,
    delimiter: Seq<char>,
    start_after: Seq<char>,
    max_keys: u32,
    token: Seq<char>,
) -> Result<ObjectPage, S3Error> {
    if !s.buckets.contains_key(bucket) {
        Err(S3Error::NoSuchBucket)
    } else {
        let objects = s.buckets[bucket].objects;
        Ok(
            object_page(
                listing(objects.dom(), prefix, delimiter, resume_point(start_after, token)),
                max_keys,
                objects,
            ),
        )
    }
}

/// Begins a multipart upload.
pub open spec fn create_multipart_upload(
    s: StorageState,
    bucket: Seq<char>,
    key: Seq<char>,
    id: Seq<char>,
    now: Timestamp,
) -> (StorageState, Result<Seq<char>, S3Error>) {
    if !s.buckets.contains_key(bucket) {
        (s, Err(S3Error::NoSuchBucket))
    } else if s.buckets[bucket].uploads.dom().len() >= CIRRUS_MAX_MULTIPART_UPLOADS {
        (s, Err(S3Error::MaxCapacityExceeded))
    } else {
        let upload = UploadState { upload_id: id, key, initiated: now, parts: Map::empty() };
        (with_bucket(s, bucket, with_upload(s.buckets[bucket], id, upload)), Ok(id))
    }
}

/// Finds an upload by its bucket, key and identifier.
pub open spec fn find_upload(
    s: StorageState,
    bucket: Seq<char>,
    key: Seq<char>,
    id: Seq<char>,
) -> Result<UploadState, S3Error> {
    if !s.buckets.contains_key(bucket) {
        Err(S3Error::NoSuchBucket)
    } else if !s.buckets[bucket].uploads.contains_key(id) {
        Err(S3Error::NoSuchUpload)
    } else if s.buckets[bucket].uploads[id].key != key {
        Err(S3Error::NoSuchUpload)
    } else {
        Ok(s.buckets[bucket].uploads[id])
    }
}

/// Uploads a part, where there is room for its bytes.
pub open spec fn upload_part(
    s: StorageState,
    bucket: Seq<char>,
    key: Seq<char>,
    id: Seq<char>,
    part_number: u32,
    data: Seq<u8>,
    now: Timestamp,
) -> (StorageState, Result<Seq<char>, S3Error>) {
    if part_number < 1 || part_number > CIRRUS_MAX_PARTS_PER_UPLOAD {
        (s, Err(S3Error::InvalidPart))
    } else {
        match find_upload(s, bucket, key, id) {
            Err(e) => (s, Err(e)),
            Ok(upload) => if upload.parts.dom().len() >= CIRRUS_MAX_PARTS_PER_UPLOAD {
                (s, Err(S3Error::MaxCapacityExceeded))
            } else if s.total_bytes + data.len() > CIRRUS_MAX_TOTAL_BYTES {
                (s, Err(S3Error::MaxCapacityExceeded))
            } else {
                let part = PartState {
                    part_number,
                    data,
                    etag: etag_of(data),
                    last_modified: now,
                    size: data.len() as u64,
                };
                let b = s.buckets[bucket];
                let grown = UploadState { parts: upload.parts.insert(part_number, part), ..upload };
                (
                    StorageState {
                        buckets: s.buckets.insert(bucket, with_upload(b, id, grown)),
                        total_bytes: (s.total_bytes + data.len()) as u64,
                    },
                    Ok(etag_of(data)),
                )
            },
        }
    }
}

/// The bytes of the parts named, in order. Their numbers must ascend from above `above`, and
/// each must be stored with the entity tag that is named.
pub open spec fn joined_parts(
    names: Seq<PartName>,
    stored: Map<u32, PartState>,
    above: u32,
) -> Result<Seq<u8>, S3Error>
    decreases names.len(),
{
    if names.len() == 0 {
        Ok(Seq::empty())
    } else {
        let name = names[0];
        if name.part_number <= above {
            Err(S3Error::InvalidPartOrder)
        } else if !stored.contains_key(name.part_number) {
            Err(S3Error::InvalidPart)
        } else if stored[name.part_number].etag != name.etag {
            Err(S3Error::InvalidPart)
        } else {
            match joined_parts(names.drop_first(), stored, name.part_number) {
                Ok(rest) => Ok(stored[name.part_number].data + rest),
                Err(e) => Err(e),
            }
        }
    }
}

/// The entity tag of an object made of parts: hexadecimal MD5 and the number of parts.
pub open spec fn joined_etag(data: Seq<u8>, count: nat) -> Seq<char> {
    seq!['"'] + hex(md5_of(data)) + seq!['-'] + decimal(count) + seq!['"']
}

/// The object that a completed upload becomes.
pub open spec fn joined_object(data: Seq<u8>, count: nat, now: Timestamp) -> ObjectState {
    ObjectState {
        data,
        etag: joined_etag(data, count),
        content_type: "binary/octet-stream"@,
        last_modified: now,
        metadata: Seq::empty(),
    }
}

/// Completes a multipart upload: the parts named become the object, where the bucket has room
/// and the object is not too large. The bytes were counted when the parts came.
pub open spec fn complete_multipart_upload(
    s: StorageState,
    bucket: Seq<char>,
    key: Seq<char>,
    id: Seq<char>,
    names: Seq<PartName>,
    now: Timestamp,
) -> (StorageState, Result<Seq<char>, S3Error>) {
    if names.len() == 0 {
        (s, Err(S3Error::InvalidPart))
    } else {
        match find_upload(s, bucket, key, id) {
            Err(e) => (s, Err(e)),
            Ok(upload) => match joined_parts(names, upload.parts, 0) {
                Err(e) => (s, Err(e)),
                Ok(data) => if !has_room(s.buckets[bucket], key) {
                    (s, Err(S3Error::MaxCapacityExceeded))
                } else if data.len() > CIRRUS_MAX_OBJECT_SIZE {
                    (s, Err(S3Error::EntityTooLarge))
                } else {
                    let b = s.buckets[bucket];
                    let object = joined_object(data, names.len(), now);
                    let done = BucketState {
                        uploads: b.uploads.remove(id),
                        objects: b.objects.insert(key, object),
                        ..b
                    };
                    (with_bucket(s, bucket, done), Ok(object.etag))
                },
            },
        }
    }
}

/// Whether `numbers` lists the members of `set` in ascending order.
pub open spec fn lists_numbers(numbers: Seq<u32>, set: Set<u32>) -> bool {
    &&& forall|i: int, j: int| 0 <= i < j < numbers.len() ==> numbers[i] < numbers[j]
    &&& forall|i: int| 0 <= i < numbers.len() ==> set.contains(#[trigger] numbers[i])
    &&& forall|n: u32| #[trigger] set.contains(n) ==> numbers.contains(n)
}

/// The members of a set of numbers, in ascending order.
pub open spec fn sorted_numbers(set: Set<u32>) -> Seq<u32> {
    choose|numbers: Seq<u32>| lists_numbers(numbers, set)
}

/// The sizes of the parts with the numbers given, together.
pub open spec fn size_sum(numbers: Seq<u32>, parts: Map<u32, PartState>) -> int
    decreases numbers.len(),
{
    if numbers.len() == 0 {
        0
    } else {
        size_sum(numbers.drop_last(), parts) + parts[numbers.last()].size
    }
}

/// The sizes of all parts together.
pub open spec fn parts_size(parts: Map<u32, PartState>) -> int {
    size_sum(sorted_numbers(parts.dom()), parts)
}

/// Aborts a multipart upload: its parts are gone.
pub open spec fn abort_multipart_upload(
    s: StorageState,
    bucket: Seq<char>,
    key: Seq<char>,
    id: Seq<char>,
) -> (StorageState, Result<(), S3Error>) {
    match find_upload(s, bucket, key, id) {
        Err(e) => (s, Err(e)),
        Ok(upload) => {
            let b = s.buckets[bucket];
            let left = BucketState { uploads: b.uploads.remove(id), ..b };
            (
                StorageState {
                    buckets: s.buckets.insert(bucket, left),
                    total_bytes: count_less(s.total_bytes, parts_size(upload.parts)),
                },
                Ok(()),
            )
        },
    }
}

/// The line for a part.
pub open spec fn part_line(number: u32, p: PartState) -> PartLine {
    PartLine {
        part_number: number,
        last_modified: p.last_modified,
        etag: p.etag,
        size: p.size,
    }
}

/// The numbers of the parts that come after a marker, in ascending order.
pub open spec fn numbers_after(parts: Map<u32, PartState>, marker: u32) -> Seq<u32> {
    sorted_numbers(parts.dom().filter(|n: u32| n > marker))
}

/// A page of the list of parts.
pub open spec fn part_page(
    numbers: Seq<u32>,
    parts: Map<u32, PartState>,
    max_parts: u32,
) -> PartPage {
    let truncated = max_parts < numbers.len();
    let shown = if truncated {
        numbers.take(max_parts as int)
    } else {
        numbers
    };
    PartPage {
        parts: shown.map_values(|n: u32| part_line(n, parts[n])),
        is_truncated: truncated,
        next_part_number_marker: if truncated && shown.len() > 0 {
            decimal(shown.last() as nat)
        } else {
            Seq::empty()
        },
    }
}

/// Lists the parts of an upload, a page of them.
pub open spec fn list_parts(
    s: StorageState,
    bucket: Seq<char>,
    key: Seq<char>,
    id: Seq<char>,
    max_parts: u32,
    marker: u32,
) -> Result<PartPage, S3Error> {
    match find_upload(s, bucket, key, id) {
        Err(e) => Err(e),
        Ok(upload) => Ok(part_page(numbers_after(upload.parts, marker), upload.parts, max_parts)),
    }
}

/// The region that every bucket is in.
pub open spec fn bucket_location() -> Seq<char> {
    "us-east-1"@
}

/// A call of a storage backend.
pub enum Call {
    CreateBucket { name: Seq<char> },
    DeleteBucket { name: Seq<char> },
    ListBuckets,
    GetBucketLocation { name: Seq<char> },
    PutObject { bucket: Seq<char>, key: Seq<char>, object: ObjectState },
    GetObject { bucket: Seq<char>, key: Seq<char> },
    HeadObject { bucket: Seq<char>, key: Seq<char> },
    DeleteObject { bucket: Seq<char>, key: Seq<char> },
    CopyObject {
        src_bucket: Seq<char>,
        src_key: Seq<char>,
        dst_bucket: Seq<char>,
        dst_key: Seq<char>,
        metadata: Entries,
    },
    ListObjectsV2 {
        bucket: Seq<char>,
        prefix: Seq<char>,
        delimiter: Seq<char>,
        start_after: Seq<char>,
        max_keys: u32,
        token: Seq<char>,
    },
    CreateMultipartUpload { bucket: Seq<char>, key: Seq<char> },
    UploadPart {
        bucket: Seq<char>,
        key: Seq<char>,
        upload_id: Seq<char>,
        part_number: u32,
        data: Seq<u8>,
    },
    CompleteMultipartUpload {
        bucket: Seq<char>,
        key: Seq<char>,
        upload_id: Seq<char>,
        parts: Seq<PartName>,
    },
    AbortMultipartUpload { bucket: Seq<char>, key: Seq<char>, upload_id: Seq<char> },
    ListParts {
        bucket: Seq<char>,
        key: Seq<char>,
        upload_id: Seq<char>,
        max_parts: u32,
        marker: u32,
    },
}

/// The reply of a storage backend.
pub enum Reply {
    Done(Result<(), S3Error>),
    Bucket(Result<BucketState, S3Error>),
    Buckets(Result<Seq<BucketLine>, S3Error>),
    Text(Result<Seq<char>, S3Error>),
    Object(Result<ObjectState, S3Error>),
    Objects(Result<ObjectPage, S3Error>),
    Parts(Result<PartPage, S3Error>),
}

/// What a call does, at the time `now` and with the fresh identifier `id`.
pub open spec fn step(s: StorageState, call: Call, now: Timestamp, id: Seq<char>) -> (
    StorageState,
    Reply,
) {
    match call {
        Call::CreateBucket { name } => {
            let r = create_bucket(s, name, now);
            (r.0, Reply::Bucket(r.1))
        },
        Call::DeleteBucket { name } => {
            let r = delete_bucket(s, name);
            (r.0, Reply::Done(r.1))
        },
        Call::ListBuckets => (s, Reply::Buckets(Ok(list_buckets(s)))),
        Call::GetBucketLocation { name } => (s, Reply::Text(Ok(bucket_location()))),
        Call::PutObject { bucket, key, object } => {
            let r = put_object(s, bucket, key, object);
            (r.0, Reply::Done(r.1))
        },
        Call::GetObject { bucket, key } => (s, Reply::Object(get_object(s, bucket, key))),
        Call::HeadObject { bucket, key } => (s, Reply::Object(get_object(s, bucket, key))),
        Call::DeleteObject { bucket, key } => {
            let r = delete_object(s, bucket, key);
            (r.0, Reply::Done(r.1))
        },
        Call::CopyObject { src_bucket, src_key, dst_bucket, dst_key, metadata } => {
            let r = copy_object(s, src_bucket, src_key, dst_bucket, dst_key, metadata, now);
            (r.0, Reply::Object(r.1))
        },
        Call::ListObjectsV2 { bucket, prefix, delimiter, start_after, max_keys, token } => (
            s,
            Reply::Objects(
                list_objects_v2(s, bucket, prefix, delimiter, start_after, max_keys, token),
            ),
        ),
        Call::CreateMultipartUpload { bucket, key } => {
            let r = create_multipart_upload(s, bucket, key, id, now);
            (r.0, Reply::Text(r.1))
        },
        Call::UploadPart { bucket, key, upload_id, part_number, data } => {
            let r = upload_part(s, bucket, key, upload_id, part_number, data, now);
            (r.0, Reply::Text(r.1))
        },
        Call::CompleteMultipartUpload { bucket, key, upload_id, parts } => {
            let r = complete_multipart_upload(s, bucket, key, upload_id, parts, now);
            (r.0, Reply::Text(r.1))
        },
        Call::AbortMultipartUpload { bucket, key, upload_id } => {
            let r = abort_multipart_upload(s, bucket, key, upload_id);
            (r.0, Reply::Done(r.1))
        },
        Call::ListParts { bucket, key, upload_id, max_parts, marker } => (
            s,
            Reply::Parts(list_parts(s, bucket, key, upload_id, max_parts, marker)),
        ),
    }
}

/// Whether a reply refuses the call.
pub open spec fn refuses(reply: Reply) -> bool {
    match reply {
        Reply::Done(r) => r is Err,
        Reply::Bucket(r) => r is Err,
        Reply::Buckets(r) => r is Err,
        Reply::Text(r) => r is Err,
        Reply::Object(r) => r is Err,
        Reply::Objects(r) => r is Err,
        Reply::Parts(r) => r is Err,
    }
}

} // verus!
