//! The storage backend that keeps all in memory.

use crate::blob::{bytes_from, bytes_of};
use crate::clock::Timestamp;
use crate::digest::{is_uuid, random_uuid};
use crate::order::{lemma_sorted_lists, sort_distinct, sorted};
use crate::protocol::types::{BucketInfo, Part, S3Object};
use crate::protocol::xml::format_etag;
use crate::s3::bucket::{
    bucket_listable, copy_from, count_parts, fresh_bucket, join_from, joined_etag_text,
    list_bucket, list_from, size_counted, size_of_upload, upload_in,
};
use crate::s3::laws::{calls_keep_names, calls_keep_within_limits, empty_state_is_well_kept};
use crate::s3::listing::{delimiter_cuts, listing, selected};
use crate::s3::model::{
    abort_multipart_upload, bucket_line, bucket_location, complete_multipart_upload,
    copy_object, create_bucket, create_multipart_upload, delete_bucket, delete_object,
    empty_state, get_object, has_room, is_full, joined_object, joined_parts, list_buckets,
    list_objects_v2, list_parts, numbers_after, object_page, part_page, put_object, step,
    upload_part, well_kept, with_object, with_upload, within_limits, Call, Reply, S3Error,
    StorageState, CIRRUS_MAX_BUCKETS, CIRRUS_MAX_MULTIPART_UPLOADS,
    CIRRUS_MAX_OBJECTS_PER_BUCKET, CIRRUS_MAX_OBJECT_SIZE, CIRRUS_MAX_PARTS_PER_UPLOAD,
    CIRRUS_MAX_TOTAL_BYTES,
};
use crate::s3::storage::{
    bucket_lines, buckets_of, new_buckets, objects_of, outcome, part_names, uploads_of, Bucket,
    GetObjectResult, MultipartUpload, ObjectList, PartData, PartsList, Storage,
};
use crate::string_map::StringMap;
use crate::table::{table_contains, table_insert, table_keys, table_len, table_read, table_remove};
use crate::text::texts;
use bytes::Bytes;
use dashmap::DashMap;
use std::collections::BTreeMap;
use vstd::prelude::*;
use vstd::string::*;

verus! {

/// The storage backend that keeps all in memory, each thing under its own name and all within
/// the limits.
pub struct DefaultStorage {
    buckets: DashMap<String, Bucket>,
    total_bytes: u64,
}

/// What a call leaves behind is kept under its own name and within its limits.
proof fn lemma_kept(s: StorageState, call: Call, now: Timestamp, id: Seq<char>)
    requires
        well_kept(s),
        within_limits(s),
    ensures
        well_kept(step(s, call, now, id).0),
        within_limits(step(s, call, now, id).0),
{
    calls_keep_names(s, call, now, id);
    calls_keep_within_limits(s, call, now, id);
}

impl View for DefaultStorage {
    type V = StorageState;

    closed spec fn view(&self) -> StorageState {
        StorageState {
            buckets: buckets_of(self.buckets).map_values(|b: Bucket| b@),
            total_bytes: self.total_bytes,
        }
    }
}

impl DefaultStorage {
    #[verifier::type_invariant]
    closed spec fn wf(self) -> bool {
        well_kept(self@) && within_limits(self@)
    }

    /// A backend that holds nothing.
    pub fn new() -> (s: DefaultStorage)
        ensures
            s@ == empty_state(),
    {
        let buckets = new_buckets();
        let ghost state = StorageState {
            buckets: buckets_of(buckets).map_values(|b: Bucket| b@),
            total_bytes: 0,
        };
        assert(state.buckets =~= Map::empty());
        proof {
            empty_state_is_well_kept();
        }
        DefaultStorage { buckets, total_bytes: 0 }
    }

    /// The number of bytes that are counted as stored.
    pub fn total_bytes(&self) -> (n: u64)
        ensures
            n == self@.total_bytes,
            well_kept(self@),
            within_limits(self@),
    {
        proof {
            use_type_invariant(self);
        }
        self.total_bytes
    }

    /// Whether there is a bucket of this name.
    pub fn has_bucket(&self, name: &str) -> (b: bool)
        ensures
            b == self@.buckets.contains_key(name@),
            well_kept(self@),
            within_limits(self@),
    {
        proof {
            use_type_invariant(self);
        }
        table_contains(&self.buckets, name)
    }

    /// Creates a bucket, at the time given. The bucket that is given back is one like the bucket
    /// that is kept; what is done to it does not reach the one that is kept.
    pub fn create_bucket_at(&mut self, name: &str, now: Timestamp) -> (r: Result<Bucket, S3Error>)
        ensures
            (final(self)@, outcome(r)) == create_bucket(old(self)@, name@, now),
    {
        proof {
            use_type_invariant(&*self);
        }
        let ghost before = self@;
        let ghost names = buckets_of(self.buckets);
        assert(before.buckets.dom() =~= names.dom());
        if table_len(&self.buckets) as u64 >= CIRRUS_MAX_BUCKETS {
            return Err(S3Error::MaxCapacityExceeded);
        }
        if table_contains(&self.buckets, name) {
            return Err(S3Error::BucketAlreadyExists);
        }
        let bucket = fresh_bucket(name, now);
        let kept = fresh_bucket(name, now);
        proof {
            lemma_kept(before, Call::CreateBucket { name: name@ }, now, Seq::empty());
        }
        self.set_bucket(name, kept, self.total_bytes);
        Ok(bucket)
    }

    /// Sets a bucket and the counter of bytes.
    fn set_bucket(&mut self, name: &str, bucket: Bucket, total: u64)
        requires
            ({
                let after = StorageState {
                    buckets: old(self)@.buckets.insert(name@, bucket@),
                    total_bytes: total,
                };
                well_kept(after) && within_limits(after)
            }),
        ensures
            final(self)@ == (StorageState {
                buckets: old(self)@.buckets.insert(name@, bucket@),
                total_bytes: total,
            }),
    {
        proof {
            use_type_invariant(&*self);
        }
        let mut buckets = new_buckets();
        assert(buckets_of(buckets).map_values(|b: Bucket| b@) =~= Map::empty());
        let ghost before = self.buckets;
        std::mem::swap(&mut buckets, &mut self.buckets);
        table_insert(&mut buckets, name.to_string(), bucket);
        assert(buckets_of(buckets).map_values(|b: Bucket| b@) =~= buckets_of(before).map_values(
            |b: Bucket| b@,
        ).insert(name@, bucket@));
        *self = DefaultStorage { buckets, total_bytes: total };
    }

    /// Takes a bucket out.
    fn take_bucket(&mut self, name: &str) -> (r: Option<Bucket>)
        ensures
            final(self)@ == (StorageState {
                buckets: old(self)@.buckets.remove(name@),
                total_bytes: old(self)@.total_bytes,
            }),
            match r {
                Some(b) => old(self)@.buckets.contains_key(name@) && b@
                    == old(self)@.buckets[name@],
                None => !old(self)@.buckets.contains_key(name@),
            },
    {
        proof {
            use_type_invariant(&*self);
        }
        let mut buckets = new_buckets();
        assert(buckets_of(buckets).map_values(|b: Bucket| b@) =~= Map::empty());
        let ghost before = self.buckets;
        let total = self.total_bytes;
        std::mem::swap(&mut buckets, &mut self.buckets);
        let taken = table_remove(&mut buckets, name);
        assert(buckets_of(buckets).map_values(|b: Bucket| b@) =~= buckets_of(before).map_values(
            |b: Bucket| b@,
        ).remove(name@));
        proof {
            let dom = buckets_of(before).map_values(|b: Bucket| b@).dom();
            assert(buckets_of(buckets).map_values(|b: Bucket| b@).dom() =~= dom.remove(name@));
        }
        *self = DefaultStorage { buckets, total_bytes: total };
        match taken {
            Some(entry) => Some(entry.1),
            None => None,
        }
    }

    /// Deletes a bucket that holds nothing.
    fn do_delete_bucket(&mut self, name: &str) -> (r: Result<(), S3Error>)
        ensures
            (final(self)@, r) == delete_bucket(old(self)@, name@),
    {
        proof {
            use_type_invariant(&*self);
        }
        let ghost before = self@;
        let bucket = match self.take_bucket(name) {
            Some(bucket) => bucket,
            None => {
                assert(before.buckets.remove(name@) =~= before.buckets);
                return Err(S3Error::NoSuchBucket);
            },
        };
        assert(bucket@.objects.dom() =~= objects_of(bucket.objects).dom());
        assert(bucket@.uploads.dom() =~= uploads_of(bucket.multipart_uploads).dom());
        if table_len(&bucket.objects) != 0 || table_len(&bucket.multipart_uploads) != 0 {
            assert(before.buckets.remove(name@).insert(name@, bucket@) =~= before.buckets);
            self.set_bucket(name, bucket, self.total_bytes);
            return Err(S3Error::BucketNotEmpty);
        }
        Ok(())
    }

    /// Whether a bucket has room for an object under the key; `None` where there is no such bucket.
    fn bucket_has_room(&self, bucket: &str, key: &str) -> (r: Option<bool>)
        ensures
            r == (if self@.buckets.contains_key(bucket@) {
                Some(has_room(self@.buckets[bucket@], key@))
            } else {
                None
            }),
    {
        table_read(
            &self.buckets,
            bucket,
            |b: &Bucket| -> (room: bool)
                ensures
                    room == has_room(b@, key@),
                {
                    assert(b@.objects.dom() =~= objects_of(b.objects).dom());
                    (table_len(&b.objects) as u64) < CIRRUS_MAX_OBJECTS_PER_BUCKET
                        || table_contains(&b.objects, key)
                }
        )
    }

    /// Stores an object.
    fn do_put_object(&mut self, bucket: &str, key: &str, object: S3Object) -> (r: Result<
        (),
        S3Error,
    >)
        ensures
            (final(self)@, r) == put_object(old(self)@, bucket@, key@, object@),
    {
        proof {
            use_type_invariant(&*self);
        }
        let ghost before = self@;
        let full = table_read(
            &self.buckets,
            bucket,
            |b: &Bucket| -> (full: bool)
                ensures
                    full == is_full(b@),
                {
                    assert(b@.objects.dom() =~= objects_of(b.objects).dom());
                    table_len(&b.objects) as u64 >= CIRRUS_MAX_OBJECTS_PER_BUCKET
                }
        );
        let full = match full {
            Some(full) => full,
            None => {
                return Err(S3Error::NoSuchBucket);
            },
        };
        if full {
            return Err(S3Error::MaxCapacityExceeded);
        }
        let size: u64 = object.content_length() as u64;
        if size > CIRRUS_MAX_OBJECT_SIZE {
            return Err(S3Error::EntityTooLarge);
        }
        if self.total_bytes.saturating_add(size) > CIRRUS_MAX_TOTAL_BYTES {
            return Err(S3Error::MaxCapacityExceeded);
        }
        let total: u64 = self.total_bytes + size;
        if let Some(mut b) = self.take_bucket(bucket) {
            let ghost was = b@;
            table_insert(&mut b.objects, key.to_string(), object);
            proof {
                assert(b@.objects =~= was.objects.insert(key@, object@));
                assert(b@ == with_object(was, key@, object@));
                lemma_kept(
                    before,
                    Call::PutObject { bucket: bucket@, key: key@, object: object@ },
                    arbitrary(),
                    Seq::empty(),
                );
                assert(before.buckets.remove(bucket@).insert(bucket@, b@) =~= before.buckets.insert(
                    bucket@,
                    b@,
                ));
            }
            self.set_bucket(bucket, b, total);
        }
        Ok(())
    }

    /// Reads an object.
    fn do_get_object(&self, bucket: &str, key: &str) -> (r: Result<GetObjectResult, S3Error>)
        ensures
            outcome(r) == get_object(self@, bucket@, key@),
    {
        let found = table_read(
            &self.buckets,
            bucket,
            |b: &Bucket| -> (o: Option<S3Object>)
                ensures
                    match o {
                        Some(object) => b@.objects.contains_key(key@) && object@
                            == b@.objects[key@],
                        None => !b@.objects.contains_key(key@),
                    },
                { copy_from(&b.objects, key) }
        );
        match found {
            None => Err(S3Error::NoSuchBucket),
            Some(None) => Err(S3Error::NoSuchKey),
            Some(Some(object)) => Ok(GetObjectResult { object }),
        }
    }

    /// Deletes an object.
    fn do_delete_object(&mut self, bucket: &str, key: &str) -> (r: Result<(), S3Error>)
        ensures
            (final(self)@, r) == delete_object(old(self)@, bucket@, key@),
    {
        proof {
            use_type_invariant(&*self);
        }
        let ghost before = self@;
        let mut b = match self.take_bucket(bucket) {
            Some(b) => b,
            None => {
                assert(before.buckets.remove(bucket@) =~= before.buckets);
                return Err(S3Error::NoSuchBucket);
            },
        };
        let ghost was = b@;
        let gone = table_remove(&mut b.objects, key);
        proof {
            assert(b@.objects =~= was.objects.remove(key@));
            lemma_kept(
                before,
                Call::DeleteObject { bucket: bucket@, key: key@ },
                arbitrary(),
                Seq::empty(),
            );
            assert(before.buckets.remove(bucket@).insert(bucket@, b@) =~= before.buckets.insert(
                bucket@,
                b@,
            ));
        }
        match gone {
            None => {
                assert(was.objects.remove(key@) =~= was.objects);
                assert(before.buckets.insert(bucket@, b@) =~= before.buckets);
                self.set_bucket(bucket, b, self.total_bytes);
                Err(S3Error::NoSuchKey)
            },
            Some(entry) => {
                let total: u64 = self.total_bytes.saturating_sub(entry.1.content_length() as u64);
                self.set_bucket(bucket, b, total);
                Ok(())
            },
        }
    }

    /// Copies an object, at the time given.
    pub fn copy_object_at(
        &mut self,
        src_bucket: &str,
        src_key: &str,
        dst_bucket: &str,
        dst_key: &str,
        metadata: &StringMap,
        now: Timestamp,
    ) -> (r: Result<S3Object, S3Error>)
        ensures
            (final(self)@, outcome(r)) == copy_object(
                old(self)@,
                src_bucket@,
                src_key@,
                dst_bucket@,
                dst_key@,
                metadata@,
                now,
            ),
    {
        proof {
            use_type_invariant(&*self);
        }
        let ghost before = self@;
        let mut copy = match self.do_get_object(src_bucket, src_key) {
            Ok(found) => found.object,
            Err(e) => {
                return Err(e);
            },
        };
        copy.last_modified = now;
        if !metadata.is_empty() {
            copy.metadata = metadata.clone();
        }
        match self.bucket_has_room(dst_bucket, dst_key) {
            Some(true) => {},
            Some(false) => {
                return Err(S3Error::MaxCapacityExceeded);
            },
            None => {
                return Err(S3Error::NoSuchBucket);
            },
        }
        if let Some(mut b) = self.take_bucket(dst_bucket) {
            let ghost was = b@;
            let kept = copy.clone();
            table_insert(&mut b.objects, dst_key.to_string(), kept);
            proof {
                assert(b@.objects =~= was.objects.insert(dst_key@, copy@));
                assert(b@ == with_object(was, dst_key@, copy@));
                lemma_kept(
                    before,
                    Call::CopyObject {
                        src_bucket: src_bucket@,
                        src_key: src_key@,
                        dst_bucket: dst_bucket@,
                        dst_key: dst_key@,
                        metadata: metadata@,
                    },
                    now,
                    Seq::empty(),
                );
                assert(before.buckets.remove(dst_bucket@).insert(dst_bucket@, b@)
                    =~= before.buckets.insert(dst_bucket@, b@));
            }
            self.set_bucket(dst_bucket, b, self.total_bytes);
        }
        Ok(copy)
    }

    /// All buckets, in the order of their names.
    fn do_list_buckets(&self) -> (infos: Vec<BucketInfo>)
        ensures
            infos@.map_values(|b: BucketInfo| b@) == list_buckets(self@),
    {
        proof {
            use_type_invariant(self);
        }
        let mut names = table_keys(&self.buckets);
        sort_distinct(&mut names);
        assert(self@.buckets.dom() =~= buckets_of(self.buckets).dom());
        let ghost order = sorted(self@.buckets.dom());
        proof {
            lemma_sorted_lists(self@.buckets.dom());
        }
        assert(texts(names@) == order);
        let mut infos: Vec<BucketInfo> = Vec::new();
        let mut i: usize = 0;
        assert(infos@.map_values(|b: BucketInfo| b@) =~= list_buckets(self@).take(0));
        while i < names.len()
            invariant
                i <= names.len(),
                texts(names@) == order,
                order == sorted(self@.buckets.dom()),
                forall|j: int|
                    0 <= j < order.len() ==> self@.buckets.dom().contains(#[trigger] order[j]),
                self@.buckets == buckets_of(self.buckets).map_values(|b: Bucket| b@),
                infos@.map_values(|b: BucketInfo| b@) == list_buckets(self@).take(i as int),
            decreases names.len() - i,
        {
            let ghost before = infos@.map_values(|b: BucketInfo| b@);
            assert(order[i as int] == names@[i as int]@);
            assert(self@.buckets.dom().contains(order[i as int]));
            let info = table_read(
                &self.buckets,
                names[i].as_str(),
                |b: &Bucket| -> (info: BucketInfo)
                    ensures
                        info@ == bucket_line(b@),
                    { BucketInfo { name: b.name.clone(), creation_date: b.creation_date } }
            );
            if let Some(info) = info {
                infos.push(info);
                assert(infos@.map_values(|b: BucketInfo| b@) =~= before.push(info@));
            }
            i += 1;
            assert(infos@.map_values(|b: BucketInfo| b@) =~= list_buckets(self@).take(i as int));
        }
        assert(infos@.map_values(|b: BucketInfo| b@) =~= list_buckets(self@));
        infos
    }

    /// Begins a multipart upload under the identifier and at the time given.
    pub fn create_multipart_upload_at(
        &mut self,
        bucket: &str,
        key: &str,
        upload_id: String,
        now: Timestamp,
    ) -> (r: Result<String, S3Error>)
        ensures
            (final(self)@, outcome(r)) == create_multipart_upload(
                old(self)@,
                bucket@,
                key@,
                upload_id@,
                now,
            ),
    {
        proof {
            use_type_invariant(&*self);
        }
        let ghost before = self@;
        let count = table_read(
            &self.buckets,
            bucket,
            |b: &Bucket| -> (n: usize)
                ensures
                    n == b@.uploads.dom().len(),
                {
                    assert(b@.uploads.dom() =~= uploads_of(b.multipart_uploads).dom());
                    table_len(&b.multipart_uploads)
                }
        );
        let count: usize = match count {
            Some(n) => n,
            None => {
                return Err(S3Error::NoSuchBucket);
            },
        };
        if count >= CIRRUS_MAX_MULTIPART_UPLOADS {
            return Err(S3Error::MaxCapacityExceeded);
        }
        if let Some(mut b) = self.take_bucket(bucket) {
            let ghost was = b@;
            let upload = MultipartUpload {
                upload_id: upload_id.clone(),
                key: key.to_string(),
                initiated: now,
                parts: BTreeMap::new(),
            };
            assert(upload@.parts =~= Map::empty());
            table_insert(&mut b.multipart_uploads, upload_id.clone(), upload);
            proof {
                assert(b@.uploads =~= was.uploads.insert(upload_id@, upload@));
                assert(b@ == with_upload(was, upload_id@, upload@));
                lemma_kept(
                    before,
                    Call::CreateMultipartUpload { bucket: bucket@, key: key@ },
                    now,
                    upload_id@,
                );
                assert(before.buckets.remove(bucket@).insert(bucket@, b@) =~= before.buckets.insert(
                    bucket@,
                    b@,
                ));
            }
            self.set_bucket(bucket, b, self.total_bytes);
        }
        Ok(upload_id)
    }

    /// Uploads a part, at the time given.
    pub fn upload_part_at(
        &mut self,
        bucket: &str,
        key: &str,
        upload_id: &str,
        part_number: u32,
        data: Bytes,
        now: Timestamp,
    ) -> (r: Result<String, S3Error>)
        ensures
            (final(self)@, outcome(r)) == upload_part(
                old(self)@,
                bucket@,
                key@,
                upload_id@,
                part_number,
                bytes_of(data),
                now,
            ),
    {
        proof {
            use_type_invariant(&*self);
        }
        let ghost before = self@;
        if part_number < 1 || part_number > CIRRUS_MAX_PARTS_PER_UPLOAD {
            return Err(S3Error::InvalidPart);
        }
        let count = table_read(
            &self.buckets,
            bucket,
            |b: &Bucket| -> (r: Result<usize, S3Error>)
                ensures
                    match r {
                        Ok(n) => upload_in(*b, key@, upload_id@) && n
                            == b@.uploads[upload_id@].parts.dom().len(),
                        Err(e) => e == S3Error::NoSuchUpload && !upload_in(
                            *b,
                            key@,
                            upload_id@,
                        ),
                    },
                { count_parts(b, key, upload_id) }
        );
        let count: usize = match count {
            None => {
                return Err(S3Error::NoSuchBucket);
            },
            Some(Err(e)) => {
                return Err(e);
            },
            Some(Ok(n)) => n,
        };
        if count >= CIRRUS_MAX_PARTS_PER_UPLOAD as usize {
            return Err(S3Error::MaxCapacityExceeded);
        }
        let size: u64 = data.len() as u64;
        if self.total_bytes.saturating_add(size) > CIRRUS_MAX_TOTAL_BYTES {
            return Err(S3Error::MaxCapacityExceeded);
        }
        let total: u64 = self.total_bytes + size;
        let etag = format_etag(&data);
        let part = PartData {
            part_number,
            data,
            etag: etag.clone(),
            last_modified: now,
            size,
        };
        if let Some(mut b) = self.take_bucket(bucket) {
            let ghost was = b@;
            if let Some(entry) = table_remove(&mut b.multipart_uploads, upload_id) {
                let mut upload = entry.1;
                let ghost had = upload@;
                upload.parts.insert(part_number, part);
                proof {
                    assert(upload@.parts =~= had.parts.insert(part_number, part@));
                }
                table_insert(&mut b.multipart_uploads, upload_id.to_string(), upload);
                proof {
                    assert(b@.uploads =~= was.uploads.insert(upload_id@, upload@));
                    assert(b@ == with_upload(was, upload_id@, upload@));
                    lemma_kept(
                        before,
                        Call::UploadPart {
                            bucket: bucket@,
                            key: key@,
                            upload_id: upload_id@,
                            part_number,
                            data: bytes_of(data),
                        },
                        now,
                        Seq::empty(),
                    );
                    assert(before.buckets.remove(bucket@).insert(bucket@, b@)
                        =~= before.buckets.insert(bucket@, b@));
                }
                self.set_bucket(bucket, b, total);
            }
        }
        Ok(etag)
    }

    /// Completes a multipart upload, at the time given.
    pub fn complete_multipart_upload_at(
        &mut self,
        bucket: &str,
        key: &str,
        upload_id: &str,
        parts: &[Part],
        now: Timestamp,
    ) -> (r: Result<String, S3Error>)
        ensures
            (final(self)@, outcome(r)) == complete_multipart_upload(
                old(self)@,
                bucket@,
                key@,
                upload_id@,
                part_names(parts@),
                now,
            ),
    {
        proof {
            use_type_invariant(&*self);
        }
        let ghost before = self@;
        if parts.len() == 0 {
            return Err(S3Error::InvalidPart);
        }
        let joined = table_read(
            &self.buckets,
            bucket,
            |b: &Bucket| -> (r: Result<Vec<u8>, S3Error>)
                ensures
                    match r {
                        Ok(data) => upload_in(*b, key@, upload_id@) && joined_parts(
                            part_names(parts@),
                            b@.uploads[upload_id@].parts,
                            0,
                        ) == Ok::<Seq<u8>, S3Error>(data@),
                        Err(e) => if upload_in(*b, key@, upload_id@) {
                            joined_parts(
                                part_names(parts@),
                                b@.uploads[upload_id@].parts,
                                0,
                            ) == Err::<Seq<u8>, S3Error>(e)
                        } else {
                            e == S3Error::NoSuchUpload
                        },
                    },
                { join_from(b, key, upload_id, parts) }
        );
        let data: Vec<u8> = match joined {
            None => {
                return Err(S3Error::NoSuchBucket);
            },
            Some(Err(e)) => {
                return Err(e);
            },
            Some(Ok(data)) => data,
        };
        if let Some(false) = self.bucket_has_room(bucket, key) {
            return Err(S3Error::MaxCapacityExceeded);
        }
        if data.len() as u64 > CIRRUS_MAX_OBJECT_SIZE {
            return Err(S3Error::EntityTooLarge);
        }
        let ghost bytes = data@;
        let etag = joined_etag_text(data.as_slice(), parts.len());
        let object = S3Object {
            data: bytes_from(data),
            etag: etag.clone(),
            content_type: "binary/octet-stream".to_string(),
            last_modified: now,
            metadata: StringMap::new(),
        };
        assert(object@ == joined_object(bytes, parts@.len(), now));
        if let Some(mut b) = self.take_bucket(bucket) {
            let ghost was = b@;
            table_remove(&mut b.multipart_uploads, upload_id);
            table_insert(&mut b.objects, key.to_string(), object);
            proof {
                assert(b@.uploads =~= was.uploads.remove(upload_id@));
                assert(b@.objects =~= was.objects.insert(key@, object@));
                lemma_kept(
                    before,
                    Call::CompleteMultipartUpload {
                        bucket: bucket@,
                        key: key@,
                        upload_id: upload_id@,
                        parts: part_names(parts@),
                    },
                    now,
                    Seq::empty(),
                );
                assert(before.buckets.remove(bucket@).insert(bucket@, b@) =~= before.buckets.insert(
                    bucket@,
                    b@,
                ));
            }
            self.set_bucket(bucket, b, self.total_bytes);
        }
        Ok(etag)
    }

    /// Aborts a multipart upload.
    fn do_abort_multipart_upload(&mut self, bucket: &str, key: &str, upload_id: &str) -> (r: Result<
        (),
        S3Error,
    >)
        ensures
            (final(self)@, r) == abort_multipart_upload(
                old(self)@,
                bucket@,
                key@,
                upload_id@,
            ),
    {
        proof {
            use_type_invariant(&*self);
        }
        let ghost before = self@;
        let size = table_read(
            &self.buckets,
            bucket,
            |b: &Bucket| -> (r: Result<u64, S3Error>)
                ensures
                    match r {
                        Ok(n) => upload_in(*b, key@, upload_id@) && n == size_counted(
                            b@.uploads[upload_id@].parts,
                        ),
                        Err(e) => e == S3Error::NoSuchUpload && !upload_in(
                            *b,
                            key@,
                            upload_id@,
                        ),
                    },
                { size_of_upload(b, key, upload_id) }
        );
        let size: u64 = match size {
            None => {
                return Err(S3Error::NoSuchBucket);
            },
            Some(Err(e)) => {
                return Err(e);
            },
            Some(Ok(n)) => n,
        };
        let total: u64 = self.total_bytes.saturating_sub(size);
        if let Some(mut b) = self.take_bucket(bucket) {
            let ghost was = b@;
            table_remove(&mut b.multipart_uploads, upload_id);
            proof {
                assert(b@.uploads =~= was.uploads.remove(upload_id@));
                lemma_kept(
                    before,
                    Call::AbortMultipartUpload {
                        bucket: bucket@,
                        key: key@,
                        upload_id: upload_id@,
                    },
                    arbitrary(),
                    Seq::empty(),
                );
                assert(before.buckets.remove(bucket@).insert(bucket@, b@) =~= before.buckets.insert(
                    bucket@,
                    b@,
                ));
            }
            self.set_bucket(bucket, b, total);
        }
        Ok(())
    }

    /// Lists the parts of an upload, a page of them.
    fn do_list_parts(
        &self,
        bucket: &str,
        key: &str,
        upload_id: &str,
        max_parts: u32,
        marker: u32,
    ) -> (r: Result<PartsList, S3Error>)
        ensures
            outcome(r) == list_parts(self@, bucket@, key@, upload_id@, max_parts, marker),
    {
        let list = table_read(
            &self.buckets,
            bucket,
            |b: &Bucket| -> (r: Result<PartsList, S3Error>)
                ensures
                    match r {
                        Ok(list) => upload_in(*b, key@, upload_id@) && list@ == part_page(
                            numbers_after(b@.uploads[upload_id@].parts, marker),
                            b@.uploads[upload_id@].parts,
                            max_parts,
                        ),
                        Err(e) => e == S3Error::NoSuchUpload && !upload_in(
                            *b,
                            key@,
                            upload_id@,
                        ),
                    },
                { list_from(b, key, upload_id, max_parts, marker) }
        );
        match list {
            None => Err(S3Error::NoSuchBucket),
            Some(r) => r,
        }
    }
}

impl Storage for DefaultStorage {
    open spec fn may(pre: Self, call: Call, post: Self, reply: Reply) -> bool {
        exists|now: Timestamp, id: Seq<char>|
            (call is CreateMultipartUpload ==> is_uuid(id)) && #[trigger] step(pre@, call, now, id)
                == (post@, reply)
    }

    open spec fn listable(
        &self,
        bucket: Seq<char>,
        prefix: Seq<char>,
        delimiter: Seq<char>,
        skip: Seq<char>,
    ) -> bool {
        self@.buckets.contains_key(bucket) ==> delimiter_cuts(
            selected(self@.buckets[bucket].objects.dom(), prefix, skip),
            prefix,
            delimiter,
        )
    }

    fn create_bucket(&mut self, name: &str) -> (r: Result<Bucket, S3Error>) {
        let now = Timestamp::now();
        let ghost pre = *self;
        let r = self.create_bucket_at(name, now);
        proof {
            lemma_may(pre, Call::CreateBucket { name: name@ }, *self, now, Seq::empty());
        }
        r
    }

    fn delete_bucket(&mut self, name: &str) -> (r: Result<(), S3Error>)
        ensures
            (final(self)@, r) == delete_bucket(old(self)@, name@),
    {
        let ghost pre = *self;
        let r = self.do_delete_bucket(name);
        proof {
            lemma_may(pre, Call::DeleteBucket { name: name@ }, *self, arbitrary(), Seq::empty());
        }
        r
    }

    fn list_buckets(&self) -> (r: Result<Vec<BucketInfo>, S3Error>)
        ensures
            bucket_lines(r) == Ok::<_, S3Error>(list_buckets(self@)),
    {
        let infos = self.do_list_buckets();
        proof {
            lemma_may(*self, Call::ListBuckets, *self, arbitrary(), Seq::empty());
        }
        Ok(infos)
    }

    fn get_bucket_location(&self, name: &str) -> (r: Result<String, S3Error>)
        ensures
            outcome(r) == Ok::<_, S3Error>(bucket_location()),
    {
        proof {
            lemma_may(
                *self,
                Call::GetBucketLocation { name: name@ },
                *self,
                arbitrary(),
                Seq::empty(),
            );
        }
        Ok("us-east-1".to_string())
    }

    fn put_object(&mut self, bucket: &str, key: &str, object: S3Object) -> (r: Result<(), S3Error>)
        ensures
            (final(self)@, r) == put_object(old(self)@, bucket@, key@, object@),
    {
        let ghost pre = *self;
        let r = self.do_put_object(bucket, key, object);
        proof {
            lemma_may(
                pre,
                Call::PutObject { bucket: bucket@, key: key@, object: object@ },
                *self,
                arbitrary(),
                Seq::empty(),
            );
        }
        r
    }

    fn get_object(&self, bucket: &str, key: &str) -> (r: Result<GetObjectResult, S3Error>)
        ensures
            outcome(r) == get_object(self@, bucket@, key@),
    {
        let r = self.do_get_object(bucket, key);
        proof {
            lemma_may(
                *self,
                Call::GetObject { bucket: bucket@, key: key@ },
                *self,
                arbitrary(),
                Seq::empty(),
            );
        }
        r
    }

    fn head_object(&self, bucket: &str, key: &str) -> (r: Result<GetObjectResult, S3Error>)
        ensures
            outcome(r) == get_object(self@, bucket@, key@),
    {
        let r = self.do_get_object(bucket, key);
        proof {
            lemma_may(
                *self,
                Call::HeadObject { bucket: bucket@, key: key@ },
                *self,
                arbitrary(),
                Seq::empty(),
            );
        }
        r
    }

    fn delete_object(&mut self, bucket: &str, key: &str) -> (r: Result<(), S3Error>)
        ensures
            (final(self)@, r) == delete_object(old(self)@, bucket@, key@),
    {
        let ghost pre = *self;
        let r = self.do_delete_object(bucket, key);
        proof {
            lemma_may(
                pre,
                Call::DeleteObject { bucket: bucket@, key: key@ },
                *self,
                arbitrary(),
                Seq::empty(),
            );
        }
        r
    }

    fn copy_object(
        &mut self,
        src_bucket: &str,
        src_key: &str,
        dst_bucket: &str,
        dst_key: &str,
        metadata: &StringMap,
    ) -> (r: Result<S3Object, S3Error>) {
        let now = Timestamp::now();
        let ghost pre = *self;
        let r = self.copy_object_at(src_bucket, src_key, dst_bucket, dst_key, metadata, now);
        proof {
            lemma_may(
                pre,
                Call::CopyObject {
                    src_bucket: src_bucket@,
                    src_key: src_key@,
                    dst_bucket: dst_bucket@,
                    dst_key: dst_key@,
                    metadata: metadata@,
                },
                *self,
                now,
                Seq::empty(),
            );
        }
        r
    }

    fn can_list(&self, bucket: &str, prefix: &str, delimiter: &str, skip: &str) -> (b: bool) {
        let found = table_read(
            &self.buckets,
            bucket,
            |b: &Bucket| -> (r: bool)
                ensures
                    r == delimiter_cuts(
                        selected(b@.objects.dom(), prefix@, skip@),
                        prefix@,
                        delimiter@,
                    ),
                { bucket_listable(b, prefix, delimiter, skip) }
        );
        match found {
            Some(r) => r,
            None => true,
        }
    }

    fn list_objects_v2(
        &self,
        bucket: &str,
        prefix: &str,
        delimiter: &str,
        start_after: &str,
        max_keys: u32,
        continuation_token: &str,
    ) -> (r: Result<ObjectList, S3Error>)
        ensures
            outcome(r) == list_objects_v2(
                self@,
                bucket@,
                prefix@,
                delimiter@,
                start_after@,
                max_keys,
                continuation_token@,
            ),
    {
        proof {
            lemma_may(
                *self,
                Call::ListObjectsV2 {
                    bucket: bucket@,
                    prefix: prefix@,
                    delimiter: delimiter@,
                    start_after: start_after@,
                    max_keys,
                    token: continuation_token@,
                },
                *self,
                arbitrary(),
                Seq::empty(),
            );
        }
        let skip: &str = if !continuation_token.is_empty() {
            continuation_token
        } else {
            start_after
        };
        let ghost held = self@;
        let list = table_read(
            &self.buckets,
            bucket,
            |b: &Bucket| -> (r: Option<ObjectList>)
                ensures
                    delimiter_cuts(
                        selected(b@.objects.dom(), prefix@, skip@),
                        prefix@,
                        delimiter@,
                    ) ==> r is Some && r->0@ == object_page(
                        listing(b@.objects.dom(), prefix@, delimiter@, skip@),
                        max_keys,
                        b@.objects,
                    ),
                {
                    if bucket_listable(b, prefix, delimiter, skip) {
                        Some(list_bucket(b, prefix, delimiter, skip, max_keys))
                    } else {
                        None
                    }
                }
        );
        match list {
            Some(Some(page)) => Ok(page),
            _ => Err(S3Error::NoSuchBucket),
        }
    }

    fn create_multipart_upload(&mut self, bucket: &str, key: &str) -> (r: Result<
        String,
        S3Error,
    >) {
        let now = Timestamp::now();
        let id = random_uuid();
        let ghost pre = *self;
        let ghost id_text = id@;
        let r = self.create_multipart_upload_at(bucket, key, id, now);
        proof {
            lemma_may(
                pre,
                Call::CreateMultipartUpload { bucket: bucket@, key: key@ },
                *self,
                now,
                id_text,
            );
        }
        r
    }

    fn upload_part(
        &mut self,
        bucket: &str,
        key: &str,
        upload_id: &str,
        part_number: u32,
        data: Bytes,
    ) -> (r: Result<String, S3Error>) {
        let now = Timestamp::now();
        let ghost pre = *self;
        let ghost bytes = bytes_of(data);
        let r = self.upload_part_at(bucket, key, upload_id, part_number, data, now);
        proof {
            lemma_may(
                pre,
                Call::UploadPart {
                    bucket: bucket@,
                    key: key@,
                    upload_id: upload_id@,
                    part_number,
                    data: bytes,
                },
                *self,
                now,
                Seq::empty(),
            );
        }
        r
    }

    fn complete_multipart_upload(
        &mut self,
        bucket: &str,
        key: &str,
        upload_id: &str,
        parts: &[Part],
    ) -> (r: Result<String, S3Error>) {
        let now = Timestamp::now();
        let ghost pre = *self;
        let r = self.complete_multipart_upload_at(bucket, key, upload_id, parts, now);
        proof {
            lemma_may(
                pre,
                Call::CompleteMultipartUpload {
                    bucket: bucket@,
                    key: key@,
                    upload_id: upload_id@,
                    parts: part_names(parts@),
                },
                *self,
                now,
                Seq::empty(),
            );
        }
        r
    }

    fn abort_multipart_upload(&mut self, bucket: &str, key: &str, upload_id: &str) -> (r: Result<
        (),
        S3Error,
    >)
        ensures
            (final(self)@, r) == abort_multipart_upload(
                old(self)@,
                bucket@,
                key@,
                upload_id@,
            ),
    {
        let ghost pre = *self;
        let r = self.do_abort_multipart_upload(bucket, key, upload_id);
        proof {
            lemma_may(
                pre,
                Call::AbortMultipartUpload {
                    bucket: bucket@,
                    key: key@,
                    upload_id: upload_id@,
                },
                *self,
                arbitrary(),
                Seq::empty(),
            );
        }
        r
    }

    fn list_parts(
        &self,
        bucket: &str,
        key: &str,
        upload_id: &str,
        max_parts: u32,
        part_number_marker: u32,
    ) -> (r: Result<PartsList, S3Error>)
        ensures
            outcome(r) == list_parts(
                self@,
                bucket@,
                key@,
                upload_id@,
                max_parts,
                part_number_marker,
            ),
    {
        let r = self.do_list_parts(bucket, key, upload_id, max_parts, part_number_marker);
        proof {
            lemma_may(
                *self,
                Call::ListParts {
                    bucket: bucket@,
                    key: key@,
                    upload_id: upload_id@,
                    max_parts,
                    marker: part_number_marker,
                },
                *self,
                arbitrary(),
                Seq::empty(),
            );
        }
        r
    }
}

impl Default for DefaultStorage {
    fn default() -> (s: DefaultStorage)
        ensures
            s@ == empty_state(),
    {
        DefaultStorage::new()
    }
}

/// What the backend does at some time and with some identifier, it may do.
proof fn lemma_may(
    pre: DefaultStorage,
    call: Call,
    post: DefaultStorage,
    now: Timestamp,
    id: Seq<char>,
)
    requires
        post@ == step(pre@, call, now, id).0,
        call is CreateMultipartUpload ==> is_uuid(id),
    ensures
        DefaultStorage::may(pre, call, post, step(pre@, call, now, id).1),
{
    assert(step(pre@, call, now, id) == (post@, step(pre@, call, now, id).1));
}

} // verus!
