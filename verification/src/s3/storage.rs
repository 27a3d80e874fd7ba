//! The storage backend: what it keeps, and the calls that every backend offers.

use crate::blob::bytes_of;
use crate::clock::Timestamp;
use crate::protocol::types::{
    BucketInfo, BucketLine, CommonPrefixes, ObjectInfo, ObjectState, Part, PartInfo, PartName,
    S3Object,
};
use crate::s3::model::{
    resume_point, BucketState, Call, ObjectPage, PartPage, PartState, Reply, S3Error, UploadState,
};
use crate::string_map::StringMap;
use crate::table::Stored;
use bytes::Bytes;
use dashmap::DashMap;
use std::collections::BTreeMap;
use vstd::prelude::*;

verus! {

/// One uploaded part.
#[derive(Debug)]
pub struct PartData {
    pub part_number: u32,
    pub data: Bytes,
    pub etag: String,
    pub last_modified: Timestamp,
    pub size: u64,
}

impl View for PartData {
    type V = PartState;

    open spec fn view(&self) -> PartState {
        PartState {
            part_number: self.part_number,
            data: bytes_of(self.data),
            etag: self.etag@,
            last_modified: self.last_modified,
            size: self.size,
        }
    }
}

/// A multipart upload in progress.
#[derive(Debug)]
pub struct MultipartUpload {
    pub upload_id: String,
    pub key: String,
    pub initiated: Timestamp,
    pub parts: BTreeMap<u32, PartData>,
}

impl View for MultipartUpload {
    type V = UploadState;

    open spec fn view(&self) -> UploadState {
        UploadState {
            upload_id: self.upload_id@,
            key: self.key@,
            initiated: self.initiated,
            parts: self.parts@.map_values(|p: PartData| p@),
        }
    }
}

/// A bucket with its objects and multipart uploads.
#[derive(Debug)]
pub struct Bucket {
    pub name: String,
    pub creation_date: Timestamp,
    pub objects: DashMap<String, S3Object>,
    pub multipart_uploads: DashMap<String, MultipartUpload>,
}

/// The objects that a table holds.
pub uninterp spec fn objects_of(m: DashMap<String, S3Object>) -> Map<Seq<char>, S3Object>;

/// The uploads that a table holds.
pub uninterp spec fn uploads_of(m: DashMap<String, MultipartUpload>) -> Map<
    Seq<char>,
    MultipartUpload,
>;

/// The buckets that a table holds.
pub uninterp spec fn buckets_of(m: DashMap<String, Bucket>) -> Map<Seq<char>, Bucket>;

impl Stored for S3Object {
    open spec fn table(m: DashMap<String, S3Object>) -> Map<Seq<char>, S3Object> {
        objects_of(m)
    }
}

impl Stored for MultipartUpload {
    open spec fn table(m: DashMap<String, MultipartUpload>) -> Map<Seq<char>, MultipartUpload> {
        uploads_of(m)
    }
}

impl Stored for Bucket {
    open spec fn table(m: DashMap<String, Bucket>) -> Map<Seq<char>, Bucket> {
        buckets_of(m)
    }
}

/// `DashMap::new` makes a table that holds nothing.
#[verifier::external_body]
pub(crate) fn new_objects() -> (m: DashMap<String, S3Object>)
    ensures
        objects_of(m) == (Map::<Seq<char>, S3Object>::empty()),
{
    DashMap::new()
}

/// `DashMap::new` makes a table that holds nothing.
#[verifier::external_body]
pub(crate) fn new_uploads() -> (m: DashMap<String, MultipartUpload>)
    ensures
        uploads_of(m) == (Map::<Seq<char>, MultipartUpload>::empty()),
{
    DashMap::new()
}

/// `DashMap::new` makes a table that holds nothing.
#[verifier::external_body]
pub(crate) fn new_buckets() -> (m: DashMap<String, Bucket>)
    ensures
        buckets_of(m) == (Map::<Seq<char>, Bucket>::empty()),
{
    DashMap::new()
}

impl View for Bucket {
    type V = BucketState;

    open spec fn view(&self) -> BucketState {
        BucketState {
            name: self.name@,
            creation_date: self.creation_date,
            objects: objects_of(self.objects).map_values(|o: S3Object| o@),
            uploads: uploads_of(self.multipart_uploads).map_values(|u: MultipartUpload| u@),
        }
    }
}

/// A page of a list of objects.
#[derive(Debug)]
pub struct ObjectList {
    pub is_truncated: bool,
    pub next_continuation_token: String,
    pub contents: Vec<ObjectInfo>,
    pub common_prefixes: Vec<CommonPrefixes>,
    pub key_count: u32,
}

impl View for ObjectList {
    type V = ObjectPage;

    open spec fn view(&self) -> ObjectPage {
        ObjectPage {
            is_truncated: self.is_truncated,
            next_continuation_token: self.next_continuation_token@,
            contents: self.contents@.map_values(|o: ObjectInfo| o@),
            common_prefixes: self.common_prefixes@.map_values(|p: CommonPrefixes| p@),
            key_count: self.key_count as int,
        }
    }
}

/// An object that was read.
#[derive(Debug)]
pub struct GetObjectResult {
    pub object: S3Object,
}

impl View for GetObjectResult {
    type V = ObjectState;

    open spec fn view(&self) -> ObjectState {
        self.object@
    }
}

/// A page of a list of parts.
#[derive(Debug)]
pub struct PartsList {
    pub parts: Vec<PartInfo>,
    pub is_truncated: bool,
    pub next_part_number_marker: String,
}

impl View for PartsList {
    type V = PartPage;

    open spec fn view(&self) -> PartPage {
        PartPage {
            parts: self.parts@.map_values(|p: PartInfo| p@),
            is_truncated: self.is_truncated,
            next_part_number_marker: self.next_part_number_marker@,
        }
    }
}

/// What the result of a storage call denotes.
pub open spec fn outcome<T: View>(r: Result<T, S3Error>) -> Result<T::V, S3Error> {
    match r {
        Ok(v) => Ok(v@),
        Err(e) => Err(e),
    }
}

/// A storage backend.
///
/// What a backend may do on a call is a relation between what it was, the call, what it is
/// then, and the reply. A backend says which relation that is.
pub trait Storage: Sized {
    /// Whether the backend, when it is `pre`, may answer the call with the reply and be `post`.
    spec fn may(pre: Self, call: Call, post: Self, reply: Reply) -> bool;

    /// Whether the backend can cut the keys that a listing selects at the delimiter.
    spec fn listable(
        &self,
        bucket: Seq<char>,
        prefix: Seq<char>,
        delimiter: Seq<char>,
        skip: Seq<char>,
    ) -> bool;

    /// Creates a bucket, and gives it back as it was made.
    fn create_bucket(&mut self, name: &str) -> (r: Result<Bucket, S3Error>)
        ensures
            Self::may(
                *old(self),
                Call::CreateBucket { name: name@ },
                *final(self),
                Reply::Bucket(outcome(r)),
            ),
    ;

    /// Deletes a bucket that holds nothing.
    fn delete_bucket(&mut self, name: &str) -> (r: Result<(), S3Error>)
        ensures
            Self::may(
                *old(self),
                Call::DeleteBucket { name: name@ },
                *final(self),
                Reply::Done(r),
            ),
    ;

    /// Lists all buckets.
    fn list_buckets(&self) -> (r: Result<Vec<BucketInfo>, S3Error>)
        ensures
            Self::may(
                *self,
                Call::ListBuckets,
                *self,
                Reply::Buckets(bucket_lines(r)),
            ),
    ;

    /// Tells the region that a bucket is in.
    fn get_bucket_location(&self, name: &str) -> (r: Result<String, S3Error>)
        ensures
            Self::may(
                *self,
                Call::GetBucketLocation { name: name@ },
                *self,
                Reply::Text(outcome(r)),
            ),
    ;

    /// Stores an object.
    fn put_object(&mut self, bucket: &str, key: &str, object: S3Object) -> (r: Result<(), S3Error>)
        ensures
            Self::may(
                *old(self),
                Call::PutObject { bucket: bucket@, key: key@, object: object@ },
                *final(self),
                Reply::Done(r),
            ),
    ;

    /// Reads an object.
    fn get_object(&self, bucket: &str, key: &str) -> (r: Result<GetObjectResult, S3Error>)
        ensures
            Self::may(
                *self,
                Call::GetObject { bucket: bucket@, key: key@ },
                *self,
                Reply::Object(outcome(r)),
            ),
    ;

    /// Reads an object for what is known of it.
    fn head_object(&self, bucket: &str, key: &str) -> (r: Result<GetObjectResult, S3Error>)
        ensures
            Self::may(
                *self,
                Call::HeadObject { bucket: bucket@, key: key@ },
                *self,
                Reply::Object(outcome(r)),
            ),
    ;

    /// Deletes an object.
    fn delete_object(&mut self, bucket: &str, key: &str) -> (r: Result<(), S3Error>)
        ensures
            Self::may(
                *old(self),
                Call::DeleteObject { bucket: bucket@, key: key@ },
                *final(self),
                Reply::Done(r),
            ),
    ;

    /// Copies an object, with new metadata where some is given, and gives the copy back.
    fn copy_object(
        &mut self,
        src_bucket: &str,
        src_key: &str,
        dst_bucket: &str,
        dst_key: &str,
        metadata: &StringMap,
    ) -> (r: Result<S3Object, S3Error>)
        ensures
            Self::may(
                *old(self),
                Call::CopyObject {
                    src_bucket: src_bucket@,
                    src_key: src_key@,
                    dst_bucket: dst_bucket@,
                    dst_key: dst_key@,
                    metadata: metadata@,
                },
                *final(self),
                Reply::Object(outcome(r)),
            ),
    ;

    /// Tells whether the backend can cut the keys that a listing selects at the delimiter.
    fn can_list(&self, bucket: &str, prefix: &str, delimiter: &str, skip: &str) -> (b: bool)
        ensures
            b == self.listable(bucket@, prefix@, delimiter@, skip@),
    ;

    /// Lists objects by prefix and delimiter, a page of them.
    fn list_objects_v2(
        &self,
        bucket: &str,
        prefix: &str,
        delimiter: &str,
        start_after: &str,
        max_keys: u32,
        continuation_token: &str,
    ) -> (r: Result<ObjectList, S3Error>)
        requires
            self.listable(
                bucket@,
                prefix@,
                delimiter@,
                resume_point(start_after@, continuation_token@),
            ),
        ensures
            Self::may(
                *self,
                Call::ListObjectsV2 {
                    bucket: bucket@,
                    prefix: prefix@,
                    delimiter: delimiter@,
                    start_after: start_after@,
                    max_keys,
                    token: continuation_token@,
                },
                *self,
                Reply::Objects(outcome(r)),
            ),
    ;

    /// Begins a multipart upload, and gives its identifier back.
    fn create_multipart_upload(&mut self, bucket: &str, key: &str) -> (r: Result<String, S3Error>)
        ensures
            Self::may(
                *old(self),
                Call::CreateMultipartUpload { bucket: bucket@, key: key@ },
                *final(self),
                Reply::Text(outcome(r)),
            ),
    ;

    /// Uploads a part, and gives its entity tag back.
    fn upload_part(
        &mut self,
        bucket: &str,
        key: &str,
        upload_id: &str,
        part_number: u32,
        data: Bytes,
    ) -> (r: Result<String, S3Error>)
        ensures
            Self::may(
                *old(self),
                Call::UploadPart {
                    bucket: bucket@,
                    key: key@,
                    upload_id: upload_id@,
                    part_number,
                    data: bytes_of(data),
                },
                *final(self),
                Reply::Text(outcome(r)),
            ),
    ;

    /// Completes a multipart upload, and gives the entity tag of the object back.
    fn complete_multipart_upload(
        &mut self,
        bucket: &str,
        key: &str,
        upload_id: &str,
        parts: &[Part],
    ) -> (r: Result<String, S3Error>)
        ensures
            Self::may(
                *old(self),
                Call::CompleteMultipartUpload {
                    bucket: bucket@,
                    key: key@,
                    upload_id: upload_id@,
                    parts: part_names(parts@),
                },
                *final(self),
                Reply::Text(outcome(r)),
            ),
    ;

    /// Aborts a multipart upload.
    fn abort_multipart_upload(&mut self, bucket: &str, key: &str, upload_id: &str) -> (r: Result<
        (),
        S3Error,
    >)
        ensures
            Self::may(
                *old(self),
                Call::AbortMultipartUpload {
                    bucket: bucket@,
                    key: key@,
                    upload_id: upload_id@,
                },
                *final(self),
                Reply::Done(r),
            ),
    ;

    /// Lists the parts of an upload, a page of them.
    fn list_parts(
        &self,
        bucket: &str,
        key: &str,
        upload_id: &str,
        max_parts: u32,
        part_number_marker: u32,
    ) -> (r: Result<PartsList, S3Error>)
        ensures
            Self::may(
                *self,
                Call::ListParts {
                    bucket: bucket@,
                    key: key@,
                    upload_id: upload_id@,
                    max_parts,
                    marker: part_number_marker,
                },
                *self,
                Reply::Parts(outcome(r)),
            ),
    ;
}

/// What a list of buckets denotes.
pub open spec fn bucket_lines(r: Result<Vec<BucketInfo>, S3Error>) -> Result<
    Seq<BucketLine>,
    S3Error,
> {
    match r {
        Ok(v) => Ok(v@.map_values(|b: BucketInfo| b@)),
        Err(e) => Err(e),
    }
}

/// What a list of parts denotes.
pub open spec fn part_names(parts: Seq<Part>) -> Seq<PartName> {
    parts.map_values(|p: Part| p@)
}

} // verus!
