//! Data shared by all layers: stored objects, and the documents of the API.

use crate::blob::bytes_of;
use crate::clock::Timestamp;
use crate::protocol::error::{
    part_number_message, part_number_text, plain_error, AwsError, AwsErrorKind, Fault,
};
use crate::protocol::markup::{expand_empty_tags, expanded};
use crate::string_map::{Entries, StringMap};
use crate::text::optional_text;
use bytes::Bytes;
use vstd::prelude::*;

verus! {

/// The storage classes that an object can have.
#[allow(non_camel_case_types)]
#[derive(Debug, Clone, Copy, PartialEq, Eq, Structural)]
pub enum StorageClass {
    STANDARD,
    STANDARD_IA,
    ONEZONE_IA,
    INTELLIGENT_TIERING,
    GLACIER,
    DEEP_ARCHIVE,
    GLACIER_IR,
}

/// The owner of a bucket or object.
#[derive(Debug, Clone)]
pub struct Owner {
    pub id: String,
    pub display_name: String,
}

/// A stored object.
#[derive(Debug)]
pub struct S3Object {
    pub data: Bytes,
    /// Hexadecimal MD5 in quotes.
    pub etag: String,
    pub content_type: String,
    pub last_modified: Timestamp,
    /// The `x-amz-meta-*` headers that came with the object.
    pub metadata: StringMap,
}

/// What a stored object denotes.
pub struct ObjectState {
    pub data: Seq<u8>,
    pub etag: Seq<char>,
    pub content_type: Seq<char>,
    pub last_modified: Timestamp,
    pub metadata: Entries,
}

impl View for S3Object {
    type V = ObjectState;

    open spec fn view(&self) -> ObjectState {
        ObjectState {
            data: bytes_of(self.data),
            etag: self.etag@,
            content_type: self.content_type@,
            last_modified: self.last_modified,
            metadata: self.metadata@,
        }
    }
}

impl S3Object {
    /// The content type of objects for which none was given.
    pub const DEFAULT_CONTENT_TYPE: &'static str = "binary/octet-stream";

    /// The number of bytes of the object: always that of its data.
    pub fn content_length(&self) -> (n: usize)
        ensures
            n == self@.data.len(),
    {
        self.data.len()
    }
}

impl Clone for S3Object {
    fn clone(&self) -> (r: S3Object)
        ensures
            r@ == self@,
    {
        S3Object {
            data: self.data.clone(),
            etag: self.etag.clone(),
            content_type: self.content_type.clone(),
            last_modified: self.last_modified,
            metadata: self.metadata.clone(),
        }
    }
}

/// A bucket in a list of buckets.
#[derive(Debug, Clone)]
pub struct BucketInfo {
    pub name: String,
    pub creation_date: Timestamp,
}

/// What a `BucketInfo` denotes.
pub struct BucketLine {
    pub name: Seq<char>,
    pub creation_date: Timestamp,
}

impl View for BucketInfo {
    type V = BucketLine;

    open spec fn view(&self) -> BucketLine {
        BucketLine { name: self.name@, creation_date: self.creation_date }
    }
}

/// An object in a list of objects.
#[derive(Debug, Clone)]
pub struct ObjectInfo {
    pub key: String,
    pub last_modified: Timestamp,
    pub etag: String,
    pub size: u64,
    pub storage_class: StorageClass,
    pub owner: Option<Owner>,
}

/// What an `ObjectInfo` denotes.
pub struct ObjectLine {
    pub key: Seq<char>,
    pub last_modified: Timestamp,
    pub etag: Seq<char>,
    pub size: int,
    pub storage_class: StorageClass,
    pub owner: Option<OwnerState>,
}

/// What an `Owner` denotes.
pub struct OwnerState {
    pub id: Seq<char>,
    pub display_name: Seq<char>,
}

impl View for Owner {
    type V = OwnerState;

    open spec fn view(&self) -> OwnerState {
        OwnerState { id: self.id@, display_name: self.display_name@ }
    }
}

impl View for ObjectInfo {
    type V = ObjectLine;

    open spec fn view(&self) -> ObjectLine {
        ObjectLine {
            key: self.key@,
            last_modified: self.last_modified,
            etag: self.etag@,
            size: self.size as int,
            storage_class: self.storage_class,
            owner: match self.owner {
                Some(owner) => Some(owner@),
                None => None,
            },
        }
    }
}

/// A common prefix in a list of objects.
#[derive(Debug, Clone)]
pub struct CommonPrefixes {
    pub prefix: String,
}

impl View for CommonPrefixes {
    type V = Seq<char>;

    open spec fn view(&self) -> Seq<char> {
        self.prefix@
    }
}

/// A part that a client names to complete a multipart upload.
#[derive(Debug, Clone)]
pub struct Part {
    pub part_number: u32,
    pub etag: String,
}

/// What a `Part` denotes.
pub struct PartName {
    pub part_number: u32,
    pub etag: Seq<char>,
}

impl View for Part {
    type V = PartName;

    open spec fn view(&self) -> PartName {
        PartName { part_number: self.part_number, etag: self.etag@ }
    }
}

/// A part in a list of the parts of an upload.
#[derive(Debug, Clone)]
pub struct PartInfo {
    pub part_number: u32,
    pub last_modified: Timestamp,
    pub etag: String,
    pub size: u64,
}

/// What a `PartInfo` denotes.
pub struct PartLine {
    pub part_number: u32,
    pub last_modified: Timestamp,
    pub etag: Seq<char>,
    pub size: u64,
}

impl View for PartInfo {
    type V = PartLine;

    open spec fn view(&self) -> PartLine {
        PartLine {
            part_number: self.part_number,
            last_modified: self.last_modified,
            etag: self.etag@,
            size: self.size,
        }
    }
}

/// The buckets of a list of buckets.
#[derive(Debug, Clone)]
pub struct Buckets {
    pub bucket: Vec<BucketInfo>,
}

/// The answer to a request for all buckets.
#[derive(Debug, Clone)]
pub struct ListAllMyBucketsResult {
    pub owner: Owner,
    pub buckets: Buckets,
}

/// The answer to a request that creates a bucket.
#[derive(Debug, Clone)]
pub struct CreateBucketOutput {
    pub location: String,
}

/// The answer to a request for a list of objects.
#[derive(Debug, Clone)]
pub struct ListBucketResult {
    pub name: String,
    pub continuation_token: String,
    pub start_after: String,
    pub delimiter: String,
    pub encoding_type: Option<String>,
    pub prefix: String,
    pub max_keys: u32,
    pub key_count: u32,
    pub is_truncated: bool,
    pub next_continuation_token: String,
    pub contents: Vec<ObjectInfo>,
    pub common_prefixes: Vec<CommonPrefixes>,
}

/// A request to delete several objects.
#[derive(Debug, Clone)]
pub struct DeleteRequest {
    pub quiet: bool,
    pub objects: Vec<DeleteObject>,
}

/// An object that a client wants deleted.
#[derive(Debug, Clone)]
pub struct DeleteObject {
    pub key: String,
    pub version_id: Option<String>,
}

/// The answer to a request that deletes several objects.
#[derive(Debug, Clone)]
pub struct DeleteResult {
    pub deleted: Vec<DeletedObject>,
    pub errors: Vec<DeleteError>,
}

/// An object that was deleted.
#[derive(Debug, Clone)]
pub struct DeletedObject {
    pub key: String,
    pub version_id: Option<String>,
    pub delete_marker: Option<bool>,
    pub delete_marker_version_id: Option<String>,
}

/// An object that could not be deleted.
#[derive(Debug, Clone)]
pub struct DeleteError {
    pub key: String,
    pub code: String,
    pub message: String,
    pub version_id: Option<String>,
}

/// The answer to a request that copies an object.
#[derive(Debug, Clone)]
pub struct CopyObjectResult {
    pub etag: String,
    pub last_modified: Timestamp,
}

/// The answer to a request that begins a multipart upload.
#[derive(Debug, Clone)]
pub struct InitiateMultipartUploadResult {
    pub bucket: String,
    pub key: String,
    pub upload_id: String,
}

/// A request to complete a multipart upload.
#[derive(Debug, Clone)]
pub struct CompleteMultipartUploadRequest {
    pub parts: Vec<Part>,
}

/// The answer to a request that completes a multipart upload.
#[derive(Debug, Clone)]
pub struct CompleteMultipartUploadResult {
    pub location: String,
    pub bucket: String,
    pub key: String,
    pub etag: String,
}

/// The answer to a request for a list of parts.
#[derive(Debug, Clone)]
pub struct ListPartsResult {
    pub bucket: String,
    pub key: String,
    pub upload_id: String,
    pub initiator: Owner,
    pub owner: Owner,
    pub max_parts: u32,
    pub next_part_number_marker: String,
    pub part_number_marker: String,
    pub storage_class: StorageClass,
    pub parts: Vec<PartInfo>,
    pub is_truncated: bool,
}

/// The region that a bucket is in.
#[derive(Debug, Clone)]
pub struct LocationConstraint {
    pub location: String,
}

/// What a `DeleteObject` denotes.
pub struct DeleteTarget {
    pub key: Seq<char>,
    pub version_id: Option<Seq<char>>,
}

impl View for DeleteObject {
    type V = DeleteTarget;

    open spec fn view(&self) -> DeleteTarget {
        DeleteTarget { key: self.key@, version_id: optional_text(self.version_id) }
    }
}

/// What a `DeletedObject` denotes.
pub struct DeletedLine {
    pub key: Seq<char>,
    pub version_id: Option<Seq<char>>,
    pub delete_marker: Option<bool>,
    pub delete_marker_version_id: Option<Seq<char>>,
}

impl View for DeletedObject {
    type V = DeletedLine;

    open spec fn view(&self) -> DeletedLine {
        DeletedLine {
            key: self.key@,
            version_id: optional_text(self.version_id),
            delete_marker: self.delete_marker,
            delete_marker_version_id: optional_text(self.delete_marker_version_id),
        }
    }
}

/// What a `DeleteError` denotes.
pub struct DeleteErrorLine {
    pub key: Seq<char>,
    pub code: Seq<char>,
    pub message: Seq<char>,
    pub version_id: Option<Seq<char>>,
}

impl View for DeleteError {
    type V = DeleteErrorLine;

    open spec fn view(&self) -> DeleteErrorLine {
        DeleteErrorLine {
            key: self.key@,
            code: self.code@,
            message: self.message@,
            version_id: optional_text(self.version_id),
        }
    }
}

/// Whether a part number is in range.
pub open spec fn valid_part_number(n: u32) -> bool {
    1 <= n <= 10000
}

/// Checks a part number that was read; the error is the message for a client.
pub fn deserialize_part_number(value: u32) -> (r: Result<u32, String>)
    ensures
        match r {
            Ok(n) => valid_part_number(value) && n == value,
            Err(message) => !valid_part_number(value) && message@ == part_number_message(value),
        },
{
    if value < 1 || value > 10000 {
        Err(part_number_text(value))
    } else {
        Ok(value)
    }
}

/// XML text as it is sent: what a serializer wrote, with self-closing tags expanded. The
/// error of the serializer becomes the error of the service.
pub fn to_xml_string(body: Result<String, String>) -> (r: Result<String, AwsError>)
    ensures
        match (body, r) {
            (Ok(xml), Ok(text)) => text@ == expanded(xml@),
            (Err(details), Err(e)) => e@ == plain_error(
                Fault::XmlSerializationError { details: details@ },
            ),
            _ => false,
        },
{
    match body {
        Ok(xml) => Ok(expand_empty_tags(xml.as_str())),
        Err(details) => Err(AwsError::new(AwsErrorKind::XmlSerializationError { details })),
    }
}

} // verus!
