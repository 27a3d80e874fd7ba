//! What clients are answered, given what the storage backend replied.

use crate::blob::{bytes_from, bytes_of};
use crate::clock::{format_http_date, formatted, Timestamp, HTTP_DATE_PATTERN};
use crate::message::{push_header, response_headers, text_bytes, Response, ResponseState};
use crate::numbers::{decimal, decimal_text};
use crate::protocol::error::{plain_error, AwsError, AwsErrorKind, ErrorState, Fault};
use crate::protocol::markup::expanded;
use crate::protocol::types::{
    BucketInfo, BucketLine, Buckets, CopyObjectResult, CreateBucketOutput, DeleteError,
    DeleteErrorLine, DeleteObject, DeleteResult, DeleteTarget, DeletedLine, DeletedObject,
    ListAllMyBucketsResult, LocationConstraint, ObjectState, Owner, OwnerState, S3Object,
};
use crate::protocol::xml::{can_send, namespaced, sendable, serialize};
use crate::s3::model::S3Error;
use crate::s3::storage::{bucket_lines, outcome, GetObjectResult};
use crate::text::copy_text;
use vstd::prelude::*;
use vstd::string::*;
use vstd::utf8::encode_utf8;

verus! {

/// The value of the header field `x-amz-id-2`: an opaque token.
pub const S3_ID_2: &'static str = "4v8y2k5j9h3q1w7e6r0t4v8y2k5j9h3q1w7e6r0t";

/// A document that a response carries.
#[derive(Debug)]
pub enum Document {
    Buckets(ListAllMyBucketsResult),
    Created(CreateBucketOutput),
    Location(LocationConstraint),
    Deleted(DeleteResult),
    Copied(CopyObjectResult),
}

/// What a `Document` denotes.
pub enum DocumentState {
    Buckets { owner: OwnerState, buckets: Seq<BucketLine> },
    Created { location: Seq<char> },
    Location { location: Seq<char> },
    Deleted { deleted: Seq<DeletedLine>, errors: Seq<DeleteErrorLine> },
    Copied { etag: Seq<char>, last_modified: Timestamp },
}

impl View for Document {
    type V = DocumentState;

    open spec fn view(&self) -> DocumentState {
        match *self {
            Document::Buckets(d) => DocumentState::Buckets {
                owner: d.owner@,
                buckets: d.buckets.bucket@.map_values(|b: BucketInfo| b@),
            },
            Document::Created(d) => DocumentState::Created { location: d.location@ },
            Document::Location(d) => DocumentState::Location { location: d.location@ },
            Document::Deleted(d) => DocumentState::Deleted {
                deleted: d.deleted@.map_values(|o: DeletedObject| o@),
                errors: d.errors@.map_values(|e: DeleteError| e@),
            },
            Document::Copied(d) => DocumentState::Copied {
                etag: d.etag@,
                last_modified: d.last_modified,
            },
        }
    }
}

/// The name of the root element of a document.
pub open spec fn root_of(d: DocumentState) -> Seq<char> {
    match d {
        DocumentState::Buckets { .. } => "ListAllMyBucketsResult"@,
        DocumentState::Created { .. } => "CreateBucketOutput"@,
        DocumentState::Location { .. } => "LocationConstraint"@,
        DocumentState::Deleted { .. } => "DeleteResult"@,
        DocumentState::Copied { .. } => "CopyObjectResult"@,
    }
}

/// A response whose document is still to be written out.
#[derive(Debug)]
pub struct PendingResponse {
    pub status: u16,
    pub headers: Vec<(String, String)>,
    pub document: Document,
}

/// What a `PendingResponse` denotes.
pub struct PendingState {
    pub status: u16,
    pub headers: Seq<(Seq<char>, Seq<char>)>,
    pub document: DocumentState,
}

impl View for PendingResponse {
    type V = PendingState;

    open spec fn view(&self) -> PendingState {
        PendingState {
            status: self.status,
            headers: response_headers(self.headers@),
            document: self.document@,
        }
    }
}

/// What an answer denotes.
pub open spec fn answer<T: View>(r: Result<T, AwsError>) -> Result<T::V, ErrorState> {
    match r {
        Ok(v) => Ok(v@),
        Err(e) => Err(e@),
    }
}

/// The response for a document, given what a serializer wrote for it.
pub open spec fn written(p: PendingState, xml: Seq<char>) -> ResponseState {
    ResponseState {
        status: p.status,
        headers: p.headers,
        body: encode_utf8(namespaced(expanded(xml), root_of(p.document))),
    }
}

impl PendingResponse {
    /// The name of the root element of the document.
    pub fn root_name(&self) -> (s: &'static str)
        ensures
            s@ == root_of(self@.document),
    {
        match &self.document {
            Document::Buckets(_) => "ListAllMyBucketsResult",
            Document::Created(_) => "CreateBucketOutput",
            Document::Location(_) => "LocationConstraint",
            Document::Deleted(_) => "DeleteResult",
            Document::Copied(_) => "CopyObjectResult",
        }
    }

    /// The response, given what a serializer wrote for the document.
    pub fn finish(self, body: Result<String, String>) -> (r: Result<Response, AwsError>)
        requires
            sendable(body, root_of(self@.document)),
        ensures
            answer(r) == (match body {
                Ok(xml) => Ok(written(self@, xml@)),
                Err(details) => Err(
                    plain_error(Fault::XmlSerializationError { details: details@ }),
                ),
            }),
    {
        let root = self.root_name();
        match serialize(body, root) {
            Ok(text) => Ok(
                Response {
                    status: self.status,
                    headers: self.headers,
                    body: text_bytes(text.as_str()),
                },
            ),
            Err(e) => Err(e),
        }
    }

    /// The response, given what a serializer wrote for the document; `None` where the root tag
    /// of that cannot be scanned.
    pub fn try_finish(self, body: Result<String, String>) -> (r: Option<Result<Response, AwsError>>)
        ensures
            match r {
                None => !sendable(body, root_of(self@.document)),
                Some(r) => sendable(body, root_of(self@.document)) && answer(r) == (match body {
                    Ok(xml) => Ok(written(self@, xml@)),
                    Err(details) => Err(
                        plain_error(Fault::XmlSerializationError { details: details@ }),
                    ),
                }),
            },
    {
        if can_send(&body, self.root_name()) {
            Some(self.finish(body))
        } else {
            None
        }
    }
}

/// The error that clients see for an error of the storage backend.
pub open spec fn storage_fault(e: S3Error, bucket: Seq<char>, key: Seq<char>) -> Fault {
    match e {
        S3Error::NoSuchBucket => Fault::NoSuchBucket { bucket_name: bucket },
        S3Error::NoSuchKey => Fault::NoSuchKey { bucket_name: bucket, key },
        S3Error::NoSuchUpload => Fault::NoSuchUpload { upload_id: Seq::empty() },
        S3Error::BucketAlreadyExists => Fault::BucketAlreadyExists { bucket_name: bucket },
        S3Error::BucketNotEmpty => Fault::BucketNotEmpty { bucket_name: bucket },
        S3Error::InvalidPart => Fault::InternalError { details: Some("Invalid part"@) },
        S3Error::InvalidPartOrder => Fault::InternalError {
            details: Some("Invalid part order"@),
        },
        S3Error::EntityTooLarge => Fault::EntityTooLarge { entity: "object"@ },
        S3Error::MaxCapacityExceeded => Fault::InternalError {
            details: Some("Max capacity exceeded"@),
        },
    }
}

/// Turns an error of the storage backend into the error that clients see.
pub fn s3_error_to_aws(err: S3Error, bucket: &str, key: &str) -> (e: AwsError)
    ensures
        e@ == plain_error(storage_fault(err, bucket@, key@)),
{
    AwsError::new(
        match err {
            S3Error::NoSuchBucket => AwsErrorKind::NoSuchBucket {
                bucket_name: bucket.to_string(),
            },
            S3Error::NoSuchKey => AwsErrorKind::NoSuchKey {
                bucket_name: bucket.to_string(),
                key: key.to_string(),
            },
            S3Error::NoSuchUpload => {
                let upload_id = String::new();
                assert(upload_id@ =~= Seq::empty());
                AwsErrorKind::NoSuchUpload { upload_id }
            },
            S3Error::BucketAlreadyExists => AwsErrorKind::BucketAlreadyExists {
                bucket_name: bucket.to_string(),
            },
            S3Error::BucketNotEmpty => AwsErrorKind::BucketNotEmpty {
                bucket_name: bucket.to_string(),
            },
            S3Error::InvalidPart => AwsErrorKind::InternalError {
                details: Some("Invalid part".to_string()),
            },
            S3Error::InvalidPartOrder => AwsErrorKind::InternalError {
                details: Some("Invalid part order".to_string()),
            },
            S3Error::EntityTooLarge => AwsErrorKind::EntityTooLarge {
                entity: "object".to_string(),
            },
            S3Error::MaxCapacityExceeded => AwsErrorKind::InternalError {
                details: Some("Max capacity exceeded".to_string()),
            },
        },
    )
}

/// The owner of all buckets.
pub open spec fn the_owner() -> OwnerState {
    OwnerState { id: "000000000000"@, display_name: "webfile"@ }
}

/// The answer to a request for all buckets.
pub open spec fn buckets_answer(reply: Result<Seq<BucketLine>, S3Error>) -> Result<
    PendingState,
    ErrorState,
> {
    match reply {
        Ok(buckets) => Ok(
            PendingState {
                status: 200,
                headers: Seq::empty(),
                document: DocumentState::Buckets { owner: the_owner(), buckets },
            },
        ),
        Err(e) => Err(plain_error(storage_fault(e, ""@, ""@))),
    }
}

/// Answers a request for all buckets.
pub fn answer_list_buckets(reply: Result<Vec<BucketInfo>, S3Error>) -> (r: Result<
    PendingResponse,
    AwsError,
>)
    ensures
        answer(r) == buckets_answer(bucket_lines(reply)),
{
    match reply {
        Ok(bucket) => {
            let r = PendingResponse {
                status: 200,
                headers: Vec::new(),
                document: Document::Buckets(
                    ListAllMyBucketsResult {
                        owner: Owner {
                            id: "000000000000".to_string(),
                            display_name: "webfile".to_string(),
                        },
                        buckets: Buckets { bucket },
                    },
                ),
            };
            assert(r@.headers =~= Seq::empty());
            Ok(r)
        },
        Err(e) => Err(s3_error_to_aws(e, "", "")),
    }
}

/// Where a bucket is found.
pub open spec fn bucket_url(bucket: Seq<char>) -> Seq<char> {
    "https://localhost:4566/"@ + bucket
}

/// The answer to a request that creates a bucket.
pub open spec fn created_answer(reply: Result<(), S3Error>, bucket: Seq<char>) -> Result<
    PendingState,
    ErrorState,
> {
    match reply {
        Ok(_) => Ok(
            PendingState {
                status: 200,
                headers: seq![("Location"@, bucket_url(bucket))],
                document: DocumentState::Created { location: bucket_url(bucket) },
            },
        ),
        Err(e) => Err(plain_error(storage_fault(e, bucket, ""@))),
    }
}

/// Answers a request that creates a bucket.
pub fn answer_create_bucket(reply: Result<(), S3Error>, bucket: &str) -> (r: Result<
    PendingResponse,
    AwsError,
>)
    ensures
        answer(r) == created_answer(reply, bucket@),
{
    match reply {
        Ok(_) => {
            let mut location = "https://localhost:4566/".to_string();
            location.append(bucket);
            let mut headers: Vec<(String, String)> = Vec::new();
            assert(response_headers(headers@) =~= Seq::empty());
            push_header(&mut headers, "Location", location.as_str());
            let r = PendingResponse {
                status: 200,
                headers,
                document: Document::Created(CreateBucketOutput { location }),
            };
            assert(r@.headers =~= seq![("Location"@, bucket_url(bucket@))]);
            Ok(r)
        },
        Err(e) => Err(s3_error_to_aws(e, bucket, "")),
    }
}

/// The answer without content to a request that deletes a bucket.
pub open spec fn bucket_deleted_answer(reply: Result<(), S3Error>, bucket: Seq<char>) -> Result<
    ResponseState,
    ErrorState,
> {
    match reply {
        Ok(_) => Ok(
            ResponseState { status: 204, headers: Seq::empty(), body: Seq::empty() },
        ),
        Err(e) => Err(plain_error(storage_fault(e, bucket, ""@))),
    }
}

/// A byte string that holds nothing.
fn no_bytes() -> (b: bytes::Bytes)
    ensures
        bytes_of(b) == (Seq::<u8>::empty()),
{
    bytes_from(Vec::new())
}

/// Answers a request that deletes a bucket.
pub fn answer_delete_bucket(reply: Result<(), S3Error>, bucket: &str) -> (r: Result<
    Response,
    AwsError,
>)
    ensures
        answer(r) == bucket_deleted_answer(reply, bucket@),
{
    match reply {
        Ok(_) => {
            let r = Response { status: 204, headers: Vec::new(), body: no_bytes() };
            assert(r@.headers =~= Seq::empty());
            Ok(r)
        },
        Err(e) => Err(s3_error_to_aws(e, bucket, "")),
    }
}

/// The answer to a request for the region of a bucket.
pub open spec fn location_answer(reply: Result<Seq<char>, S3Error>, bucket: Seq<char>) -> Result<
    PendingState,
    ErrorState,
> {
    match reply {
        Ok(location) => Ok(
            PendingState {
                status: 200,
                headers: Seq::empty(),
                document: DocumentState::Location { location },
            },
        ),
        Err(e) => Err(plain_error(storage_fault(e, bucket, ""@))),
    }
}

/// Answers a request for the region of a bucket.
pub fn answer_get_bucket_location(reply: Result<String, S3Error>, bucket: &str) -> (r: Result<
    PendingResponse,
    AwsError,
>)
    ensures
        answer(r) == location_answer(outcome(reply), bucket@),
{
    match reply {
        Ok(location) => {
            let r = PendingResponse {
                status: 200,
                headers: Vec::new(),
                document: Document::Location(LocationConstraint { location }),
            };
            assert(r@.headers =~= Seq::empty());
            Ok(r)
        },
        Err(e) => Err(s3_error_to_aws(e, bucket, "")),
    }
}

/// The line for an object that was deleted.
pub open spec fn deleted_line(target: DeleteTarget) -> DeletedLine {
    DeletedLine {
        key: target.key,
        version_id: target.version_id,
        delete_marker: None,
        delete_marker_version_id: None,
    }
}

/// The code of the line for an object that could not be deleted.
pub open spec fn delete_error_code(e: S3Error) -> Seq<char> {
    match e {
        S3Error::NoSuchBucket => "NoSuchBucket"@,
        S3Error::NoSuchKey => "NoSuchKey"@,
        _ => "InternalError"@,
    }
}

/// The message of the line for an object that could not be deleted.
pub open spec fn delete_error_message(e: S3Error) -> Seq<char> {
    match e {
        S3Error::NoSuchBucket => "The specified bucket does not exist."@,
        S3Error::NoSuchKey => "The specified key does not exist."@,
        _ => "We encountered an internal error. Please try again."@,
    }
}

/// The line for an object that could not be deleted.
pub open spec fn delete_error_line(target: DeleteTarget, e: S3Error) -> DeleteErrorLine {
    DeleteErrorLine {
        key: target.key,
        code: delete_error_code(e),
        message: delete_error_message(e),
        version_id: target.version_id,
    }
}

/// The lines for the objects that were deleted, in order.
pub open spec fn deleted_lines(
    targets: Seq<DeleteTarget>,
    replies: Seq<Result<(), S3Error>>,
) -> Seq<DeletedLine>
    decreases replies.len(),
{
    if replies.len() == 0 {
        Seq::empty()
    } else {
        let lines = deleted_lines(targets, replies.drop_last());
        match replies.last() {
            Ok(_) => lines.push(deleted_line(targets[replies.len() - 1])),
            Err(_) => lines,
        }
    }
}

/// The lines for the objects that could not be deleted, in order.
pub open spec fn error_lines(
    targets: Seq<DeleteTarget>,
    replies: Seq<Result<(), S3Error>>,
) -> Seq<DeleteErrorLine>
    decreases replies.len(),
{
    if replies.len() == 0 {
        Seq::empty()
    } else {
        let lines = error_lines(targets, replies.drop_last());
        match replies.last() {
            Ok(_) => lines,
            Err(e) => lines.push(delete_error_line(targets[replies.len() - 1], e)),
        }
    }
}

/// The header fields of answers with a document and a request identifier.
pub open spec fn document_headers(request_id: Seq<char>) -> Seq<(Seq<char>, Seq<char>)> {
    seq![
        ("Content-Type"@, "application/xml"@),
        ("x-amz-request-id"@, request_id),
        ("x-amz-id-2"@, S3_ID_2@),
    ]
}

/// The header fields of answers with a document and a request identifier.
fn document_header_fields(request_id: &str) -> (headers: Vec<(String, String)>)
    ensures
        response_headers(headers@) == document_headers(request_id@),
{
    let mut headers: Vec<(String, String)> = Vec::new();
    assert(response_headers(headers@) =~= Seq::empty());
    push_header(&mut headers, "Content-Type", "application/xml");
    push_header(&mut headers, "x-amz-request-id", request_id);
    push_header(&mut headers, "x-amz-id-2", S3_ID_2);
    assert(response_headers(headers@) =~= document_headers(request_id@));
    headers
}

/// The answer to a request that deletes several objects. A quiet one does not list what was
/// deleted.
pub open spec fn delete_objects_answer(
    targets: Seq<DeleteTarget>,
    replies: Seq<Result<(), S3Error>>,
    quiet: bool,
    request_id: Seq<char>,
) -> PendingState {
    PendingState {
        status: 200,
        headers: document_headers(request_id),
        document: DocumentState::Deleted {
            deleted: if quiet {
                Seq::empty()
            } else {
                deleted_lines(targets, replies)
            },
            errors: error_lines(targets, replies),
        },
    }
}

/// What a list of objects to delete denotes.
pub open spec fn delete_targets(objects: Seq<DeleteObject>) -> Seq<DeleteTarget> {
    objects.map_values(|o: DeleteObject| o@)
}

/// The line for an object that was deleted.
fn deleted_object(target: &DeleteObject) -> (o: DeletedObject)
    ensures
        o@ == deleted_line(target@),
{
    DeletedObject {
        key: target.key.clone(),
        version_id: copy_text(&target.version_id),
        delete_marker: None,
        delete_marker_version_id: None,
    }
}

/// The line for an object that could not be deleted.
fn delete_error(target: &DeleteObject, e: S3Error) -> (o: DeleteError)
    ensures
        o@ == delete_error_line(target@, e),
{
    let (code, message) = match e {
        S3Error::NoSuchBucket => ("NoSuchBucket", "The specified bucket does not exist."),
        S3Error::NoSuchKey => ("NoSuchKey", "The specified key does not exist."),
        _ => ("InternalError", "We encountered an internal error. Please try again."),
    };
    DeleteError {
        key: target.key.clone(),
        code: code.to_string(),
        message: message.to_string(),
        version_id: copy_text(&target.version_id),
    }
}

/// Answers a request that deletes several objects, given the reply for each of them.
pub fn answer_delete_objects(
    objects: &Vec<DeleteObject>,
    replies: &Vec<Result<(), S3Error>>,
    quiet: bool,
    request_id: &str,
) -> (r: PendingResponse)
    requires
        replies.len() == objects.len(),
    ensures
        r@ == delete_objects_answer(delete_targets(objects@), replies@, quiet, request_id@),
{
    let ghost targets = delete_targets(objects@);
    let mut deleted: Vec<DeletedObject> = Vec::new();
    let mut errors: Vec<DeleteError> = Vec::new();
    let mut i: usize = 0;
    assert(deleted@.map_values(|o: DeletedObject| o@) =~= deleted_lines(targets, replies@.take(0)));
    assert(errors@.map_values(|e: DeleteError| e@) =~= error_lines(targets, replies@.take(0)));
    while i < replies.len()
        invariant
            i <= replies.len(),
            replies.len() == objects.len(),
            targets == delete_targets(objects@),
            deleted@.map_values(|o: DeletedObject| o@) == deleted_lines(
                targets,
                replies@.take(i as int),
            ),
            errors@.map_values(|e: DeleteError| e@) == error_lines(
                targets,
                replies@.take(i as int),
            ),
        decreases replies.len() - i,
    {
        let ghost before = deleted@.map_values(|o: DeletedObject| o@);
        let ghost failed = errors@.map_values(|e: DeleteError| e@);
        assert(replies@.take(i as int + 1).drop_last() =~= replies@.take(i as int));
        assert(targets[i as int] == objects@[i as int]@);
        match replies[i] {
            Ok(_) => {
                let line = deleted_object(&objects[i]);
                deleted.push(line);
                assert(deleted@.map_values(|o: DeletedObject| o@) =~= before.push(line@));
            },
            Err(e) => {
                let line = delete_error(&objects[i], e);
                errors.push(line);
                assert(errors@.map_values(|e: DeleteError| e@) =~= failed.push(line@));
            },
        }
        i += 1;
    }
    assert(replies@.take(replies@.len() as int) =~= replies@);
    let deleted = if quiet {
        Vec::new()
    } else {
        deleted
    };
    let r = PendingResponse {
        status: 200,
        headers: document_header_fields(request_id),
        document: Document::Deleted(DeleteResult { deleted, errors }),
    };
    assert(quiet ==> deleted@.map_values(|o: DeletedObject| o@) =~= Seq::empty());
    r
}

/// The answer to a request that copies an object. That a bucket is missing is said of the
/// destination, all else of the source.
pub open spec fn copied_answer(
    reply: Result<ObjectState, S3Error>,
    src_bucket: Seq<char>,
    src_key: Seq<char>,
    dst_bucket: Seq<char>,
    dst_key: Seq<char>,
    request_id: Seq<char>,
) -> Result<PendingState, ErrorState> {
    match reply {
        Ok(object) => Ok(
            PendingState {
                status: 200,
                headers: document_headers(request_id),
                document: DocumentState::Copied {
                    etag: object.etag,
                    last_modified: object.last_modified,
                },
            },
        ),
        Err(S3Error::NoSuchBucket) => Err(
            plain_error(storage_fault(S3Error::NoSuchBucket, dst_bucket, dst_key)),
        ),
        Err(e) => Err(plain_error(storage_fault(e, src_bucket, src_key))),
    }
}

/// Answers a request that copies an object.
pub fn answer_copy_object(
    reply: Result<S3Object, S3Error>,
    src_bucket: &str,
    src_key: &str,
    dst_bucket: &str,
    dst_key: &str,
    request_id: &str,
) -> (r: Result<PendingResponse, AwsError>)
    ensures
        answer(r) == copied_answer(
            outcome(reply),
            src_bucket@,
            src_key@,
            dst_bucket@,
            dst_key@,
            request_id@,
        ),
{
    match reply {
        Ok(object) => Ok(
            PendingResponse {
                status: 200,
                headers: document_header_fields(request_id),
                document: Document::Copied(
                    CopyObjectResult { etag: object.etag, last_modified: object.last_modified },
                ),
            },
        ),
        Err(S3Error::NoSuchBucket) => Err(
            s3_error_to_aws(S3Error::NoSuchBucket, dst_bucket, dst_key),
        ),
        Err(e) => Err(s3_error_to_aws(e, src_bucket, src_key)),
    }
}

/// The answer to a request that stores an object.
pub open spec fn stored_answer(
    reply: Result<(), S3Error>,
    bucket: Seq<char>,
    key: Seq<char>,
    etag: Seq<char>,
    request_id: Seq<char>,
) -> Result<ResponseState, ErrorState> {
    match reply {
        Ok(_) => Ok(
            ResponseState {
                status: 200,
                headers: seq![
                    ("ETag"@, etag),
                    ("x-amz-request-id"@, request_id),
                    ("x-amz-id-2"@, S3_ID_2@),
                ],
                body: Seq::empty(),
            },
        ),
        Err(e) => Err(plain_error(storage_fault(e, bucket, key))),
    }
}

/// Answers a request that stores an object.
pub fn answer_put_object(
    reply: Result<(), S3Error>,
    bucket: &str,
    key: &str,
    etag: &str,
    request_id: &str,
) -> (r: Result<Response, AwsError>)
    ensures
        answer(r) == stored_answer(reply, bucket@, key@, etag@, request_id@),
{
    match reply {
        Ok(_) => {
            let mut headers: Vec<(String, String)> = Vec::new();
            assert(response_headers(headers@) =~= Seq::empty());
            push_header(&mut headers, "ETag", etag);
            push_header(&mut headers, "x-amz-request-id", request_id);
            push_header(&mut headers, "x-amz-id-2", S3_ID_2);
            let r = Response { status: 200, headers, body: no_bytes() };
            assert(r@.headers =~= seq![
                ("ETag"@, etag@),
                ("x-amz-request-id"@, request_id@),
                ("x-amz-id-2"@, S3_ID_2@),
            ]);
            Ok(r)
        },
        Err(e) => Err(s3_error_to_aws(e, bucket, key)),
    }
}

/// The header fields for the metadata of an object.
pub open spec fn metadata_headers(metadata: Seq<(Seq<char>, Seq<char>)>) -> Seq<
    (Seq<char>, Seq<char>),
> {
    metadata.map_values(|m: (Seq<char>, Seq<char>)| ("x-amz-meta-"@ + m.0, m.1))
}

/// The header fields for an object.
pub open spec fn object_headers(o: ObjectState, request_id: Seq<char>) -> Seq<
    (Seq<char>, Seq<char>),
> {
    seq![
        ("Content-Type"@, o.content_type),
        ("Content-Length"@, decimal(o.data.len())),
        ("ETag"@, o.etag),
        (
            "Last-Modified"@,
            formatted(o.last_modified.secs(), o.last_modified.nanos(), HTTP_DATE_PATTERN@),
        ),
        ("x-amz-request-id"@, request_id),
        ("x-amz-id-2"@, S3_ID_2@),
    ] + metadata_headers(o.metadata)
}

/// The answer to a request for an object, with or without its bytes.
pub open spec fn object_answer(
    reply: Result<ObjectState, S3Error>,
    bucket: Seq<char>,
    key: Seq<char>,
    with_body: bool,
    request_id: Seq<char>,
) -> Result<ResponseState, ErrorState> {
    match reply {
        Ok(o) => Ok(
            ResponseState {
                status: 200,
                headers: object_headers(o, request_id),
                body: if with_body {
                    o.data
                } else {
                    Seq::empty()
                },
            },
        ),
        Err(e) => Err(plain_error(storage_fault(e, bucket, key))),
    }
}

/// The header fields for an object.
fn object_header_fields(o: &S3Object, request_id: &str) -> (headers: Vec<(String, String)>)
    ensures
        response_headers(headers@) == object_headers(o@, request_id@),
{
    let mut headers: Vec<(String, String)> = Vec::new();
    assert(response_headers(headers@) =~= Seq::empty());
    push_header(&mut headers, "Content-Type", o.content_type.as_str());
    push_header(
        &mut headers,
        "Content-Length",
        decimal_text(o.content_length() as u64).as_str(),
    );
    push_header(&mut headers, "ETag", o.etag.as_str());
    push_header(&mut headers, "Last-Modified", format_http_date(o.last_modified).as_str());
    push_header(&mut headers, "x-amz-request-id", request_id);
    push_header(&mut headers, "x-amz-id-2", S3_ID_2);
    let ghost fixed = response_headers(headers@);
    let ghost meta = o@.metadata;
    assert(fixed + metadata_headers(meta.take(0)) =~= fixed);
    let count: usize = o.metadata.len();
    let mut i: usize = 0;
    while i < count
        invariant
            i <= count,
            count == meta.len(),
            meta == o@.metadata,
            response_headers(headers@) == fixed + metadata_headers(meta.take(i as int)),
        decreases count - i,
    {
        let (name, value) = o.metadata.entry(i);
        let mut field = "x-amz-meta-".to_string();
        field.append(name.as_str());
        push_header(&mut headers, field.as_str(), value.as_str());
        i += 1;
        assert(response_headers(headers@) =~= fixed + metadata_headers(meta.take(i as int)));
    }
    assert(meta.take(meta.len() as int) =~= meta);
    assert(response_headers(headers@) =~= object_headers(o@, request_id@));
    headers
}

/// Answers a request for an object.
pub fn answer_get_object(
    reply: Result<GetObjectResult, S3Error>,
    bucket: &str,
    key: &str,
    request_id: &str,
) -> (r: Result<Response, AwsError>)
    ensures
        answer(r) == object_answer(outcome(reply), bucket@, key@, true, request_id@),
{
    match reply {
        Ok(found) => Ok(
            Response {
                status: 200,
                headers: object_header_fields(&found.object, request_id),
                body: found.object.data,
            },
        ),
        Err(e) => Err(s3_error_to_aws(e, bucket, key)),
    }
}

/// Answers a request for what is known of an object.
pub fn answer_head_object(
    reply: Result<GetObjectResult, S3Error>,
    bucket: &str,
    key: &str,
    request_id: &str,
) -> (r: Result<Response, AwsError>)
    ensures
        answer(r) == object_answer(outcome(reply), bucket@, key@, false, request_id@),
{
    match reply {
        Ok(found) => Ok(
            Response {
                status: 200,
                headers: object_header_fields(&found.object, request_id),
                body: no_bytes(),
            },
        ),
        Err(e) => Err(s3_error_to_aws(e, bucket, key)),
    }
}

/// The answer to a request that deletes an object. To delete what is not there succeeds.
pub open spec fn object_deleted_answer(
    reply: Result<(), S3Error>,
    bucket: Seq<char>,
    key: Seq<char>,
    request_id: Seq<char>,
) -> Result<ResponseState, ErrorState> {
    if reply is Ok || reply == Err::<(), S3Error>(S3Error::NoSuchKey) {
        Ok(
            ResponseState {
                status: 204,
                headers: seq![
                    ("x-amz-request-id"@, request_id),
                    ("x-amz-id-2"@, S3_ID_2@),
                ],
                body: Seq::empty(),
            },
        )
    } else {
        Err(plain_error(storage_fault(reply->Err_0, bucket, key)))
    }
}

/// Answers a request that deletes an object.
pub fn answer_delete_object(
    reply: Result<(), S3Error>,
    bucket: &str,
    key: &str,
    request_id: &str,
) -> (r: Result<Response, AwsError>)
    ensures
        answer(r) == object_deleted_answer(reply, bucket@, key@, request_id@),
{
    match reply {
        Ok(_) => {},
        Err(S3Error::NoSuchKey) => {},
        Err(e) => {
            return Err(s3_error_to_aws(e, bucket, key));
        },
    }
    let mut headers: Vec<(String, String)> = Vec::new();
    assert(response_headers(headers@) =~= Seq::empty());
    push_header(&mut headers, "x-amz-request-id", request_id);
    push_header(&mut headers, "x-amz-id-2", S3_ID_2);
    let r = Response { status: 204, headers, body: no_bytes() };
    assert(r@.headers =~= seq![("x-amz-request-id"@, request_id@), ("x-amz-id-2"@, S3_ID_2@)]);
    Ok(r)
}

} // verus!
