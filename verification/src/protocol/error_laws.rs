//! What errors are answered with.

use crate::numbers::decimal;
use crate::protocol::error::{part_number_message, ErrorState, Fault};
use crate::protocol::markup::expanded;
use crate::protocol::types::valid_part_number;
use crate::protocol::xml::{escaped, namespaced};
use crate::router::service::error_response;
use crate::s3::answers::{storage_fault, written, DocumentState, PendingState};
use crate::s3::model::{error_text, S3Error};
use vstd::prelude::*;
use vstd::string::*;
use vstd::utf8::encode_utf8;

verus! {

/// The document of an error response with a code, a message, and what identifies the request
/// and the host.
pub open spec fn document_text(
    code: Seq<char>,
    message: Seq<char>,
    request_id: Seq<char>,
    host_id: Seq<char>,
) -> Seq<char> {
    "<?xml version=\"1.0\" encoding=\"UTF-8\"?><Error><Code>"@ + code + "</Code><Message>"@
        + escaped(message) + "</Message><RequestId>"@ + escaped(request_id)
        + "</RequestId><HostId>"@ + escaped(host_id) + "</HostId></Error>"@
}

/// Whether an error is answered with the status, code and message, as an XML document.
pub open spec fn is_answered(
    e: ErrorState,
    status: u16,
    code: Seq<char>,
    message: Seq<char>,
) -> bool {
    let r = error_response(e);
    &&& r.status == status
    &&& r.headers.len() == 1
    &&& r.headers[0] == ("Content-Type"@, "application/xml"@)
    &&& r.body == encode_utf8(document_text(code, message, e.request_id, e.host_id))
}

/// Every error is answered with the status and the code of its kind, and a message that names
/// what it is about.
pub proof fn every_error_has_its_status_and_code(e: ErrorState)
    ensures
        match e.fault {
            Fault::NoSuchBucket { bucket_name } => is_answered(
                e,
                404,
                "NoSuchBucket"@,
                "The specified bucket does not exist: "@ + bucket_name,
            ),
            Fault::NoSuchKey { bucket_name, key } => is_answered(
                e,
                404,
                "NoSuchKey"@,
                "The specified key does not exist: "@ + bucket_name + "/"@ + key,
            ),
            Fault::NoSuchUpload { upload_id } => is_answered(
                e,
                404,
                "NoSuchUpload"@,
                "The specified upload does not exist: "@ + upload_id,
            ),
            Fault::BucketAlreadyExists { bucket_name } => is_answered(
                e,
                409,
                "BucketAlreadyExists"@,
                "The requested bucket name is not available: "@ + bucket_name,
            ),
            Fault::BucketNotEmpty { bucket_name } => is_answered(
                e,
                409,
                "BucketNotEmpty"@,
                "The bucket you tried to delete is not empty: "@ + bucket_name,
            ),
            Fault::InternalError { details: None } => is_answered(
                e,
                500,
                "InternalError"@,
                "We encountered an internal error."@,
            ),
            Fault::InternalError { details: Some(details) } => is_answered(
                e,
                500,
                "InternalError"@,
                "We encountered an internal error: "@ + details,
            ),
            Fault::EntityTooLarge { entity } => is_answered(
                e,
                400,
                "EntityTooLarge"@,
                "Your proposed upload is too large: "@ + entity,
            ),
            Fault::InvalidArgument { argument_name, value } => is_answered(
                e,
                400,
                "InvalidArgument"@,
                "Invalid argument "@ + argument_name + ": "@ + value,
            ),
            Fault::MissingRequestHeader { header_name } => is_answered(
                e,
                400,
                "MissingRequestHeader"@,
                "Missing or malformed request header: "@ + header_name,
            ),
            Fault::IncompleteBody => is_answered(
                e,
                400,
                "IncompleteBody"@,
                "The request body does not match the Content-Length header."@,
            ),
            Fault::NotImplemented => is_answered(
                e,
                501,
                "NotImplemented"@,
                "The requested functionality is not implemented."@,
            ),
            Fault::MethodNotAllowed { method } => is_answered(
                e,
                405,
                "MethodNotAllowed"@,
                "The method is not allowed on this resource: "@ + method,
            ),
            Fault::XmlSerializationError { details } => is_answered(
                e,
                500,
                "XmlSerializationError"@,
                "The response could not be written: "@ + details,
            ),
        },
{
}

/// An error of the backend is told to clients as what it is about: the bucket, the key in it, or
/// the upload. Where the client named parts wrongly, or there is no room, it is an internal error
/// that says so.
pub proof fn backend_error_is_told(e: S3Error, bucket: Seq<char>, key: Seq<char>)
    ensures
        ({
            let f = storage_fault(e, bucket, key);
            match e {
                S3Error::NoSuchBucket => f == (Fault::NoSuchBucket { bucket_name: bucket }),
                S3Error::NoSuchKey => f == (Fault::NoSuchKey { bucket_name: bucket, key }),
                S3Error::NoSuchUpload => f is NoSuchUpload,
                S3Error::BucketAlreadyExists => f == (Fault::BucketAlreadyExists {
                    bucket_name: bucket,
                }),
                S3Error::BucketNotEmpty => f == (Fault::BucketNotEmpty { bucket_name: bucket }),
                S3Error::InvalidPart => f == (Fault::InternalError {
                    details: Some("Invalid part"@),
                }),
                S3Error::InvalidPartOrder => f == (Fault::InternalError {
                    details: Some("Invalid part order"@),
                }),
                S3Error::EntityTooLarge => f == (Fault::EntityTooLarge { entity: "object"@ }),
                S3Error::MaxCapacityExceeded => f == (Fault::InternalError {
                    details: Some("Max capacity exceeded"@),
                }),
            }
        }),
{
}

/// A part number is good from 1 to 10000; of another, the message tells the number.
pub proof fn part_numbers_have_a_range(n: u32)
    ensures
        valid_part_number(n) <==> 1 <= n <= 10000,
        part_number_message(n) == "PartNumber must be between 1 and 10000, got "@ + decimal(
            n as nat,
        ),
{
}

/// What an error of the backend says.
pub proof fn backend_error_says_what_it_is(e: S3Error)
    ensures
        error_text(e) == (match e {
            S3Error::NoSuchBucket => "The specified bucket does not exist"@,
            S3Error::NoSuchKey => "The specified key does not exist"@,
            S3Error::NoSuchUpload => "The specified upload does not exist"@,
            S3Error::BucketAlreadyExists => "The requested bucket already exists"@,
            S3Error::BucketNotEmpty => "The bucket you tried to delete is not empty"@,
            S3Error::InvalidPart => "One or more of the specified parts could not be found"@,
            S3Error::InvalidPartOrder => "The list of parts was not in ascending order"@,
            S3Error::EntityTooLarge =>
                "Your proposed upload exceeds the maximum allowed object size"@,
            S3Error::MaxCapacityExceeded => "The maximum capacity has been exceeded"@,
        }),
{
}

/// The document of an answer is sent with its self-closing tags expanded and the namespace on
/// its root element, which each kind of document has a name for.
pub proof fn document_is_sent_under_its_root(p: PendingState, xml: Seq<char>)
    ensures
        written(p, xml).status == p.status,
        written(p, xml).headers == p.headers,
        written(p, xml).body == encode_utf8(
            namespaced(
                expanded(xml),
                match p.document {
                    DocumentState::Buckets { .. } => "ListAllMyBucketsResult"@,
                    DocumentState::Created { .. } => "CreateBucketOutput"@,
                    DocumentState::Location { .. } => "LocationConstraint"@,
                    DocumentState::Deleted { .. } => "DeleteResult"@,
                    DocumentState::Copied { .. } => "CopyObjectResult"@,
                },
            ),
        ),
{
}

} // verus!
