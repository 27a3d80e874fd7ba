//! The errors that clients see.

use crate::numbers::{decimal, decimal_text};
use crate::protocol::xml::{escaped, xml_escape};
use vstd::prelude::*;
use vstd::string::*;

verus! {

/// An error of the protocol: a code and a message.
#[derive(Debug, Clone)]
pub struct S3Error {
    pub code: String,
    pub message: String,
}

/// The message for a part number that is out of range.
pub open spec fn part_number_message(part_number: u32) -> Seq<char> {
    "PartNumber must be between 1 and 10000, got "@ + decimal(part_number as nat)
}

/// The message for a part number that is out of range.
pub fn part_number_text(part_number: u32) -> (s: String)
    ensures
        s@ == part_number_message(part_number),
{
    let mut s = "PartNumber must be between 1 and 10000, got ".to_string();
    s.append(decimal_text(part_number as u64).as_str());
    s
}

impl S3Error {
    /// The error for a part number that is out of range.
    pub fn invalid_part_number(part_number: u32) -> (e: S3Error)
        ensures
            e.code@ == "InvalidPartNumber"@,
            e.message@ == part_number_message(part_number),
    {
        S3Error {
            code: "InvalidPartNumber".to_string(),
            message: part_number_text(part_number),
        }
    }

    /// The code and the message in one line.
    pub fn to_text(&self) -> (s: String)
        ensures
            s@ == self.code@ + ": "@ + self.message@,
    {
        let mut s = self.code.clone();
        s.append(": ");
        s.append(self.message.as_str());
        s
    }
}

/// The kinds of error that a service answers with.
#[allow(inconsistent_fields)]
#[derive(Debug, Clone)]
pub enum AwsErrorKind {
    NoSuchBucket { bucket_name: String },
    NoSuchKey { bucket_name: String, key: String },
    NoSuchUpload { upload_id: String },
    BucketAlreadyExists { bucket_name: String },
    BucketNotEmpty { bucket_name: String },
    InternalError { details: Option<String> },
    EntityTooLarge { entity: String },
    InvalidArgument { argument_name: String, value: String },
    MissingRequestHeader { header_name: String },
    IncompleteBody,
    NotImplemented,
    MethodNotAllowed { method: String },
    XmlSerializationError { details: String },
}

/// What an `AwsErrorKind` denotes.
#[allow(inconsistent_fields)]
pub enum Fault {
    NoSuchBucket { bucket_name: Seq<char> },
    NoSuchKey { bucket_name: Seq<char>, key: Seq<char> },
    NoSuchUpload { upload_id: Seq<char> },
    BucketAlreadyExists { bucket_name: Seq<char> },
    BucketNotEmpty { bucket_name: Seq<char> },
    InternalError { details: Option<Seq<char>> },
    EntityTooLarge { entity: Seq<char> },
    InvalidArgument { argument_name: Seq<char>, value: Seq<char> },
    MissingRequestHeader { header_name: Seq<char> },
    IncompleteBody,
    NotImplemented,
    MethodNotAllowed { method: Seq<char> },
    XmlSerializationError { details: Seq<char> },
}

impl View for AwsErrorKind {
    type V = Fault;

    open spec fn view(&self) -> Fault {
        match *self {
            AwsErrorKind::NoSuchBucket { bucket_name } => Fault::NoSuchBucket {
                bucket_name: bucket_name@,
            },
            AwsErrorKind::NoSuchKey { bucket_name, key } => Fault::NoSuchKey {
                bucket_name: bucket_name@,
                key: key@,
            },
            AwsErrorKind::NoSuchUpload { upload_id } => Fault::NoSuchUpload {
                upload_id: upload_id@,
            },
            AwsErrorKind::BucketAlreadyExists { bucket_name } => Fault::BucketAlreadyExists {
                bucket_name: bucket_name@,
            },
            AwsErrorKind::BucketNotEmpty { bucket_name } => Fault::BucketNotEmpty {
                bucket_name: bucket_name@,
            },
            AwsErrorKind::InternalError { details } => Fault::InternalError {
                details: match details {
                    Some(text) => Some(text@),
                    None => None,
                },
            },
            AwsErrorKind::EntityTooLarge { entity } => Fault::EntityTooLarge { entity: entity@ },
            AwsErrorKind::InvalidArgument { argument_name, value } => Fault::InvalidArgument {
                argument_name: argument_name@,
                value: value@,
            },
            AwsErrorKind::MissingRequestHeader { header_name } => Fault::MissingRequestHeader {
                header_name: header_name@,
            },
            AwsErrorKind::IncompleteBody => Fault::IncompleteBody,
            AwsErrorKind::NotImplemented => Fault::NotImplemented,
            AwsErrorKind::MethodNotAllowed { method } => Fault::MethodNotAllowed {
                method: method@,
            },
            AwsErrorKind::XmlSerializationError { details } => Fault::XmlSerializationError {
                details: details@,
            },
        }
    }
}

/// The code of a kind of error.
pub open spec fn fault_code(f: Fault) -> Seq<char> {
    match f {
        Fault::NoSuchBucket { .. } => "NoSuchBucket"@,
        Fault::NoSuchKey { .. } => "NoSuchKey"@,
        Fault::NoSuchUpload { .. } => "NoSuchUpload"@,
        Fault::BucketAlreadyExists { .. } => "BucketAlreadyExists"@,
        Fault::BucketNotEmpty { .. } => "BucketNotEmpty"@,
        Fault::InternalError { .. } => "InternalError"@,
        Fault::EntityTooLarge { .. } => "EntityTooLarge"@,
        Fault::InvalidArgument { .. } => "InvalidArgument"@,
        Fault::MissingRequestHeader { .. } => "MissingRequestHeader"@,
        Fault::IncompleteBody => "IncompleteBody"@,
        Fault::NotImplemented => "NotImplemented"@,
        Fault::MethodNotAllowed { .. } => "MethodNotAllowed"@,
        Fault::XmlSerializationError { .. } => "XmlSerializationError"@,
    }
}

/// The HTTP status of a kind of error.
pub open spec fn fault_status(f: Fault) -> u16 {
    match f {
        Fault::NoSuchBucket { .. } => 404,
        Fault::NoSuchKey { .. } => 404,
        Fault::NoSuchUpload { .. } => 404,
        Fault::BucketAlreadyExists { .. } => 409,
        Fault::BucketNotEmpty { .. } => 409,
        Fault::InternalError { .. } => 500,
        Fault::EntityTooLarge { .. } => 400,
        Fault::InvalidArgument { .. } => 400,
        Fault::MissingRequestHeader { .. } => 400,
        Fault::IncompleteBody => 400,
        Fault::NotImplemented => 501,
        Fault::MethodNotAllowed { .. } => 405,
        Fault::XmlSerializationError { .. } => 500,
    }
}

/// The message of a kind of error.
pub open spec fn fault_message(f: Fault) -> Seq<char> {
    match f {
        Fault::NoSuchBucket { bucket_name } => "The specified bucket does not exist: "@
            + bucket_name,
        Fault::NoSuchKey { bucket_name, key } => "The specified key does not exist: "@
            + bucket_name + "/"@ + key,
        Fault::NoSuchUpload { upload_id } => "The specified upload does not exist: "@
            + upload_id,
        Fault::BucketAlreadyExists { bucket_name } =>
            "The requested bucket name is not available: "@ + bucket_name,
        Fault::BucketNotEmpty { bucket_name } => "The bucket you tried to delete is not empty: "@
            + bucket_name,
        Fault::InternalError { details: None } => "We encountered an internal error."@,
        Fault::InternalError { details: Some(details) } => "We encountered an internal error: "@
            + details,
        Fault::EntityTooLarge { entity } => "Your proposed upload is too large: "@ + entity,
        Fault::InvalidArgument { argument_name, value } => "Invalid argument "@ + argument_name
            + ": "@ + value,
        Fault::MissingRequestHeader { header_name } => "Missing or malformed request header: "@
            + header_name,
        Fault::IncompleteBody => "The request body does not match the Content-Length header."@,
        Fault::NotImplemented => "The requested functionality is not implemented."@,
        Fault::MethodNotAllowed { method } => "The method is not allowed on this resource: "@
            + method,
        Fault::XmlSerializationError { details } => "The response could not be written: "@
            + details,
    }
}

/// An error as a service answers with it: its kind, and what identifies the request and the
/// host.
#[derive(Debug, Clone)]
pub struct AwsError {
    pub kind: AwsErrorKind,
    pub request_id: String,
    pub host_id: String,
}

/// What an `AwsError` denotes.
pub struct ErrorState {
    pub fault: Fault,
    pub request_id: Seq<char>,
    pub host_id: Seq<char>,
}

impl View for AwsError {
    type V = ErrorState;

    open spec fn view(&self) -> ErrorState {
        ErrorState {
            fault: self.kind@,
            request_id: self.request_id@,
            host_id: self.host_id@,
        }
    }
}

/// The error of a kind, for no request and host in particular.
pub open spec fn plain_error(f: Fault) -> ErrorState {
    ErrorState { fault: f, request_id: Seq::empty(), host_id: Seq::empty() }
}

/// The XML document for an error.
pub open spec fn error_document(e: ErrorState) -> Seq<char> {
    "<?xml version=\"1.0\" encoding=\"UTF-8\"?><Error><Code>"@ + fault_code(e.fault)
        + "</Code><Message>"@ + escaped(fault_message(e.fault)) + "</Message><RequestId>"@
        + escaped(e.request_id) + "</RequestId><HostId>"@ + escaped(e.host_id)
        + "</HostId></Error>"@
}

impl AwsError {
    /// The error of a kind.
    pub fn new(kind: AwsErrorKind) -> (e: AwsError)
        ensures
            e@ == plain_error(kind@),
    {
        let e = AwsError { kind, request_id: String::new(), host_id: String::new() };
        assert(e.request_id@ =~= Seq::empty());
        e
    }

    /// The error with what identifies the request.
    pub fn request_id(self, request_id: &str) -> (e: AwsError)
        ensures
            e@ == (ErrorState { request_id: request_id@, ..self@ }),
    {
        AwsError { kind: self.kind, request_id: request_id.to_string(), host_id: self.host_id }
    }

    /// The error with what identifies the host.
    pub fn host_id(self, host_id: &str) -> (e: AwsError)
        ensures
            e@ == (ErrorState { host_id: host_id@, ..self@ }),
    {
        AwsError { kind: self.kind, request_id: self.request_id, host_id: host_id.to_string() }
    }

    /// The code of the error.
    pub fn error_code(&self) -> (s: &'static str)
        ensures
            s@ == fault_code(self@.fault),
    {
        match &self.kind {
            AwsErrorKind::NoSuchBucket { .. } => "NoSuchBucket",
            AwsErrorKind::NoSuchKey { .. } => "NoSuchKey",
            AwsErrorKind::NoSuchUpload { .. } => "NoSuchUpload",
            AwsErrorKind::BucketAlreadyExists { .. } => "BucketAlreadyExists",
            AwsErrorKind::BucketNotEmpty { .. } => "BucketNotEmpty",
            AwsErrorKind::InternalError { .. } => "InternalError",
            AwsErrorKind::EntityTooLarge { .. } => "EntityTooLarge",
            AwsErrorKind::InvalidArgument { .. } => "InvalidArgument",
            AwsErrorKind::MissingRequestHeader { .. } => "MissingRequestHeader",
            AwsErrorKind::IncompleteBody => "IncompleteBody",
            AwsErrorKind::NotImplemented => "NotImplemented",
            AwsErrorKind::MethodNotAllowed { .. } => "MethodNotAllowed",
            AwsErrorKind::XmlSerializationError { .. } => "XmlSerializationError",
        }
    }

    /// The HTTP status of the error.
    pub fn status_code(&self) -> (n: u16)
        ensures
            n == fault_status(self@.fault),
    {
        match &self.kind {
            AwsErrorKind::NoSuchBucket { .. } => 404,
            AwsErrorKind::NoSuchKey { .. } => 404,
            AwsErrorKind::NoSuchUpload { .. } => 404,
            AwsErrorKind::BucketAlreadyExists { .. } => 409,
            AwsErrorKind::BucketNotEmpty { .. } => 409,
            AwsErrorKind::InternalError { .. } => 500,
            AwsErrorKind::EntityTooLarge { .. } => 400,
            AwsErrorKind::InvalidArgument { .. } => 400,
            AwsErrorKind::MissingRequestHeader { .. } => 400,
            AwsErrorKind::IncompleteBody => 400,
            AwsErrorKind::NotImplemented => 501,
            AwsErrorKind::MethodNotAllowed { .. } => 405,
            AwsErrorKind::XmlSerializationError { .. } => 500,
        }
    }

    /// The message of the error.
    pub fn message(&self) -> (s: String)
        ensures
            s@ == fault_message(self@.fault),
    {
        match &self.kind {
            AwsErrorKind::NoSuchBucket { bucket_name } => {
                let mut s = "The specified bucket does not exist: ".to_string();
                s.append(bucket_name.as_str());
                s
            },
            AwsErrorKind::NoSuchKey { bucket_name, key } => {
                let mut s = "The specified key does not exist: ".to_string();
                s.append(bucket_name.as_str());
                s.append("/");
                s.append(key.as_str());
                s
            },
            AwsErrorKind::NoSuchUpload { upload_id } => {
                let mut s = "The specified upload does not exist: ".to_string();
                s.append(upload_id.as_str());
                s
            },
            AwsErrorKind::BucketAlreadyExists { bucket_name } => {
                let mut s = "The requested bucket name is not available: ".to_string();
                s.append(bucket_name.as_str());
                s
            },
            AwsErrorKind::BucketNotEmpty { bucket_name } => {
                let mut s = "The bucket you tried to delete is not empty: ".to_string();
                s.append(bucket_name.as_str());
                s
            },
            AwsErrorKind::InternalError { details } => match details {
                None => "We encountered an internal error.".to_string(),
                Some(details) => {
                    let mut s = "We encountered an internal error: ".to_string();
                    s.append(details.as_str());
                    s
                },
            },
            AwsErrorKind::EntityTooLarge { entity } => {
                let mut s = "Your proposed upload is too large: ".to_string();
                s.append(entity.as_str());
                s
            },
            AwsErrorKind::InvalidArgument { argument_name, value } => {
                let mut s = "Invalid argument ".to_string();
                s.append(argument_name.as_str());
                s.append(": ");
                s.append(value.as_str());
                s
            },
            AwsErrorKind::MissingRequestHeader { header_name } => {
                let mut s = "Missing or malformed request header: ".to_string();
                s.append(header_name.as_str());
                s
            },
            AwsErrorKind::IncompleteBody =>
                "The request body does not match the Content-Length header.".to_string(),
            AwsErrorKind::NotImplemented =>
                "The requested functionality is not implemented.".to_string(),
            AwsErrorKind::MethodNotAllowed { method } => {
                let mut s = "The method is not allowed on this resource: ".to_string();
                s.append(method.as_str());
                s
            },
            AwsErrorKind::XmlSerializationError { details } => {
                let mut s = "The response could not be written: ".to_string();
                s.append(details.as_str());
                s
            },
        }
    }

    /// The XML document for the error.
    pub fn to_xml(&self) -> (s: String)
        ensures
            s@ == error_document(self@),
    {
        let mut s = "<?xml version=\"1.0\" encoding=\"UTF-8\"?><Error><Code>".to_string();
        s.append(self.error_code());
        s.append("</Code><Message>");
        s.append(xml_escape(self.message().as_str()).as_str());
        s.append("</Message><RequestId>");
        s.append(xml_escape(self.request_id.as_str()).as_str());
        s.append("</RequestId><HostId>");
        s.append(xml_escape(self.host_id.as_str()).as_str());
        s.append("</HostId></Error>");
        s
    }
}

} // verus!
