//! The S3 service: which handler a request goes to, and what the service answers.

use crate::blob::{bytes_from, bytes_of};
use crate::message::{field_text, Fields, Headers, Request, Response, ResponseState};
use crate::numbers::{parse_u32, parsed};
use crate::protocol::error::{plain_error, AwsError, AwsErrorKind, ErrorState, Fault};
use crate::protocol::types::{DeleteRequest, S3Object};
use crate::s3::address::{host_readable, place_of, resolve_address, AddressError, Place};
use crate::s3::answers::{answer, PendingResponse, PendingState};
use crate::s3::copy_source::{
    climbs, copy_source, invalid_argument, invalid_argument_error, validate_copy_source,
    validate_no_path_traversal,
};
use crate::s3::handlers::{
    delete_request, delete_request_text, handle_abort_multipart_upload,
    handle_complete_multipart_upload, handle_copy_object, handle_create_bucket,
    handle_create_multipart_upload, handle_delete_bucket, handle_delete_object,
    handle_delete_objects, handle_get_bucket_location, handle_get_object, handle_head_object,
    handle_list_buckets, handle_list_objects_v2, handle_list_parts, handle_put_object,
    handle_upload_part, may_copy_object, may_create_bucket, may_delete_bucket, may_delete_object,
    may_delete_objects, may_get_bucket_location, may_get_object, may_head_object, may_list_buckets,
    may_put_object, not_implemented,
};
use crate::s3::query::{metadata_of, parse_metadata, parse_query, query_parameters};
use crate::s3::storage::Storage;
use crate::string_map::{has_key, value_of, Entries, StringMap};
use crate::text::{
    ascii_lower, chars_of, contains, has_infix, same_ignoring_case, starts_with, string_of, text_eq,
    trim_start, trimmed_from,
};
use bytes::Bytes;
use vstd::prelude::*;
use vstd::string::*;
use vstd::utf8::{decode_utf8, valid_utf8};

verus! {

/// The size of the largest request body that is read: 5 GiB.
pub const MAX_UPLOAD_SIZE: u64 = 5_368_709_120;

/// A path without the name of the service at its front.
pub open spec fn without_service(path: Seq<char>, service: Seq<char>) -> Seq<char> {
    let rest = trim_start(path, '/');
    if starts_with(rest, service.push('/')) {
        seq!['/'] + rest.skip(service.len() as int + 1)
    } else if rest == service {
        seq!['/']
    } else {
        path
    }
}

/// Takes the name of the service off the front of a path: `/s3/bucket/key` becomes
/// `/bucket/key`.
pub fn strip_service_prefix(path: &str, service: &str) -> (r: String)
    ensures
        r@ == without_service(path@, service@),
{
    let all = chars_of(path);
    let from: usize = trimmed_from(&all, '/');
    let rest = string_of(&all, from, all.len());
    assert(rest@ =~= trim_start(path@, '/'));
    let mut prefix = service.to_string();
    prefix.push('/');
    if crate::text::has_prefix(rest.as_str(), prefix.as_str()) {
        let chars = chars_of(rest.as_str());
        let skip: usize = prefix.as_str().unicode_len();
        let mut r = String::new();
        r.push('/');
        r.append(string_of(&chars, skip, chars.len()).as_str());
        assert(r@ =~= seq!['/'] + rest@.skip(service@.len() as int + 1));
        r
    } else if text_eq(rest.as_str(), service) {
        let mut r = String::new();
        r.push('/');
        assert(r@ =~= seq!['/']);
        r
    } else {
        path.to_string()
    }
}

/// The name of a service comes off the path that it was put in front of.
pub proof fn service_prefix_comes_off(path: Seq<char>, service: Seq<char>)
    requires
        service.len() > 0,
        service[0] != '/',
        path.len() > 0,
        path[0] == '/',
    ensures
        without_service(seq!['/'] + service + path, service) == path,
{
    let full = seq!['/'] + service + path;
    let rest = service + path;
    reveal_with_fuel(trim_start, 2);
    assert(full.drop_first() =~= rest);
    assert(trim_start(full, '/') == rest);
    assert(rest.subrange(0, service.len() as int + 1) =~= service.push('/'));
    assert(seq!['/'] + rest.skip(service.len() as int + 1) =~= path);
}

/// The bucket and key of a request; both empty where there is no bucket in it.
pub open spec fn bucket_and_key(path: Seq<char>, host: Seq<char>) -> Result<
    (Seq<char>, Seq<char>),
    ErrorState,
> {
    match place_of(host, path) {
        Place::At { bucket, key } => Ok((bucket, key)),
        Place::NoBucket => Ok((Seq::empty(), Seq::empty())),
        Place::NoHost => Err(
            plain_error(Fault::MissingRequestHeader { header_name: "Host"@ }),
        ),
        Place::Undecodable => Err(invalid_argument("path"@, path)),
    }
}

/// Finds the bucket and key of a request.
pub fn resolve_bucket_or_key(path: &str, host: &str) -> (r: Result<(String, String), AwsError>)
    requires
        host_readable(host@),
    ensures
        match r {
            Ok((bucket, key)) => bucket_and_key(path@, host@) == Ok::<_, ErrorState>(
                (bucket@, key@),
            ),
            Err(e) => bucket_and_key(path@, host@) == Err::<(Seq<char>, Seq<char>), _>(e@),
        },
{
    match resolve_address(host, path) {
        Ok(place) => Ok(place),
        Err(AddressError::MissingBucket) => {
            let bucket = String::new();
            let key = String::new();
            assert(bucket@ =~= Seq::empty());
            assert(key@ =~= Seq::empty());
            Ok((bucket, key))
        },
        Err(AddressError::MissingHost) => Err(
            AwsError::new(AwsErrorKind::MissingRequestHeader { header_name: "Host".to_string() }),
        ),
        Err(AddressError::DecodeError(_)) => Err(invalid_argument_error("path", path)),
        Err(AddressError::MalformedRequest(_)) => Err(invalid_argument_error("path", path)),
    }
}

/// The error for a method that is not allowed.
pub open spec fn not_allowed(method: Seq<char>) -> ErrorState {
    plain_error(Fault::MethodNotAllowed { method })
}

/// The error for a method that is not allowed.
pub fn method_not_allowed(method: &str) -> (e: AwsError)
    ensures
        e@ == not_allowed(method@),
{
    AwsError::new(AwsErrorKind::MethodNotAllowed { method: method.to_string() })
}

/// The error for a request body that could not be read, given what went wrong.
pub open spec fn body_fault(details: Seq<char>) -> ErrorState {
    if contains(details, "length limit exceeded"@) {
        plain_error(Fault::EntityTooLarge { entity: "request body"@ })
    } else {
        plain_error(Fault::InternalError { details: Some("body read failed: "@ + details) })
    }
}

/// The error for a request body that could not be read, given what went wrong.
pub fn body_error(details: &str) -> (e: AwsError)
    ensures
        e@ == body_fault(details@),
{
    if has_infix(details, "length limit exceeded") {
        AwsError::new(AwsErrorKind::EntityTooLarge { entity: "request body".to_string() })
    } else {
        let mut text = "body read failed: ".to_string();
        text.append(details);
        AwsError::new(AwsErrorKind::InternalError { details: Some(text) })
    }
}

/// The error for a response that could not be built, given what went wrong.
pub fn response_error(details: &str) -> (e: AwsError)
    ensures
        e@ == plain_error(
            Fault::InternalError { details: Some("response build failed: "@ + details@) },
        ),
{
    let mut text = "response build failed: ".to_string();
    text.append(details);
    AwsError::new(AwsErrorKind::InternalError { details: Some(text) })
}

/// Where a request goes.
#[derive(Debug, Clone, Copy, PartialEq, Eq, Structural)]
pub enum Route {
    ListBuckets,
    CreateBucket,
    DeleteBucket,
    GetBucketLocation,
    ListObjectsV2,
    DeleteObjects,
    CopyObject,
    UploadPart(u32),
    PutObject,
    ListParts,
    GetObject,
    HeadObject,
    AbortMultipartUpload,
    DeleteObject,
    CreateMultipartUpload,
    CompleteMultipartUpload,
}

/// The part number of an upload that the parameters name: a number, with an upload identifier.
pub open spec fn uploaded_part(params: Entries) -> Option<u32> {
    match (value_of(params, "partNumber"@), value_of(params, "uploadId"@)) {
        (Some(text), Some(_)) => match parsed(text, u32::MAX as nat) {
            Some(n) => Some(n as u32),
            None => None,
        },
        _ => None,
    }
}

/// Where a request goes: by its method, whether it names a bucket and a key, its parameters
/// and the source of a copy. What is more specific comes before what is general.
pub open spec fn route_of(
    method: Seq<char>,
    bucket: Seq<char>,
    key: Seq<char>,
    params: Entries,
    fields: Fields,
) -> Result<Route, ErrorState> {
    let whole = bucket.len() > 0 && key.len() > 0;
    if method == "GET"@ {
        if bucket.len() == 0 {
            Ok(Route::ListBuckets)
        } else if key.len() == 0 {
            if has_key(params, "location"@) {
                Ok(Route::GetBucketLocation)
            } else {
                Ok(Route::ListObjectsV2)
            }
        } else if has_key(params, "uploadId"@) {
            Ok(Route::ListParts)
        } else {
            Ok(Route::GetObject)
        }
    } else if method == "PUT"@ && key.len() == 0 {
        Ok(Route::CreateBucket)
    } else if method == "PUT"@ && whole {
        match field_text(fields, "x-amz-copy-source"@) {
            Some(source) => match copy_source(source) {
                Ok(_) => Ok(Route::CopyObject),
                Err(e) => Err(e),
            },
            None => match uploaded_part(params) {
                Some(n) => Ok(Route::UploadPart(n)),
                None => Ok(Route::PutObject),
            },
        }
    } else if method == "DELETE"@ && key.len() == 0 {
        Ok(Route::DeleteBucket)
    } else if method == "DELETE"@ && whole {
        if has_key(params, "uploadId"@) {
            Ok(Route::AbortMultipartUpload)
        } else {
            Ok(Route::DeleteObject)
        }
    } else if method == "HEAD"@ && whole {
        Ok(Route::HeadObject)
    } else if method == "POST"@ && whole && has_key(params, "uploads"@) {
        Ok(Route::CreateMultipartUpload)
    } else if method == "POST"@ && whole && has_key(params, "uploadId"@) {
        Ok(Route::CompleteMultipartUpload)
    } else if method == "POST"@ && bucket.len() > 0 && key.len() == 0 && has_key(
        params,
        "delete"@,
    ) {
        Ok(Route::DeleteObjects)
    } else {
        Err(not_allowed(method))
    }
}

/// The five methods are different words.
pub proof fn lemma_methods()
    ensures
        "GET"@ != "PUT"@,
        "GET"@ != "DELETE"@,
        "GET"@ != "POST"@,
        "GET"@ != "HEAD"@,
        "PUT"@ != "DELETE"@,
        "PUT"@ != "POST"@,
        "PUT"@ != "HEAD"@,
        "DELETE"@ != "POST"@,
        "DELETE"@ != "HEAD"@,
        "POST"@ != "HEAD"@,
{
    reveal_strlit("GET");
    reveal_strlit("PUT");
    reveal_strlit("DELETE");
    reveal_strlit("POST");
    reveal_strlit("HEAD");
    assert("GET"@[0] == 'G');
    assert("PUT"@[1] == 'U');
    assert("DELETE"@[0] == 'D');
    assert("POST"@[1] == 'O');
    assert("HEAD"@[0] == 'H');
    assert("PUT"@[0] == 'P');
    assert("POST"@[0] == 'P');
}

/// Decides where a request goes. The rules are tried in order, the more specific first.
pub fn route(
    method: &str,
    bucket: &str,
    key: &str,
    params: &StringMap,
    headers: &Headers,
) -> (r: Result<Route, AwsError>)
    ensures
        match r {
            Ok(route) => route_of(method@, bucket@, key@, params@, headers@) == Ok::<
                _,
                ErrorState,
            >(route),
            Err(e) => route_of(method@, bucket@, key@, params@, headers@) == Err::<Route, _>(e@),
        },
{
    proof {
        lemma_methods();
    }
    let no_bucket = bucket.is_empty();
    let no_key = key.is_empty();
    let get = text_eq(method, "GET");
    let put = text_eq(method, "PUT");
    let delete = text_eq(method, "DELETE");
    let post = text_eq(method, "POST");
    if get && no_bucket {
        return Ok(Route::ListBuckets);
    }
    if put && no_key {
        return Ok(Route::CreateBucket);
    }
    if delete && no_key {
        return Ok(Route::DeleteBucket);
    }
    if no_bucket {
        return Err(method_not_allowed(method));
    }
    if get && no_key {
        return if params.contains_key("location") {
            Ok(Route::GetBucketLocation)
        } else {
            Ok(Route::ListObjectsV2)
        };
    }
    if post && no_key && params.contains_key("delete") {
        return Ok(Route::DeleteObjects);
    }
    if no_key {
        return Err(method_not_allowed(method));
    }
    if put {
        if let Some(source) = headers.get_text("x-amz-copy-source") {
            return match validate_copy_source(source.as_str()) {
                Ok(_) => Ok(Route::CopyObject),
                Err(e) => Err(e),
            };
        }
        if let (Some(number), Some(_)) = (params.get("partNumber"), params.get("uploadId")) {
            if let Some(n) = parse_u32(number.as_str()) {
                return Ok(Route::UploadPart(n));
            }
        }
        return Ok(Route::PutObject);
    }
    if get {
        return if params.contains_key("uploadId") {
            Ok(Route::ListParts)
        } else {
            Ok(Route::GetObject)
        };
    }
    if text_eq(method, "HEAD") {
        return Ok(Route::HeadObject);
    }
    if delete {
        return if params.contains_key("uploadId") {
            Ok(Route::AbortMultipartUpload)
        } else {
            Ok(Route::DeleteObject)
        };
    }
    if post && params.contains_key("uploads") {
        return Ok(Route::CreateMultipartUpload);
    }
    if post && params.contains_key("uploadId") {
        return Ok(Route::CompleteMultipartUpload);
    }
    Err(method_not_allowed(method))
}

/// How far the service gets with a request by itself.
#[derive(Debug)]
pub enum Step {
    /// The response is complete.
    Done(Response),
    /// The response is complete but for its document, which is to be written out.
    Render(PendingResponse),
    /// The XML text of a request that deletes several objects is to be read.
    ParseDelete { bucket: String, text: String },
}

/// What a `Step` denotes.
pub enum StepState {
    Done(ResponseState),
    Render(PendingState),
    ParseDelete { bucket: Seq<char>, text: Seq<char> },
}

impl View for Step {
    type V = StepState;

    open spec fn view(&self) -> StepState {
        match *self {
            Step::Done(response) => StepState::Done(response@),
            Step::Render(pending) => StepState::Render(pending@),
            Step::ParseDelete { bucket, text } => StepState::ParseDelete {
                bucket: bucket@,
                text: text@,
            },
        }
    }
}

/// Whether the answer is a complete response or an error.
pub open spec fn is_done(r: Result<StepState, ErrorState>) -> bool {
    match r {
        Ok(StepState::Done(_)) => true,
        Ok(_) => false,
        Err(_) => true,
    }
}

/// The answer, where it is a complete response or an error.
pub open spec fn done_answer(r: Result<StepState, ErrorState>) -> Result<
    ResponseState,
    ErrorState,
> {
    match r {
        Ok(step) => Ok(step->Done_0),
        Err(e) => Err(e),
    }
}

/// Whether the answer is a response with a document to write out, or an error.
pub open spec fn is_render(r: Result<StepState, ErrorState>) -> bool {
    match r {
        Ok(StepState::Render(_)) => true,
        Ok(_) => false,
        Err(_) => true,
    }
}

/// The answer, where it is a response with a document to write out, or an error.
pub open spec fn render_answer(r: Result<StepState, ErrorState>) -> Result<
    PendingState,
    ErrorState,
> {
    match r {
        Ok(step) => Ok(step->Render_0),
        Err(e) => Err(e),
    }
}

/// The step for a complete answer.
fn done(r: Result<Response, AwsError>) -> (s: Result<Step, AwsError>)
    ensures
        is_done(answer(s)),
        done_answer(answer(s)) == answer(r),
{
    match r {
        Ok(response) => Ok(Step::Done(response)),
        Err(e) => Err(e),
    }
}

/// The step for an answer with a document to write out.
fn render(r: Result<PendingResponse, AwsError>) -> (s: Result<Step, AwsError>)
    ensures
        is_render(answer(s)),
        render_answer(answer(s)) == answer(r),
{
    match r {
        Ok(pending) => Ok(Step::Render(pending)),
        Err(e) => Err(e),
    }
}

/// The content type that a request gives.
pub open spec fn content_type_of(fields: Fields) -> Seq<char> {
    match field_text(fields, "content-type"@) {
        Some(text) => text,
        None => "binary/octet-stream"@,
    }
}

/// Whether a copy is to have new metadata.
pub open spec fn replaces_metadata(fields: Fields) -> bool {
    match field_text(fields, "x-amz-metadata-directive"@) {
        Some(text) => ascii_lower(text) == ascii_lower("REPLACE"@),
        None => false,
    }
}

/// The metadata that a copy is to have; none where it keeps that of its source.
pub open spec fn copy_metadata(fields: Fields) -> Entries {
    if replaces_metadata(fields) {
        metadata_of(fields)
    } else {
        Seq::empty()
    }
}

/// What a request may be answered, once its bucket and key are known.
pub open spec fn may_dispatch<S: Storage>(
    pre: S,
    method: Seq<char>,
    bucket: Seq<char>,
    key: Seq<char>,
    params: Entries,
    fields: Fields,
    data: Seq<u8>,
    post: S,
    r: Result<StepState, ErrorState>,
) -> bool {
    match route_of(method, bucket, key, params, fields) {
        Err(e) => post == pre && r == Err::<StepState, _>(e),
        Ok(Route::ListBuckets) => post == pre && is_render(r) && may_list_buckets(
            pre,
            render_answer(r),
        ),
        Ok(Route::CreateBucket) => is_render(r) && may_create_bucket(
            pre,
            bucket,
            post,
            render_answer(r),
        ),
        Ok(Route::DeleteBucket) => is_done(r) && may_delete_bucket(
            pre,
            bucket,
            post,
            done_answer(r),
        ),
        Ok(Route::GetBucketLocation) => post == pre && is_render(r) && may_get_bucket_location(
            pre,
            bucket,
            render_answer(r),
        ),
        Ok(Route::DeleteObjects) => post == pre && r == (if valid_utf8(data) {
            Ok(StepState::ParseDelete { bucket, text: decode_utf8(data) })
        } else {
            Err(invalid_argument("body"@, "request body is not valid UTF-8"@))
        }),
        Ok(Route::CopyObject) => is_render(r) && may_copy_object(
            pre,
            bucket,
            key,
            field_text(fields, "x-amz-copy-source"@)->0,
            copy_metadata(fields),
            post,
            render_answer(r),
        ),
        Ok(Route::PutObject) => is_done(r) && may_put_object(
            pre,
            bucket,
            key,
            content_type_of(fields),
            metadata_of(fields),
            data,
            post,
            done_answer(r),
        ),
        Ok(Route::GetObject) => post == pre && is_done(r) && may_get_object(
            pre,
            bucket,
            key,
            done_answer(r),
        ),
        Ok(Route::HeadObject) => post == pre && is_done(r) && may_head_object(
            pre,
            bucket,
            key,
            done_answer(r),
        ),
        Ok(Route::DeleteObject) => is_done(r) && may_delete_object(
            pre,
            bucket,
            key,
            post,
            done_answer(r),
        ),
        Ok(Route::ListObjectsV2) | Ok(Route::UploadPart(_)) | Ok(Route::ListParts) | Ok(
            Route::AbortMultipartUpload,
        ) | Ok(Route::CreateMultipartUpload) | Ok(Route::CompleteMultipartUpload) => post == pre
            && r == Err::<StepState, _>(not_implemented()),
    }
}

/// Whether a copy is to have new metadata.
fn is_replace(headers: &Headers) -> (b: bool)
    ensures
        b == replaces_metadata(headers@),
{
    match headers.get_text("x-amz-metadata-directive") {
        Some(text) => same_ignoring_case(text.as_str(), "REPLACE"),
        None => false,
    }
}

/// The upload identifier that the parameters name.
fn upload_id_of(params: &StringMap) -> (s: String)
    ensures
        has_key(params@, "uploadId"@) ==> s@ == value_of(params@, "uploadId"@)->0,
{
    match params.get("uploadId") {
        Some(id) => id.clone(),
        None => String::new(),
    }
}

/// Sends a request to its handler.
pub fn dispatch<S: Storage>(
    storage: &mut S,
    method: &str,
    bucket: &str,
    key: &str,
    query: &str,
    params: &StringMap,
    headers: &Headers,
    body: Bytes,
) -> (r: Result<Step, AwsError>)
    ensures
        may_dispatch(
            *old(storage),
            method@,
            bucket@,
            key@,
            params@,
            headers@,
            bytes_of(body),
            *final(storage),
            answer(r),
        ),
{
    let chosen = match route(method, bucket, key, params, headers) {
        Ok(chosen) => chosen,
        Err(e) => {
            return Err(e);
        },
    };
    match chosen {
        Route::ListBuckets => render(handle_list_buckets(&*storage)),
        Route::CreateBucket => render(handle_create_bucket(storage, bucket)),
        Route::DeleteBucket => done(handle_delete_bucket(storage, bucket)),
        Route::GetBucketLocation => render(handle_get_bucket_location(&*storage, bucket)),
        Route::ListObjectsV2 => done(handle_list_objects_v2(&*storage, bucket, query)),
        Route::DeleteObjects => match delete_request_text(&body) {
            Ok(text) => Ok(Step::ParseDelete { bucket: bucket.to_string(), text }),
            Err(e) => Err(e),
        },
        Route::CopyObject => {
            let metadata = if is_replace(headers) {
                parse_metadata(headers)
            } else {
                StringMap::new()
            };
            let source = match headers.get_text("x-amz-copy-source") {
                Some(source) => source,
                None => String::new(),
            };
            render(handle_copy_object(storage, bucket, key, source.as_str(), metadata))
        },
        Route::UploadPart(number) => {
            let upload_id = upload_id_of(params);
            done(
                handle_upload_part(&*storage, bucket, key, number, upload_id.as_str(), body),
            )
        },
        Route::PutObject => {
            let metadata = parse_metadata(headers);
            let content_type = match headers.get_text("content-type") {
                Some(text) => text,
                None => S3Object::DEFAULT_CONTENT_TYPE.to_string(),
            };
            done(handle_put_object(storage, bucket, key, content_type.as_str(), metadata, body))
        },
        Route::ListParts => {
            let upload_id = upload_id_of(params);
            done(handle_list_parts(&*storage, bucket, key, upload_id.as_str(), query))
        },
        Route::GetObject => done(handle_get_object(&*storage, bucket, key)),
        Route::HeadObject => done(handle_head_object(&*storage, bucket, key)),
        Route::AbortMultipartUpload => {
            let upload_id = upload_id_of(params);
            done(handle_abort_multipart_upload(&*storage, bucket, key, upload_id.as_str()))
        },
        Route::DeleteObject => done(handle_delete_object(storage, bucket, key)),
        Route::CreateMultipartUpload => done(
            handle_create_multipart_upload(&*storage, bucket, key),
        ),
        Route::CompleteMultipartUpload => {
            let upload_id = upload_id_of(params);
            done(
                handle_complete_multipart_upload(
                    &*storage,
                    bucket,
                    key,
                    upload_id.as_str(),
                    body,
                ),
            )
        },
    }
}

/// Whether the body of a request is read: only where the method is PUT or POST.
pub open spec fn reads_body(method: Seq<char>) -> bool {
    method == "PUT"@ || method == "POST"@
}

/// Tells whether the body of a request is to be read.
pub fn needs_body(method: &str) -> (b: bool)
    ensures
        b == reads_body(method@),
{
    text_eq(method, "PUT") || text_eq(method, "POST")
}

/// The host that a request names.
pub open spec fn host_of(fields: Fields) -> Seq<char> {
    match field_text(fields, "host"@) {
        Some(host) => host,
        None => "localhost"@,
    }
}

/// The host that a request names.
pub fn request_host(headers: &Headers) -> (s: String)
    ensures
        s@ == host_of(headers@),
{
    match headers.get_text("host") {
        Some(host) => host,
        None => "localhost".to_string(),
    }
}

/// The query of a request; empty where it has none.
pub open spec fn query_of(request: Request) -> Seq<char> {
    match request.query {
        Some(query) => query@,
        None => ""@,
    }
}

/// Whether a request fails because its body could not be read.
pub open spec fn body_failed(request: Request, body: Result<Bytes, String>) -> bool {
    reads_body(request.method@) && body is Err
}

/// What a request may be answered by the service.
///
/// The body is read first where the method has one, then the bucket and key are found and
/// checked, then the request goes to its handler.
pub open spec fn may_handle<S: Storage>(
    pre: S,
    request: Request,
    body: Result<Bytes, String>,
    post: S,
    r: Result<StepState, ErrorState>,
) -> bool {
    let data = if reads_body(request.method@) {
        bytes_of(body->Ok_0)
    } else {
        Seq::empty()
    };
    if body_failed(request, body) {
        post == pre && r == Err::<StepState, _>(body_fault(body->Err_0@))
    } else {
        match bucket_and_key(
            without_service(request.path@, "s3"@),
            host_of(request.headers@),
        ) {
            Err(e) => post == pre && r == Err::<StepState, _>(e),
            Ok((bucket, key)) => if climbs(bucket) {
                post == pre && r == Err::<StepState, _>(invalid_argument("bucket"@, bucket))
            } else if key.len() > 0 && climbs(key) {
                post == pre && r == Err::<StepState, _>(invalid_argument("key"@, key))
            } else {
                may_dispatch(
                    pre,
                    request.method@,
                    bucket,
                    key,
                    query_parameters(query_of(request)),
                    request.headers@,
                    data,
                    post,
                    r,
                )
            },
        }
    }
}

/// The S3 service on top of a storage backend.
pub struct S3Service<S: Storage> {
    storage: S,
}

impl<S: Storage> S3Service<S> {
    /// The storage backend of the service.
    pub closed spec fn backend(&self) -> S {
        self.storage
    }

    /// A service on top of a storage backend.
    pub fn new(storage: S) -> (service: S3Service<S>)
        ensures
            service.backend() == storage,
    {
        S3Service { storage }
    }

    /// The storage backend of the service.
    pub fn storage(&self) -> (s: &S)
        ensures
            *s == self.backend(),
    {
        &self.storage
    }

    /// Handles a request, given its body as far as it was to be read.
    pub fn handle(&mut self, request: &Request, body: Result<Bytes, String>) -> (r: Result<
        Step,
        AwsError,
    >)
        requires
            body_failed(*request, body) || host_readable(host_of(request.headers@)),
        ensures
            may_handle(
                old(self).backend(),
                *request,
                body,
                final(self).backend(),
                answer(r),
            ),
    {
        let host = request_host(&request.headers);
        let path = strip_service_prefix(request.path.as_str(), "s3");
        let data = if needs_body(request.method.as_str()) {
            match body {
                Ok(bytes) => bytes,
                Err(details) => {
                    return Err(body_error(details.as_str()));
                },
            }
        } else {
            bytes_from(Vec::new())
        };
        let (bucket, key) = match resolve_bucket_or_key(path.as_str(), host.as_str()) {
            Ok(place) => place,
            Err(e) => {
                return Err(e);
            },
        };
        match validate_no_path_traversal(bucket.as_str(), "bucket") {
            Ok(_) => {},
            Err(e) => {
                return Err(e);
            },
        }
        if !key.as_str().is_empty() {
            match validate_no_path_traversal(key.as_str(), "key") {
                Ok(_) => {},
                Err(e) => {
                    return Err(e);
                },
            }
        }
        let query = match &request.query {
            Some(query) => query.clone(),
            None => "".to_string(),
        };
        let params = parse_query(query.as_str());
        dispatch(
            &mut self.storage,
            request.method.as_str(),
            bucket.as_str(),
            key.as_str(),
            query.as_str(),
            &params,
            &request.headers,
            data,
        )
    }

    /// Deletes several objects, once the XML text of the request was read.
    pub fn delete_objects(&mut self, bucket: &str, parsed: Result<DeleteRequest, String>) -> (r:
        Result<PendingResponse, AwsError>)
        ensures
            may_delete_objects(
                old(self).backend(),
                bucket@,
                delete_request(parsed),
                final(self).backend(),
                answer(r),
            ),
    {
        handle_delete_objects(&mut self.storage, bucket, parsed)
    }
}

/// A request that names a bucket or key with a segment `..` is refused, and changes nothing.
pub proof fn climbing_request_is_refused<S: Storage>(
    pre: S,
    request: Request,
    body: Result<Bytes, String>,
    post: S,
    r: Result<StepState, ErrorState>,
    bucket: Seq<char>,
    key: Seq<char>,
)
    requires
        may_handle(pre, request, body, post, r),
        !body_failed(request, body),
        bucket_and_key(
            without_service(request.path@, "s3"@),
            host_of(request.headers@),
        ) == Ok::<_, ErrorState>((bucket, key)),
        climbs(bucket) || (key.len() > 0 && climbs(key)),
    ensures
        post == pre,
        r is Err,
        crate::protocol::error::fault_status(r->Err_0.fault) == 400,
{
}

/// A method other than the five of the API is not allowed on an object, and changes nothing.
pub proof fn other_methods_are_not_allowed<S: Storage>(
    pre: S,
    method: Seq<char>,
    bucket: Seq<char>,
    key: Seq<char>,
    params: Entries,
    fields: Fields,
    data: Seq<u8>,
    post: S,
    r: Result<StepState, ErrorState>,
)
    requires
        may_dispatch(pre, method, bucket, key, params, fields, data, post, r),
        method != "GET"@,
        method != "PUT"@,
        method != "POST"@,
        method != "DELETE"@,
        method != "HEAD"@,
    ensures
        post == pre,
        r == Err::<StepState, _>(not_allowed(method)),
{
}

/// The source of a copy decides before a part number does, and a part number before a plain
/// upload: a PUT of an object is a copy wherever it names a source.
pub proof fn copy_comes_first(
    bucket: Seq<char>,
    key: Seq<char>,
    params: Entries,
    fields: Fields,
)
    requires
        bucket.len() > 0,
        key.len() > 0,
        field_text(fields, "x-amz-copy-source"@) is Some,
        copy_source(field_text(fields, "x-amz-copy-source"@)->0) is Ok,
    ensures
        route_of("PUT"@, bucket, key, params, fields) == Ok::<_, ErrorState>(Route::CopyObject),
{
    lemma_methods();
}

} // verus!
