//! The service: helpers, the choice of a handler, and the answers to requests.

use bytes::Bytes;
use cirrus::message::{Headers, Request};
use cirrus::protocol::types::{DeleteObject, DeleteRequest};
use cirrus::s3::answers::{s3_error_to_aws, Document};
use cirrus::s3::copy_source::{validate_copy_source, validate_no_path_traversal};
use cirrus::s3::memory::DefaultStorage;
use cirrus::s3::model::S3Error;
use cirrus::s3::query::{parse_metadata, parse_query};
use cirrus::s3::service::{
    body_error, needs_body, request_host, resolve_bucket_or_key, response_error, route,
    strip_service_prefix, Route, S3Service, Step, MAX_UPLOAD_SIZE,
};

/// A request with a `Host` of `localhost`, unless another is given.
fn test_request(
    method: &str,
    path: &str,
    query: Option<&str>,
    extra_headers: Vec<(&str, &str)>,
) -> Request {
    let mut headers = Headers::new();
    let has_host = extra_headers
        .iter()
        .any(|(k, _)| k.eq_ignore_ascii_case("host"));
    if !has_host {
        headers.append("host", b"localhost".to_vec());
    }
    for (k, v) in extra_headers {
        headers.append(k, v.as_bytes().to_vec());
    }
    Request {
        method: method.to_string(),
        path: path.to_string(),
        query: query.map(|q| q.to_string()),
        headers,
    }
}

fn test_service() -> S3Service<DefaultStorage> {
    S3Service::new(DefaultStorage::new())
}

/// The status of what the service answers to a request with an empty body.
fn status_of(service: &mut S3Service<DefaultStorage>, req: &Request) -> u16 {
    match service.handle(req, Ok(Bytes::new())) {
        Ok(Step::Done(response)) => response.status,
        Ok(Step::Render(pending)) => pending.status,
        Ok(Step::ParseDelete { .. }) => panic!("a request body is to be read"),
        Err(e) => e.status_code(),
    }
}

fn assert_status(service: &mut S3Service<DefaultStorage>, req: Request, expected: u16) {
    assert_eq!(status_of(service, &req), expected);
}

fn handler_name(route: Route) -> &'static str {
    match route {
        Route::ListBuckets => "handle_list_buckets",
        Route::CreateBucket => "handle_create_bucket",
        Route::DeleteBucket => "handle_delete_bucket",
        Route::GetBucketLocation => "handle_get_bucket_location",
        Route::ListObjectsV2 => "handle_list_objects_v2",
        Route::DeleteObjects => "handle_delete_objects",
        Route::CopyObject => "handle_copy_object",
        Route::UploadPart(_) => "handle_upload_part",
        Route::PutObject => "handle_put_object",
        Route::ListParts => "handle_list_parts",
        Route::GetObject => "handle_get_object",
        Route::HeadObject => "handle_head_object",
        Route::AbortMultipartUpload => "handle_abort_multipart_upload",
        Route::DeleteObject => "handle_delete_object",
        Route::CreateMultipartUpload => "handle_create_multipart_upload",
        Route::CompleteMultipartUpload => "handle_complete_multipart_upload",
    }
}

fn assert_route(req: &Request, expected_handler: &str) {
    let host = request_host(&req.headers);
    let s3_path = strip_service_prefix(&req.path, "s3");
    let (bucket, key) = resolve_bucket_or_key(&s3_path, &host).unwrap();
    let params = parse_query(req.query.as_deref().unwrap_or(""));
    let chosen = route(&req.method, &bucket, &key, &params, &req.headers).unwrap();
    assert_eq!(handler_name(chosen), expected_handler);
}

fn assert_handler_called(
    svc: &mut S3Service<DefaultStorage>,
    req: Request,
    expected_handler: &str,
    expected_status: u16,
) {
    assert_route(&req, expected_handler);
    assert_eq!(status_of(svc, &req), expected_status);
}

// ------------------------------------------------------------------
// strip_service_prefix
// ------------------------------------------------------------------

#[test]
fn test_strip_service_prefix_with_prefix() {
    assert_eq!(
        strip_service_prefix("/s3/bucket/key", "s3"),
        "/bucket/key"
    );
}

#[test]
fn test_strip_service_prefix_root_with_service() {
    assert_eq!(strip_service_prefix("/s3", "s3"), "/");
}

#[test]
fn test_strip_service_prefix_no_prefix() {
    assert_eq!(
        strip_service_prefix("/bucket/key", "s3"),
        "/bucket/key"
    );
}

#[test]
fn test_strip_service_prefix_root() {
    assert_eq!(strip_service_prefix("/", "s3"), "/");
}

// ------------------------------------------------------------------
// parse_query
// ------------------------------------------------------------------

#[test]
fn test_parse_query_basic() {
    let map = parse_query("list-type=2&prefix=photos/&max-keys=10");
    assert_eq!(map.get("list-type").unwrap(), "2");
    assert_eq!(map.get("prefix").unwrap(), "photos/");
    assert_eq!(map.get("max-keys").unwrap(), "10");
}

#[test]
fn test_parse_query_empty() {
    let map = parse_query("");
    assert!(map.is_empty());
}

#[test]
fn test_parse_query_key_only() {
    let map = parse_query("delete");
    assert_eq!(map.get("delete").unwrap(), "");
}

#[test]
fn test_parse_query_url_encoded_values() {
    let map = parse_query("prefix=hello%20world&delimiter=%2F");
    assert_eq!(map.get("prefix").unwrap(), "hello world");
    assert_eq!(map.get("delimiter").unwrap(), "/");
}

// ------------------------------------------------------------------
// s3_error_to_aws
// ------------------------------------------------------------------

#[test]
fn test_s3_error_to_aws_no_such_bucket() {
    let err = s3_error_to_aws(S3Error::NoSuchBucket, "my-bucket", "");
    assert_eq!(err.error_code(), "NoSuchBucket");
    assert_eq!(err.status_code(), 404);
}

#[test]
fn test_s3_error_to_aws_no_such_key() {
    let err = s3_error_to_aws(S3Error::NoSuchKey, "b", "k");
    assert_eq!(err.error_code(), "NoSuchKey");
    assert_eq!(err.status_code(), 404);
}

#[test]
fn test_s3_error_to_aws_invalid_part_maps_to_internal_error() {
    let err = s3_error_to_aws(S3Error::InvalidPart, "b", "k");
    assert_eq!(err.error_code(), "InternalError");
    assert_eq!(err.status_code(), 500);
}

#[test]
fn test_s3_error_to_aws_no_such_upload() {
    let err = s3_error_to_aws(S3Error::NoSuchUpload, "b", "k");
    assert_eq!(err.error_code(), "NoSuchUpload");
    assert_eq!(err.status_code(), 404);
}

#[test]
fn test_s3_error_to_aws_bucket_already_exists() {
    let err = s3_error_to_aws(S3Error::BucketAlreadyExists, "my-bucket", "");
    assert_eq!(err.error_code(), "BucketAlreadyExists");
    assert_eq!(err.status_code(), 409);
}

#[test]
fn test_s3_error_to_aws_bucket_not_empty() {
    let err = s3_error_to_aws(S3Error::BucketNotEmpty, "my-bucket", "");
    assert_eq!(err.error_code(), "BucketNotEmpty");
    assert_eq!(err.status_code(), 409);
}

#[test]
fn test_s3_error_to_aws_invalid_part_order() {
    let err = s3_error_to_aws(S3Error::InvalidPartOrder, "b", "k");
    assert_eq!(err.error_code(), "InternalError");
    assert_eq!(err.status_code(), 500);
}

#[test]
fn test_s3_error_to_aws_entity_too_large() {
    let err = s3_error_to_aws(S3Error::EntityTooLarge, "b", "k");
    assert_eq!(err.error_code(), "EntityTooLarge");
    assert_eq!(err.status_code(), 400);
}

#[test]
fn test_s3_error_to_aws_max_capacity_exceeded() {
    let err = s3_error_to_aws(S3Error::MaxCapacityExceeded, "b", "k");
    assert_eq!(err.error_code(), "InternalError");
    assert_eq!(err.status_code(), 500);
}

// ------------------------------------------------------------------
// body_to_bytes
// ------------------------------------------------------------------

#[test]
fn test_validate_copy_source_valid() {
    let result = validate_copy_source("/source-bucket/source-key");
    assert!(result.is_ok());
}

#[test]
fn test_validate_copy_source_ssrf_http_url() {
    let result = validate_copy_source("http://169.254.169.254/latest/meta-data/");
    assert!(result.is_err());
    assert_eq!(result.unwrap_err().status_code(), 400);
}

#[test]
fn test_validate_copy_source_ssrf_https_url() {
    let result = validate_copy_source("https://internal.service/secret");
    assert!(result.is_err());
    assert_eq!(result.unwrap_err().status_code(), 400);
}

#[test]
fn test_validate_copy_source_ssrf_protocol_relative() {
    let result = validate_copy_source("//169.254.169.254/latest/meta-data/");
    assert!(result.is_err());
    assert_eq!(result.unwrap_err().status_code(), 400);
}

#[test]
fn test_validate_copy_source_missing_path() {
    let result = validate_copy_source("just-bucket");
    assert!(result.is_err());
    assert_eq!(result.unwrap_err().status_code(), 400);
}

#[test]
fn test_validate_copy_source_empty() {
    let result = validate_copy_source("");
    assert!(result.is_err());
    assert_eq!(result.unwrap_err().status_code(), 400);
}

#[test]
fn test_validate_copy_source_no_bucket() {
    let result = validate_copy_source("/");
    assert!(result.is_err());
}

#[test]
fn test_validate_copy_source_valid_no_leading_slash() {
    let result = validate_copy_source("bucket/key");
    assert!(result.is_ok());
}

// ------------------------------------------------------------------
// validate_no_path_traversal
// ------------------------------------------------------------------

#[test]
fn test_validate_no_path_traversal_allows_normal_value() {
    assert!(validate_no_path_traversal("normal-bucket", "bucket").is_ok());
}

#[test]
fn test_validate_no_path_traversal_allows_single_dot() {
    // Single '.' is harmless and allowed by S3.
    assert!(validate_no_path_traversal("bucket/./key", "key").is_ok());
}

#[test]
fn test_validate_no_path_traversal_allows_empty() {
    assert!(validate_no_path_traversal("", "key").is_ok());
}

#[test]
fn test_validate_no_path_traversal_rejects_parent_dir_at_start() {
    let err = validate_no_path_traversal("../other-bucket/secret.txt", "key").unwrap_err();
    assert_eq!(err.status_code(), 400);
    assert_eq!(err.error_code(), "InvalidArgument");
}

#[test]
fn test_validate_no_path_traversal_rejects_parent_dir_mid_key() {
    let err = validate_no_path_traversal("foo/../bar", "key").unwrap_err();
    assert_eq!(err.status_code(), 400);
    assert_eq!(err.error_code(), "InvalidArgument");
}

#[test]
fn test_validate_no_path_traversal_rejects_parent_dir_at_end() {
    let err = validate_no_path_traversal("foo/..", "key").unwrap_err();
    assert_eq!(err.status_code(), 400);
    assert_eq!(err.error_code(), "InvalidArgument");
}

#[test]
fn test_validate_no_path_traversal_rejects_bare_parent_dir() {
    let err = validate_no_path_traversal("..", "bucket").unwrap_err();
    assert_eq!(err.status_code(), 400);
    assert_eq!(err.error_code(), "InvalidArgument");
}

#[test]
fn test_validate_no_path_traversal_rejects_multiple_parent_dirs() {
    let err = validate_no_path_traversal("a/../../b", "key").unwrap_err();
    assert_eq!(err.status_code(), 400);
    assert_eq!(err.error_code(), "InvalidArgument");
}

// ------------------------------------------------------------------
// Dispatch: path traversal rejection
// ------------------------------------------------------------------

#[test]
fn test_resolve_bucket_or_key_root_path() {
    let (bucket, key) = resolve_bucket_or_key("/", "localhost").unwrap();
    assert_eq!(bucket, "");
    assert_eq!(key, "");
}

#[test]
fn test_resolve_bucket_or_key_normal_path() {
    let (bucket, key) = resolve_bucket_or_key("/bucket/key", "localhost").unwrap();
    assert_eq!(bucket, "bucket");
    assert_eq!(key, "key");
}

#[test]
fn test_resolve_bucket_or_key_path_style_host_with_port() {
    let (bucket, key) = resolve_bucket_or_key("/bucket/key", "localhost:9000").unwrap();
    assert_eq!(bucket, "bucket");
    assert_eq!(key, "key");
}

#[test]
fn test_resolve_bucket_or_key_invalid_encoding() {
    let result = resolve_bucket_or_key("/bucket/%FF", "localhost");
    assert!(result.is_err());
    let err = result.unwrap_err();
    assert_eq!(err.status_code(), 400);
    // Message should not contain internal details
    assert!(!err.message().contains("Address resolution error"));
}

#[test]
fn test_resolve_bucket_or_key_missing_host() {
    let result = resolve_bucket_or_key("/bucket/key", "");
    assert!(result.is_err());
    let err = result.unwrap_err();
    assert_eq!(err.status_code(), 400);
    assert_eq!(err.error_code(), "MissingRequestHeader");
}

// ------------------------------------------------------------------
// body_to_bytes
// ------------------------------------------------------------------

#[test]
fn test_max_upload_size_is_positive() {
    assert!(MAX_UPLOAD_SIZE > 0, "MAX_UPLOAD_SIZE must be positive");
}

#[test]
fn test_max_upload_size_is_exactly_5gb() {
    assert_eq!(MAX_UPLOAD_SIZE, 5 * 1024 * 1024 * 1024);
}

#[test]
fn test_dispatch_rejects_path_traversal_in_bucket() {
    // PUT /../key should be rejected — bucket contains ".."
    let mut svc = test_service();
    let req = test_request("PUT", "/../key", None, vec![]);
    assert_status(&mut svc, req, 400);
}

#[test]
fn test_dispatch_rejects_path_traversal_in_key() {
    // PUT /bucket/../key should be rejected — key contains ".."
    let mut svc = test_service();
    let req = test_request("PUT", "/bucket/../key", None, vec![]);
    assert_status(&mut svc, req, 400);
}

#[test]
fn test_dispatch_allows_normal_paths() {
    // Normal paths should still work.
    let mut svc = test_service();
    let req = test_request("PUT", "/my-bucket/my-key", None, vec![]);
    // Bucket does not exist → 404 NoSuchBucket (not 400 InvalidArgument).
    assert_handler_called(&mut svc, req, "handle_put_object", 404);
}

#[test]
fn test_dispatch_allows_single_dot_in_key() {
    // Single '.' in key is harmless and should be allowed.
    let mut svc = test_service();
    let req = test_request("PUT", "/my-bucket/./my-key", None, vec![]);
    assert_handler_called(&mut svc, req, "handle_put_object", 404);
}

#[test]
fn test_dispatch_allows_bucket_level_operations() {
    // Bucket-level operations (no key) should still work.
    let mut svc = test_service();
    let req = test_request("GET", "/", None, vec![]);
    assert_handler_called(&mut svc, req, "handle_list_buckets", 200);
}

#[test]
fn test_validate_copy_source_rejects_path_traversal() {
    let mut svc = test_service();
    let req = test_request(
        "PUT",
        "/dest-bucket/dest-key",
        None,
        vec![("x-amz-copy-source", "/src-bucket/../secret")],
    );
    assert_status(&mut svc, req, 400);
}

// ------------------------------------------------------------------
// Dispatch: bucket-level operations
// ------------------------------------------------------------------

#[test]
fn test_dispatch_list_buckets() {
    let mut svc = test_service();
    let req = test_request("GET", "/", None, vec![]);
    // ListBuckets succeeds with an empty list.
    assert_handler_called(&mut svc, req, "handle_list_buckets", 200);
}

#[test]
fn test_dispatch_create_bucket() {
    let mut svc = test_service();
    let req = test_request("PUT", "/my-bucket", None, vec![]);
    // CreateBucket succeeds.
    assert_handler_called(&mut svc, req, "handle_create_bucket", 200);
}

#[test]
fn test_dispatch_delete_bucket() {
    let mut svc = test_service();
    let req = test_request("DELETE", "/my-bucket", None, vec![]);
    // Bucket does not exist → 404 NoSuchBucket.
    assert_handler_called(&mut svc, req, "handle_delete_bucket", 404);
}

#[test]
fn test_dispatch_get_bucket_location() {
    let mut svc = test_service();
    let req = test_request("GET", "/my-bucket", Some("location"), vec![]);
    // GetBucketLocation returns the default region regardless of existence.
    assert_handler_called(&mut svc, req, "handle_get_bucket_location", 200);
}

#[test]
fn test_dispatch_list_objects_v2() {
    let mut svc = test_service();
    let req = test_request("GET", "/my-bucket", Some("list-type=2"), vec![]);
    // Bucket does not exist → 404 NoSuchBucket.
    assert_handler_called(&mut svc, req, "handle_list_objects_v2", 501);
}

#[test]
fn test_dispatch_list_objects_v2_plain_get() {
    // A plain GET on the bucket (no query) also routes to ListObjectsV2.
    let mut svc = test_service();
    let req = test_request("GET", "/my-bucket", None, vec![]);
    assert_handler_called(&mut svc, req, "handle_list_objects_v2", 501);
}

// ------------------------------------------------------------------
// Dispatch: object-level operations
// ------------------------------------------------------------------

#[test]
fn test_dispatch_get_object() {
    let mut svc = test_service();
    let req = test_request("GET", "/my-bucket/my-key", None, vec![]);
    // Bucket does not exist → 404 NoSuchBucket.
    assert_handler_called(&mut svc, req, "handle_get_object", 404);
}

#[test]
fn test_dispatch_head_object() {
    let mut svc = test_service();
    let req = test_request("HEAD", "/my-bucket/my-key", None, vec![]);
    assert_handler_called(&mut svc, req, "handle_head_object", 404);
}

#[test]
fn test_dispatch_put_object() {
    let mut svc = test_service();
    let req = test_request("PUT", "/my-bucket/my-key", None, vec![]);
    // Bucket does not exist → 404 NoSuchBucket.
    assert_handler_called(&mut svc, req, "handle_put_object", 404);
}

#[test]
fn test_dispatch_delete_object() {
    let mut svc = test_service();
    let req = test_request("DELETE", "/my-bucket/my-key", None, vec![]);
    assert_handler_called(&mut svc, req, "handle_delete_object", 404);
}

#[test]
fn test_dispatch_copy_object() {
    let mut svc = test_service();
    let req = test_request(
        "PUT",
        "/my-bucket/my-key",
        None,
        vec![("x-amz-copy-source", "/source-bucket/source-key")],
    );
    // Source bucket does not exist → 404 NoSuchBucket.
    assert_handler_called(&mut svc, req, "handle_copy_object", 404);
}

#[test]
fn test_dispatch_copy_object_invalid_ssrf() {
    // SSRF attempt via copy-source should be rejected with 400.
    let mut svc = test_service();
    let req = test_request(
        "PUT",
        "/my-bucket/my-key",
        None,
        vec![("x-amz-copy-source", "http://169.254.169.254/latest/meta-data/")],
    );
    assert_status(&mut svc, req, 400);
}

#[test]
fn test_dispatch_copy_object_invalid_no_slash() {
    // Copy-source value that is just a bucket name (no `/`) should be
    // rejected with 400, not forwarded to the handler.
    let mut svc = test_service();
    let req = test_request(
        "PUT",
        "/my-bucket/my-key",
        None,
        vec![("x-amz-copy-source", "just-bucket")],
    );
    assert_status(&mut svc, req, 400);
}

#[test]
fn test_dispatch_copy_object_empty() {
    // Empty copy-source should be rejected.
    let mut svc = test_service();
    let req = test_request(
        "PUT",
        "/my-bucket/my-key",
        None,
        vec![("x-amz-copy-source", "")],
    );
    assert_status(&mut svc, req, 400);
}

#[test]
fn test_dispatch_create_multipart_upload() {
    let mut svc = test_service();
    let req = test_request("POST", "/my-bucket/my-key", Some("uploads"), vec![]);
    // Bucket does not exist → 404 NoSuchBucket.
    assert_handler_called(&mut svc, req, "handle_create_multipart_upload", 501);
}

#[test]
fn test_dispatch_upload_part() {
    let mut svc = test_service();
    let req = test_request(
        "PUT",
        "/my-bucket/my-key",
        Some("partNumber=1&uploadId=test-upload-id"),
        vec![],
    );
    // Bucket does not exist → 404 NoSuchBucket.
    assert_handler_called(&mut svc, req, "handle_upload_part", 501);
}

#[test]
fn test_dispatch_complete_multipart_upload() {
    let mut svc = test_service();
    let req = test_request(
        "POST",
        "/my-bucket/my-key",
        Some("uploadId=test-upload-id"),
        vec![],
    );
    // Empty body → XML parse error → 500 XmlSerializationError.
    assert_handler_called(&mut svc, req, "handle_complete_multipart_upload", 501);
}

#[test]
fn test_dispatch_abort_multipart_upload() {
    let mut svc = test_service();
    let req = test_request(
        "DELETE",
        "/my-bucket/my-key",
        Some("uploadId=test-upload-id"),
        vec![],
    );
    // Bucket does not exist → 404 NoSuchBucket.
    assert_handler_called(&mut svc, req, "handle_abort_multipart_upload", 501);
}

#[test]
fn test_dispatch_list_parts() {
    let mut svc = test_service();
    let req = test_request(
        "GET",
        "/my-bucket/my-key",
        Some("uploadId=test-upload-id"),
        vec![],
    );
    // Bucket does not exist → 404 NoSuchBucket.
    assert_handler_called(&mut svc, req, "handle_list_parts", 501);
}

// ------------------------------------------------------------------
// Dispatch: edge cases and ordering
// ------------------------------------------------------------------

#[test]
fn test_dispatch_method_not_allowed_patch() {
    let mut svc = test_service();
    // PATCH is not an S3 method — should get 405.
    let req = test_request("PATCH", "/my-bucket/my-key", None, vec![]);
    assert_status(&mut svc, req, 405);
}

#[test]
fn test_dispatch_options_not_allowed() {
    let mut svc = test_service();
    // OPTIONS is not an S3 method — should get 405.
    let req = test_request("OPTIONS", "/my-bucket/my-key", None, vec![]);
    assert_status(&mut svc, req, 405);
}

#[test]
fn test_dispatch_copy_source_takes_priority_over_put() {
    // Copy-object (rule 5) must be checked before regular PUT (rule 6).
    let mut svc = test_service();
    let req = test_request(
        "PUT",
        "/bucket/key",
        None,
        vec![("x-amz-copy-source", "/src-bucket/src-key")],
    );
    // Source bucket does not exist → 404 NoSuchBucket.
    assert_handler_called(&mut svc, req, "handle_copy_object", 404);
}

#[test]
fn test_dispatch_put_with_partnumber_does_not_match_copy() {
    // A PUT with partNumber but WITHOUT copy-source should match
    // UploadPart (rule 12), not CopyObject.
    let mut svc = test_service();
    let req = test_request(
        "PUT",
        "/bucket/key",
        Some("partNumber=1&uploadId=uid"),
        vec![], // No x-amz-copy-source header
    );
    // Bucket does not exist → 404 NoSuchBucket.
    assert_handler_called(&mut svc, req, "handle_upload_part", 501);
}

#[test]
fn test_dispatch_put_with_partnumber_only_falls_to_put() {
    // PUT with only partNumber (no uploadId) should fall through to
    // regular PutObject (rule 6).
    let mut svc = test_service();
    let req = test_request(
        "PUT",
        "/bucket/key",
        Some("partNumber=1"),
        vec![],
    );
    // Bucket does not exist → 404 NoSuchBucket.
    assert_handler_called(&mut svc, req, "handle_put_object", 404);
}

#[test]
fn test_dispatch_put_with_invalid_partnumber_falls_to_put() {
    // PUT with invalid (non-numeric) partNumber and valid uploadId should
    // fall through to regular PutObject (rule 6) because the u32 parse
    // failure prevents UploadPart (rule 12) from matching.
    let mut svc = test_service();
    let req = test_request(
        "PUT",
        "/bucket/key",
        Some("partNumber=abc&uploadId=uid"),
        vec![],
    );
    // Bucket does not exist → 404 NoSuchBucket.
    assert_handler_called(&mut svc, req, "handle_put_object", 404);
}

#[test]
fn test_dispatch_virtual_hosted_addressing() {
    // Virtual-hosted: Host = my-bucket.localhost, path = /key
    // NOTE: "my-bucket.localhost" has only 2 labels, so classify_host_style
    // treats it as path-style → "/my-key" is the bucket, not the key.
    let mut svc = test_service();
    let req = test_request(
        "GET",
        "/my-key",
        None,
        vec![("host", "my-bucket.localhost")],
    );
    // Bucket does not exist → 404 NoSuchBucket.
    // Routes to bucket-level GET (ListObjectsV2) because the first path
    // segment is treated as the bucket in path-style addressing.
    assert_handler_called(&mut svc, req, "handle_list_objects_v2", 501);
}

#[test]
fn test_dispatch_virtual_hosted_list_buckets() {
    // Virtual-hosted listing on the root: GET / with
    // Host=my-bucket.s3.amazonaws.com → should resolve to
    // (bucket="my-bucket", key="") → bucket-level GET → ListObjectsV2
    let mut svc = test_service();
    let req = test_request(
        "GET",
        "/",
        None,
        vec![("host", "my-bucket.s3.amazonaws.com")],
    );
    assert_handler_called(&mut svc, req, "handle_list_objects_v2", 501);
}

#[test]
fn test_dispatch_get_object_with_upload_id_falls_to_list_parts() {
    // GET /bucket/key?uploadId=xxx → ListParts (rule 15),
    // NOT GetObject (rule 7).
    let mut svc = test_service();
    let req = test_request(
        "GET",
        "/bucket/key",
        Some("uploadId=uid-123"),
        vec![],
    );
    // Bucket does not exist → 404 NoSuchBucket.
    assert_handler_called(&mut svc, req, "handle_list_parts", 501);
}

#[test]
fn test_dispatch_delete_with_upload_id_falls_to_abort() {
    // DELETE /bucket/key?uploadId=xxx → AbortMultipartUpload (rule 14),
    // NOT DeleteObject (rule 9).
    let mut svc = test_service();
    let req = test_request(
        "DELETE",
        "/bucket/key",
        Some("uploadId=uid-123"),
        vec![],
    );
    // Bucket does not exist → 404 NoSuchBucket.
    assert_handler_called(&mut svc, req, "handle_abort_multipart_upload", 501);
}

#[test]
fn test_dispatch_post_with_uploads_and_upload_id() {
    // POST /bucket/key?uploads → CreateMultipartUpload (rule 11)
    let mut svc = test_service();
    let req = test_request(
        "POST",
        "/bucket/key",
        Some("uploads"),
        vec![],
    );
    // Bucket does not exist → 404 NoSuchBucket.
    assert_handler_called(&mut svc, req, "handle_create_multipart_upload", 501);
}

#[test]
fn test_dispatch_post_with_upload_id() {
    // POST /bucket/key?uploadId=xxx → CompleteMultipartUpload (rule 13)
    let mut svc = test_service();
    let req = test_request(
        "POST",
        "/bucket/key",
        Some("uploadId=uid-123"),
        vec![],
    );
    // Empty body → XML parse error → 500 XmlSerializationError.
    assert_handler_called(&mut svc, req, "handle_complete_multipart_upload", 501);
}

#[test]
fn test_dispatch_post_with_both_uploads_and_upload_id() {
    // POST /bucket/key?uploads&uploadId=X — rule 11 (?uploads) must be
    // checked BEFORE rule 13 (?uploadId), so this dispatches to
    // CreateMultipartUpload, NOT CompleteMultipartUpload.
    let mut svc = test_service();
    let req = test_request(
        "POST",
        "/bucket/key",
        Some("uploads&uploadId=test-upload-id"),
        vec![],
    );
    assert_handler_called(&mut svc, req, "handle_create_multipart_upload", 501);
}

// ------------------------------------------------------------------
// Service prefix stripping in dispatch
// ------------------------------------------------------------------

#[test]
fn test_dispatch_with_service_prefix() {
    // When the request comes through the router with /s3/ prefix,
    // the service must strip it before resolving bucket/key.
    let mut svc = test_service();
    let req = test_request("GET", "/s3/bucket/key", None, vec![]);
    // Bucket does not exist → 404 NoSuchBucket.
    assert_handler_called(&mut svc, req, "handle_get_object", 404);
}

#[test]
fn test_dispatch_with_service_prefix_list_buckets() {
    let mut svc = test_service();
    let req = test_request("GET", "/s3", None, vec![]);
    // ListBuckets succeeds with an empty list.
    assert_handler_called(&mut svc, req, "handle_list_buckets", 200);
}

// ------------------------------------------------------------------
// resolve_bucket_or_key edge cases
// ------------------------------------------------------------------

#[test]
fn test_dispatch_delete_objects() {
    let mut svc = test_service();
    let req = test_request("POST", "/my-bucket", Some("delete"), vec![]);
    assert_route(&req, "handle_delete_objects");
    match svc.handle(&req, Ok(Bytes::from("<Delete/>"))) {
        Ok(Step::ParseDelete { bucket, text }) => {
            assert_eq!(bucket, "my-bucket");
            assert_eq!(text, "<Delete/>");
        }
        other => panic!("unexpected answer: {other:?}"),
    }
    // The empty body is not a Delete document: the parser's error becomes a 400.
    let err = svc
        .delete_objects("my-bucket", Err("unexpected end of file".to_string()))
        .unwrap_err();
    assert_eq!(err.status_code(), 400);
    assert_eq!(err.error_code(), "InvalidArgument");
}

#[test]
fn test_dispatch_delete_objects_body_must_be_text() {
    let mut svc = test_service();
    let req = test_request("POST", "/my-bucket", Some("delete"), vec![]);
    let err = svc
        .handle(&req, Ok(Bytes::from(vec![0xff, 0xfe])))
        .unwrap_err();
    assert_eq!(err.error_code(), "InvalidArgument");
    assert!(err.to_xml().contains("request body is not valid UTF-8"));
}

#[test]
fn test_service_puts_gets_and_deletes() {
    let mut svc = test_service();
    assert_status(&mut svc, test_request("PUT", "/my-bucket", None, vec![]), 200);
    let put = test_request(
        "PUT",
        "/my-bucket/a%20key",
        None,
        vec![
            ("Content-Type", "text/plain"),
            ("X-Amz-Meta-Color", "Red"),
            ("x-amz-meta-color", "Blue"),
            ("x-amz-meta-Project", "Cirrus"),
        ],
    );
    match svc.handle(&put, Ok(Bytes::from("hello world"))) {
        Ok(Step::Done(response)) => {
            assert_eq!(response.status, 200);
            assert_eq!(
                response.headers[0],
                (
                    "ETag".to_string(),
                    "\"5eb63bbbe01eeed093cb22bb8f5acdc3\"".to_string()
                )
            );
            assert_eq!(response.headers[1].0, "x-amz-request-id");
            assert_eq!(response.headers[1].1.len(), 36);
            assert_eq!(response.headers[1].1.as_bytes()[14], b'4');
            assert_eq!(response.headers[2].0, "x-amz-id-2");
        }
        other => panic!("unexpected answer: {other:?}"),
    }
    let get = test_request("GET", "/s3/my-bucket/a%20key", None, vec![]);
    match svc.handle(&get, Ok(Bytes::new())) {
        Ok(Step::Done(response)) => {
            assert_eq!(response.status, 200);
            assert_eq!(response.body, Bytes::from("hello world"));
            let names: Vec<&str> = response.headers.iter().map(|h| h.0.as_str()).collect();
            assert_eq!(
                names,
                vec![
                    "Content-Type",
                    "Content-Length",
                    "ETag",
                    "Last-Modified",
                    "x-amz-request-id",
                    "x-amz-id-2",
                    "x-amz-meta-color",
                    "x-amz-meta-project",
                ]
            );
            assert_eq!(response.headers[0].1, "text/plain");
            assert_eq!(response.headers[1].1, "11");
            assert_eq!(response.headers[6].1, "Blue");
        }
        other => panic!("unexpected answer: {other:?}"),
    }
    let copy = test_request(
        "PUT",
        "/my-bucket/copy",
        None,
        vec![
            ("x-amz-copy-source", "/my-bucket/a key"),
            ("x-amz-metadata-directive", "replace"),
            ("x-amz-meta-new", "yes"),
        ],
    );
    match svc.handle(&copy, Ok(Bytes::new())) {
        Ok(Step::Render(pending)) => {
            assert_eq!(pending.status, 200);
            assert_eq!(pending.root_name(), "CopyObjectResult");
            match pending.document {
                Document::Copied(result) => {
                    assert_eq!(result.etag, "\"5eb63bbbe01eeed093cb22bb8f5acdc3\"")
                }
                other => panic!("unexpected document: {other:?}"),
            }
        }
        other => panic!("unexpected answer: {other:?}"),
    }
    let head = test_request("HEAD", "/my-bucket/copy", None, vec![]);
    match svc.handle(&head, Ok(Bytes::new())) {
        Ok(Step::Done(response)) => {
            assert!(response.body.is_empty());
            assert_eq!(
                response.headers[6],
                ("x-amz-meta-new".to_string(), "yes".to_string())
            );
            assert_eq!(response.headers.len(), 7);
        }
        other => panic!("unexpected answer: {other:?}"),
    }
    let delete = |path: &str| test_request("DELETE", path, None, vec![]);
    assert_status(&mut svc, delete("/my-bucket"), 409);
    assert_status(&mut svc, delete("/my-bucket/copy"), 204);
    assert_status(&mut svc, delete("/my-bucket/copy"), 204);
    let request = DeleteRequest {
        quiet: false,
        objects: vec![DeleteObject {
            key: "a key".to_string(),
            version_id: None,
        }],
    };
    let answer = svc.delete_objects("my-bucket", Ok(request)).unwrap();
    assert_eq!(answer.status, 200);
    assert_status(&mut svc, delete("/my-bucket"), 204);
}

#[test]
fn test_body_is_read_for_put_and_post_only() {
    assert!(needs_body("PUT"));
    assert!(needs_body("POST"));
    assert!(!needs_body("GET"));
    let mut svc = test_service();
    let req = test_request("PUT", "/my-bucket/key", None, vec![]);
    let err = svc
        .handle(&req, Err("connection reset".to_string()))
        .unwrap_err();
    assert_eq!(err.error_code(), "InternalError");
    assert!(err.message().contains("body read failed: connection reset"));
    let req = test_request("GET", "/", None, vec![]);
    assert!(svc.handle(&req, Err("connection reset".to_string())).is_ok());
}

#[test]
fn test_body_error_kinds() {
    let err = body_error("length limit exceeded");
    assert_eq!(err.error_code(), "EntityTooLarge");
    assert_eq!(err.status_code(), 400);
    let err = body_error("body read failure: connection reset");
    assert_eq!(err.error_code(), "InternalError");
    assert_eq!(err.status_code(), 500);
    assert!(err.message().contains("body read failure: connection reset"));
    let err = response_error("bad header");
    assert!(err.message().contains("response build failed: bad header"));
}

#[test]
fn test_missing_host_header_means_localhost() {
    let headers = Headers::new();
    assert_eq!(request_host(&headers), "localhost");
    let mut headers = Headers::new();
    headers.append("Host", b"example.com".to_vec());
    assert_eq!(request_host(&headers), "example.com");
    let mut headers = Headers::new();
    headers.append("Host", vec![0xff]);
    assert_eq!(request_host(&headers), "localhost");
}

#[test]
fn test_parse_query_odd_parts() {
    let map = parse_query("a=1&a=2&&=x&b=c=d&bad=%FF&%66oo");
    assert_eq!(map.get("a").unwrap(), "2");
    assert_eq!(map.get("").unwrap(), "x");
    assert_eq!(map.get("b").unwrap(), "c=d");
    assert!(map.get("bad").is_none());
    assert_eq!(map.get("foo").unwrap(), "");
    assert_eq!(map.len(), 4);
    assert_eq!(map.entry(0).0, "a");
}

#[test]
fn test_parse_metadata_takes_text_only() {
    let mut headers = Headers::new();
    headers.append("x-amz-meta-a", b"1".to_vec());
    headers.append("x-amz-meta-b", vec![0x80]);
    headers.append("x-amz-other", b"2".to_vec());
    headers.append("X-AMZ-META-", b"3".to_vec());
    let map = parse_metadata(&headers);
    assert_eq!(map.len(), 2);
    assert_eq!(map.get("a").unwrap(), "1");
    assert_eq!(map.get("").unwrap(), "3");
}

#[test]
fn test_validate_copy_source_places() {
    assert_eq!(
        validate_copy_source("/source-bucket/a/b").unwrap(),
        ("source-bucket", "a/b")
    );
    assert_eq!(validate_copy_source("b/").unwrap(), ("b", ""));
    let err = validate_copy_source("b/x/../y").unwrap_err();
    assert!(err.to_xml().contains("x/../y"));
    assert!(validate_copy_source("../k").is_err());
}

#[test]
fn test_route_part_numbers() {
    let headers = Headers::new();
    let chosen = |query: &str| {
        route("PUT", "b", "k", &parse_query(query), &headers).unwrap()
    };
    assert_eq!(chosen("partNumber=7&uploadId=u"), Route::UploadPart(7));
    assert_eq!(chosen("partNumber=%2B7&uploadId=u"), Route::UploadPart(7));
    assert_eq!(chosen("partNumber=4294967295&uploadId"), Route::UploadPart(4294967295));
    assert_eq!(chosen("partNumber=4294967296&uploadId=u"), Route::PutObject);
    assert_eq!(chosen("partNumber=-1&uploadId=u"), Route::PutObject);
    assert_eq!(chosen("partNumber=&uploadId=u"), Route::PutObject);
}

#[test]
fn test_route_without_bucket_but_with_key() {
    let headers = Headers::new();
    let params = parse_query("");
    for method in ["PUT", "DELETE", "HEAD", "POST"] {
        let err = route(method, "", "k", &params, &headers).unwrap_err();
        assert_eq!(err.error_code(), "MethodNotAllowed");
        assert_eq!(err.status_code(), 405);
        assert!(err.message().contains(method));
    }
    assert_eq!(
        route("GET", "", "k", &params, &headers).unwrap(),
        Route::ListBuckets
    );
    assert!(route("POST", "b", "", &params, &headers).is_err());
}
