//! Addressing: the service, bucket and key that a request is for.

use cirrus::message::Headers;
use cirrus::s3::address::{
    extract_service, resolve_address, try_extract_service_from_auth,
    try_extract_service_from_query, try_extract_service_from_target, AddressError,
};

// -- extract_service tests ------------------------------------------------

#[test]
fn test_extract_service_from_auth_header() {
    let mut headers = Headers::new();
    headers.append("authorization", b"AWS4-HMAC-SHA256 Credential=AKID/20210518/us-east-1/s3/aws4_request".to_vec());
    assert_eq!(extract_service(&headers, None), "s3");
}

#[test]
fn test_extract_service_from_auth_header_custom_service() {
    let mut headers = Headers::new();
    headers.append("authorization", b"AWS4-HMAC-SHA256 Credential=AKID/20210518/us-east-1/iam/aws4_request".to_vec());
    assert_eq!(extract_service(&headers, None), "iam");
}

#[test]
fn test_extract_service_from_x_amz_target() {
    let mut headers = Headers::new();
    headers.append("x-amz-target", b"S3_Test.Bla".to_vec());
    assert_eq!(extract_service(&headers, None), "s3");
}

#[test]
fn test_extract_service_from_x_amz_target_dynamodb() {
    let mut headers = Headers::new();
    headers.append("x-amz-target", b"DynamoDB_20120810.PutItem".to_vec());
    assert_eq!(extract_service(&headers, None), "dynamodb");
}

#[test]
fn test_extract_service_from_query() {
    let headers = Headers::new();
    assert_eq!(extract_service(&headers, Some("Service=s3")), "s3");
}

#[test]
fn test_extract_service_from_query_custom() {
    let headers = Headers::new();
    assert_eq!(
        extract_service(&headers, Some("Action=ListBuckets&Service=S3")),
        "s3"
    );
}

#[test]
fn test_extract_service_default() {
    let headers = Headers::new();
    assert_eq!(extract_service(&headers, None), "s3");
}

#[test]
fn test_extract_service_auth_takes_precedence() {
    let mut headers = Headers::new();
    headers.append("authorization", b"AWS4-HMAC-SHA256 Credential=AKID/20210518/us-east-1/iam/aws4_request".to_vec());
    headers.append("x-amz-target", b"S3_Test.Bla".to_vec());
    // Authorization should win over X-Amz-Target.
    assert_eq!(extract_service(&headers, Some("Service=ec2")), "iam");
}

#[test]
fn test_extract_service_malformed_auth_short_scope() {
    let mut headers = Headers::new();
    headers.append("authorization", b"AWS4-HMAC-SHA256 Credential=AKID/20210518".to_vec());
    // Falls through because credential scope has fewer than 4 segments.
    assert_eq!(extract_service(&headers, None), "s3");
}

#[test]
fn test_extract_service_malformed_auth_no_credential() {
    let mut headers = Headers::new();
    headers.append("authorization", b"AWS4-HMAC-SHA256 Algorithm=HMAC-SHA256".to_vec());
    assert_eq!(extract_service(&headers, None), "s3");
}

#[test]
fn test_extract_service_empty_target() {
    let mut headers = Headers::new();
    headers.append("x-amz-target", b".Operation".to_vec());
    // Prefix before '.' is empty, so fall through.
    assert_eq!(extract_service(&headers, None), "s3");
}

// -- resolve_address tests -------------------------------------------------

#[test]
fn test_path_style_bucket_key() {
    let (bucket, key) = resolve_address("s3.amazonaws.com", "/bucket/key").unwrap();
    assert_eq!(bucket, "bucket");
    assert_eq!(key, "key");
}

#[test]
fn test_path_style_key_with_subdirs() {
    let (bucket, key) = resolve_address("s3.amazonaws.com", "/bucket/path/to/key").unwrap();
    assert_eq!(bucket, "bucket");
    assert_eq!(key, "path/to/key");
}

#[test]
fn test_path_style_root_listing() {
    let (bucket, key) = resolve_address("s3.amazonaws.com", "/bucket").unwrap();
    assert_eq!(bucket, "bucket");
    assert_eq!(key, "");
}

#[test]
fn test_path_style_bucket_with_trailing_slash() {
    let (bucket, key) = resolve_address("s3.amazonaws.com", "/bucket/").unwrap();
    assert_eq!(bucket, "bucket");
    assert_eq!(key, "");
}

#[test]
fn test_virtual_hosted_bucket_key() {
    let (bucket, key) = resolve_address("bucket.s3.amazonaws.com", "/key").unwrap();
    assert_eq!(bucket, "bucket");
    assert_eq!(key, "key");
}

#[test]
fn test_virtual_hosted_key_with_subdirs() {
    let (bucket, key) =
        resolve_address("bucket.s3.amazonaws.com", "/path/to/key").unwrap();
    assert_eq!(bucket, "bucket");
    assert_eq!(key, "path/to/key");
}

#[test]
fn test_virtual_hosted_root_listing() {
    let (bucket, key) = resolve_address("bucket.s3.amazonaws.com", "/").unwrap();
    assert_eq!(bucket, "bucket");
    assert_eq!(key, "");
}

#[test]
fn test_virtual_hosted_no_path() {
    let (bucket, key) = resolve_address("bucket.s3.amazonaws.com", "").unwrap();
    assert_eq!(bucket, "bucket");
    assert_eq!(key, "");
}

#[test]
fn test_virtual_hosted_deep_path() {
    let (bucket, key) =
        resolve_address("my-bucket.s3.amazonaws.com", "/a/b/c/d").unwrap();
    assert_eq!(bucket, "my-bucket");
    assert_eq!(key, "a/b/c/d");
}

// -- URL-encoding tests ----------------------------------------------------

#[test]
fn test_url_decode_path_style_key() {
    let (bucket, key) = resolve_address("s3.amazonaws.com", "/bucket/hello%20world").unwrap();
    assert_eq!(bucket, "bucket");
    assert_eq!(key, "hello world");
}

#[test]
fn test_url_decode_path_style_bucket() {
    let (bucket, key) = resolve_address("s3.amazonaws.com", "/my%20bucket/key").unwrap();
    assert_eq!(bucket, "my bucket");
    assert_eq!(key, "key");
}

#[test]
fn test_url_decode_virtual_hosted_bucket() {
    let (bucket, key) =
        resolve_address("my%20bucket.s3.amazonaws.com", "/key").unwrap();
    assert_eq!(bucket, "my bucket");
    assert_eq!(key, "key");
}

#[test]
fn test_url_decode_virtual_hosted_key() {
    let (bucket, key) =
        resolve_address("bucket.s3.amazonaws.com", "/hello%20world").unwrap();
    assert_eq!(bucket, "bucket");
    assert_eq!(key, "hello world");
}

#[test]
fn test_url_decode_encoded_slashes() {
    // %2F is decoded to '/' by urlencoding.
    let (bucket, key) = resolve_address(
        "bucket.s3.amazonaws.com",
        "/path%2Fto%2Ffile.txt",
    )
    .unwrap();
    assert_eq!(bucket, "bucket");
    assert_eq!(key, "path/to/file.txt");
}

#[test]
fn test_url_decode_plus_is_preserved() {
    // urlencoding::decode preserves '+' literally (does not convert to space).
    let (bucket, key) = resolve_address("s3.amazonaws.com", "/bucket/hello+world").unwrap();
    assert_eq!(bucket, "bucket");
    assert_eq!(key, "hello+world");
}

// -- Error cases -----------------------------------------------------------

#[test]
fn test_error_empty_host() {
    let err = resolve_address("", "/bucket/key").unwrap_err();
    assert!(matches!(err, AddressError::MissingHost));
}

#[test]
fn test_error_path_style_no_bucket() {
    let err = resolve_address("s3.amazonaws.com", "/").unwrap_err();
    assert!(matches!(err, AddressError::MissingBucket));
}

#[test]
fn test_error_path_style_empty_path() {
    let err = resolve_address("s3.amazonaws.com", "").unwrap_err();
    assert!(matches!(err, AddressError::MissingBucket));
}

#[test]
fn test_error_invalid_url_encoding() {
    // %FF alone is an invalid UTF-8 byte (0xFF), triggering DecodeError.
    let err = resolve_address("s3.amazonaws.com", "/bucket/%FF").unwrap_err();
    assert!(matches!(err, AddressError::DecodeError(_)));
}

// -- Host with port --------------------------------------------------------

#[test]
fn test_host_with_port_path_style() {
    let (bucket, key) = resolve_address("localhost:9000", "/bucket/key").unwrap();
    assert_eq!(bucket, "bucket");
    assert_eq!(key, "key");
}

#[test]
fn test_host_with_port_virtual_hosted() {
    // 3+ host labels → virtual-hosted, bucket is the first subdomain.
    let (bucket, key) =
        resolve_address("bucket.s3.example.com:9000", "/key").unwrap();
    assert_eq!(bucket, "bucket");
    assert_eq!(key, "key");
}

#[test]
fn test_ipv6_loopback_path_style() {
    // IPv6 loopback with port, path-style request.
    let (bucket, key) =
        resolve_address("[::1]:9000", "/bucket/key").unwrap();
    assert_eq!(bucket, "bucket");
    assert_eq!(key, "key");
}

#[test]
fn test_ipv6_loopback_no_bucket() {
    // IPv6 with no bucket in path should return MissingBucket (not crash).
    let err = resolve_address("[::1]:9000", "/").unwrap_err();
    assert!(matches!(err, AddressError::MissingBucket));
}

#[test]
fn test_ipv6_loopback_no_port() {
    // IPv6 without port should also work.
    let (bucket, key) = resolve_address("[::1]", "/bucket/key").unwrap();
    assert_eq!(bucket, "bucket");
    assert_eq!(key, "key");
}

// -- Short host names (single-label) ---------------------------------------

#[test]
fn test_single_label_host_path_style() {
    // "localhost" has one label → path-style.
    let (bucket, key) = resolve_address("localhost", "/bucket/key").unwrap();
    assert_eq!(bucket, "bucket");
    assert_eq!(key, "key");
}

// -- Authorization header parsing helpers ----------------------------------

#[test]
fn test_try_extract_service_from_auth_full() {
    let result = try_extract_service_from_auth(
        "AWS4-HMAC-SHA256 Credential=AKID/20210518/us-east-1/s3/aws4_request",
    );
    assert_eq!(result, Some("s3".to_string()));
}

#[test]
fn test_try_extract_service_from_auth_minimal_scope() {
    // Exactly 4 segments (no aws4_request suffix).
    let result = try_extract_service_from_auth(
        "AWS4-HMAC-SHA256 Credential=AKID/20210518/us-east-1/s3",
    );
    assert_eq!(result, Some("s3".to_string()));
}

#[test]
fn test_try_extract_service_from_auth_too_few_segments() {
    let result = try_extract_service_from_auth(
        "AWS4-HMAC-SHA256 Credential=AKID/20210518",
    );
    assert_eq!(result, None);
}

#[test]
fn test_try_extract_service_from_auth_no_credential_token() {
    let result = try_extract_service_from_auth(
        "AWS4-HMAC-SHA256 SignedHeaders=host;x-amz-date",
    );
    assert_eq!(result, None);
}

#[test]
fn test_try_extract_service_from_target_standard() {
    assert_eq!(
        try_extract_service_from_target("S3_Test.Bla"),
        Some("s3".to_string())
    );
}

#[test]
fn test_try_extract_service_from_target_no_underscore() {
    assert_eq!(
        try_extract_service_from_target("S3.PutObject"),
        Some("s3".to_string())
    );
}

#[test]
fn test_try_extract_service_from_target_empty_prefix() {
    assert_eq!(try_extract_service_from_target(".Operation"), None);
}

#[test]
fn test_try_extract_service_from_target_no_dot() {
    assert_eq!(try_extract_service_from_target("JustAString"), Some("justastring".to_string()));
}

#[test]
fn test_try_extract_service_from_query_present() {
    assert_eq!(
        try_extract_service_from_query("Action=ListBuckets&Service=S3"),
        Some("s3".to_string())
    );
}

#[test]
fn test_try_extract_service_from_query_absent() {
    assert_eq!(try_extract_service_from_query("Action=ListBuckets"), None);
}

#[test]
fn test_try_extract_service_from_query_empty_value() {
    assert_eq!(try_extract_service_from_query("Service="), None);
}
