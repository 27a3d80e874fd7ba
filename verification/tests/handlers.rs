//! The handlers: what they store, and what they answer.

use bytes::Bytes;
use cirrus::clock::{format_timestamp, Timestamp};
use cirrus::message::Response;
use cirrus::protocol::error::AwsError;
use cirrus::protocol::types::{
    BucketInfo, DeleteError, DeleteObject, DeleteRequest, DeletedObject, Owner, S3Object,
};
use cirrus::protocol::xml::format_etag;
use cirrus::s3::answers::{Document, PendingResponse, S3_ID_2};
use cirrus::s3::handlers::{
    handle_copy_object, handle_create_bucket, handle_delete_bucket, handle_delete_object,
    handle_delete_objects, handle_get_bucket_location, handle_get_object, handle_head_object,
    handle_list_buckets, handle_put_object, sanitize_content_type,
};
use cirrus::s3::memory::DefaultStorage;
use cirrus::s3::model::S3Error;
use cirrus::s3::storage::Storage;
use cirrus::string_map::StringMap;
use serde::ser::{SerializeSeq, SerializeStruct};
use serde::{Serialize, Serializer};

// -- Writing documents out ---------------------------------------------

struct OwnerXml<'a>(&'a Owner);

impl Serialize for OwnerXml<'_> {
    fn serialize<S: Serializer>(&self, serializer: S) -> Result<S::Ok, S::Error> {
        let mut s = serializer.serialize_struct("Owner", 2)?;
        s.serialize_field("ID", &self.0.id)?;
        s.serialize_field("DisplayName", &self.0.display_name)?;
        s.end()
    }
}

struct BucketXml<'a>(&'a BucketInfo);

impl Serialize for BucketXml<'_> {
    fn serialize<S: Serializer>(&self, serializer: S) -> Result<S::Ok, S::Error> {
        let mut s = serializer.serialize_struct("Bucket", 2)?;
        s.serialize_field("Name", &self.0.name)?;
        s.serialize_field("CreationDate", &format_timestamp(self.0.creation_date))?;
        s.end()
    }
}

struct BucketsXml<'a>(&'a [BucketInfo]);

impl Serialize for BucketsXml<'_> {
    fn serialize<S: Serializer>(&self, serializer: S) -> Result<S::Ok, S::Error> {
        let mut s = serializer.serialize_struct("Buckets", 1)?;
        let list: Vec<BucketXml> = self.0.iter().map(BucketXml).collect();
        s.serialize_field("Bucket", &list)?;
        s.end()
    }
}

struct DeletedXml<'a>(&'a DeletedObject);

impl Serialize for DeletedXml<'_> {
    fn serialize<S: Serializer>(&self, serializer: S) -> Result<S::Ok, S::Error> {
        let mut s = serializer.serialize_struct("Deleted", 2)?;
        s.serialize_field("Key", &self.0.key)?;
        if let Some(version) = &self.0.version_id {
            s.serialize_field("VersionId", version)?;
        }
        s.end()
    }
}

struct ErrorXml<'a>(&'a DeleteError);

impl Serialize for ErrorXml<'_> {
    fn serialize<S: Serializer>(&self, serializer: S) -> Result<S::Ok, S::Error> {
        let mut s = serializer.serialize_struct("Error", 4)?;
        s.serialize_field("Key", &self.0.key)?;
        s.serialize_field("Code", &self.0.code)?;
        s.serialize_field("Message", &self.0.message)?;
        if let Some(version) = &self.0.version_id {
            s.serialize_field("VersionId", version)?;
        }
        s.end()
    }
}

struct ListXml<T>(Vec<T>);

impl<T: Serialize> Serialize for ListXml<T> {
    fn serialize<S: Serializer>(&self, serializer: S) -> Result<S::Ok, S::Error> {
        let mut s = serializer.serialize_seq(Some(self.0.len()))?;
        for item in &self.0 {
            s.serialize_element(item)?;
        }
        s.end()
    }
}

struct DocumentXml<'a>(&'a Document);

impl Serialize for DocumentXml<'_> {
    fn serialize<S: Serializer>(&self, serializer: S) -> Result<S::Ok, S::Error> {
        match self.0 {
            Document::Buckets(d) => {
                let mut s = serializer.serialize_struct("ListAllMyBucketsResult", 2)?;
                s.serialize_field("Owner", &OwnerXml(&d.owner))?;
                s.serialize_field("Buckets", &BucketsXml(&d.buckets.bucket))?;
                s.end()
            }
            Document::Created(d) => {
                let mut s = serializer.serialize_struct("CreateBucketOutput", 1)?;
                s.serialize_field("Location", &d.location)?;
                s.end()
            }
            Document::Location(d) => {
                let mut s = serializer.serialize_struct("LocationConstraint", 1)?;
                s.serialize_field("$text", &d.location)?;
                s.end()
            }
            Document::Deleted(d) => {
                let mut s = serializer.serialize_struct("DeleteResult", 2)?;
                if !d.deleted.is_empty() {
                    let list: Vec<DeletedXml> = d.deleted.iter().map(DeletedXml).collect();
                    s.serialize_field("Deleted", &ListXml(list))?;
                }
                if !d.errors.is_empty() {
                    let list: Vec<ErrorXml> = d.errors.iter().map(ErrorXml).collect();
                    s.serialize_field("Error", &ListXml(list))?;
                }
                s.end()
            }
            Document::Copied(d) => {
                let mut s = serializer.serialize_struct("CopyObjectResult", 2)?;
                s.serialize_field("ETag", &d.etag)?;
                s.serialize_field("LastModified", &format_timestamp(d.last_modified))?;
                s.end()
            }
        }
    }
}

/// Writes the document of a response out.
fn finished(pending: Result<PendingResponse, AwsError>) -> Result<Response, AwsError> {
    let pending = pending?;
    let xml = quick_xml::se::to_string(&DocumentXml(&pending.document)).map_err(|e| e.to_string());
    pending.try_finish(xml).expect("a plain root tag")
}

fn finished_handle_list_buckets(storage: &DefaultStorage) -> Result<Response, AwsError> {
    finished(handle_list_buckets(storage))
}

fn finished_handle_create_bucket(
    storage: &mut DefaultStorage,
    bucket: &str,
) -> Result<Response, AwsError> {
    finished(handle_create_bucket(storage, bucket))
}

fn finished_handle_get_bucket_location(
    storage: &DefaultStorage,
    bucket: &str,
) -> Result<Response, AwsError> {
    finished(handle_get_bucket_location(storage, bucket))
}

fn finished_handle_copy_object(
    storage: &mut DefaultStorage,
    bucket: &str,
    key: &str,
    source: &str,
    metadata: StringMap,
) -> Result<Response, AwsError> {
    finished(handle_copy_object(storage, bucket, key, source, metadata))
}

fn finished_handle_delete_objects(
    storage: &mut DefaultStorage,
    bucket: &str,
    parsed: Result<DeleteRequest, String>,
) -> Result<Response, AwsError> {
    finished(handle_delete_objects(storage, bucket, parsed))
}

fn body_to_string(response: &Response) -> String {
    String::from_utf8(response.body.to_vec()).unwrap()
}

fn header(headers: &[(String, String)], name: &str) -> Option<String> {
    headers
        .iter()
        .find(|h| h.0.eq_ignore_ascii_case(name))
        .map(|h| h.1.clone())
}

// -- handle_list_buckets tests ---------------------------------------

#[test]
fn test_list_buckets_returns_valid_xml_with_empty_list() {
    let mut storage = DefaultStorage::new();
    let resp = finished_handle_list_buckets(&storage).expect("should succeed");
    assert_eq!(resp.status, 200);
    let body = body_to_string(&resp);
    assert!(body.contains("<ListAllMyBucketsResult"));
    assert!(body.contains("xmlns=\"http://s3.amazonaws.com/doc/2006-03-01/\""));
    assert!(body.contains("<Owner>"));
    assert!(body.contains("<ID>000000000000</ID>"));
    assert!(body.contains("<DisplayName>webfile</DisplayName>"));
    assert!(body.contains("<Buckets>"));
    assert!(body.contains("</Buckets>"));
}

#[test]
fn test_list_buckets_returns_created_buckets() {
    let mut storage = DefaultStorage::new();
    storage.create_bucket("alpha").unwrap();
    storage.create_bucket("beta").unwrap();

    let resp = finished_handle_list_buckets(&storage).expect("should succeed");
    assert_eq!(resp.status, 200);
    let body = body_to_string(&resp);
    assert!(body.contains("<Name>alpha</Name>"));
    assert!(body.contains("<Name>beta</Name>"));
    assert!(body.contains("<CreationDate>"));
}

// -- handle_create_bucket tests --------------------------------------

#[test]
fn test_create_bucket_returns_200_with_location_header() {
    let mut storage = DefaultStorage::new();
    let resp = finished_handle_create_bucket(&mut storage, "my-new-bucket").expect("should succeed");
    assert_eq!(resp.status, 200);
    let location = header(&resp.headers, "Location").unwrap();
    assert_eq!(location, "https://localhost:4566/my-new-bucket");
    let body = body_to_string(&resp);
    assert!(body.contains("<CreateBucketOutput"));
    assert!(body.contains("<Location>https://localhost:4566/my-new-bucket</Location>"));
}

#[test]
fn test_create_bucket_rejects_duplicate() {
    let mut storage = DefaultStorage::new();
    handle_create_bucket(&mut storage, "dup-bucket").unwrap();
    let err = handle_create_bucket(&mut storage, "dup-bucket").unwrap_err();
    assert_eq!(err.status_code(), 409);
    assert_eq!(err.error_code(), "BucketAlreadyExists");
}

#[test]
fn test_create_bucket_rejects_invalid_name_too_short() {
    let mut storage = DefaultStorage::new();
    let err = handle_create_bucket(&mut storage, "ab").unwrap_err();
    assert_eq!(err.status_code(), 400);
    assert_eq!(err.error_code(), "InvalidArgument");
}

#[test]
fn test_create_bucket_rejects_invalid_name_too_long() {
    let mut storage = DefaultStorage::new();
    let long_name = "a".repeat(64);
    let err = handle_create_bucket(&mut storage, &long_name).unwrap_err();
    assert_eq!(err.status_code(), 400);
    assert_eq!(err.error_code(), "InvalidArgument");
}

// -- handle_delete_bucket tests --------------------------------------

#[test]
fn test_delete_bucket_returns_204_on_success() {
    let mut storage = DefaultStorage::new();
    storage.create_bucket("del-me").unwrap();
    let resp = handle_delete_bucket(&mut storage, "del-me").expect("should succeed");
    assert_eq!(resp.status, 204);
}

#[test]
fn test_delete_bucket_returns_404_no_such_bucket() {
    let mut storage = DefaultStorage::new();
    let err = handle_delete_bucket(&mut storage, "nonexistent").unwrap_err();
    assert_eq!(err.status_code(), 404);
    assert_eq!(err.error_code(), "NoSuchBucket");
}

#[test]
fn test_delete_bucket_returns_409_bucket_not_empty() {
    let mut storage = DefaultStorage::new();
    storage.create_bucket("nonempty").unwrap();

    // Insert an object via the public API.
    let obj = S3Object {
        data: Bytes::from("hello"),
        etag: format_etag(b"hello"),
        content_type: "text/plain".into(),
        last_modified: Timestamp::now(),
        metadata: StringMap::new(),
    };
    storage.put_object("nonempty", "some-key", obj).unwrap();

    let err = handle_delete_bucket(&mut storage, "nonempty").unwrap_err();
    assert_eq!(err.status_code(), 409);
    assert_eq!(err.error_code(), "BucketNotEmpty");
}

// -- handle_get_bucket_location tests --------------------------------

#[test]
fn test_get_bucket_location_returns_xml_with_us_east_1() {
    let mut storage = DefaultStorage::new();
    let resp = finished_handle_get_bucket_location(&storage, "any-bucket").expect("should succeed");
    assert_eq!(resp.status, 200);
    let body = body_to_string(&resp);
    assert!(body.contains("<LocationConstraint"));
    assert!(body.contains("xmlns=\"http://s3.amazonaws.com/doc/2006-03-01/\""));
    assert!(body.contains("us-east-1"));
}

// -- handle_put_object tests -----------------------------------------

#[test]
fn test_put_object_stores_and_returns_correct_etag() {
    let mut storage = DefaultStorage::new();
    storage.create_bucket("put-test").unwrap();

    let body = Bytes::from("hello world");
    let resp = handle_put_object(&mut storage, "put-test", "hello.txt", "text/plain", StringMap::new(), body.clone())
        .expect("put_object should succeed");
    assert_eq!(resp.status, 200);

    let expected_etag = format_etag(&body);
    assert_eq!(
        header(&resp.headers, "ETag").unwrap(),
        expected_etag
    );
    assert!(header(&resp.headers, "x-amz-request-id").is_some());
    assert_eq!(
        header(&resp.headers, "x-amz-id-2").unwrap(),
        S3_ID_2
    );

    // Verify the object was actually stored.
    let result = storage
        .get_object("put-test", "hello.txt")
        .expect("stored object should be retrievable");
    assert_eq!(result.object.data, body);
    assert_eq!(result.object.content_type, "text/plain");
}

#[test]
fn test_put_object_uses_default_content_type_when_empty() {
    let mut storage = DefaultStorage::new();
    storage.create_bucket("put-test-2").unwrap();

    let body = Bytes::from("test data");
    handle_put_object(&mut storage, "put-test-2", "f", "", StringMap::new(), body)
        .expect("put_object should succeed");

    let result = storage
        .get_object("put-test-2", "f")
        .expect("object should exist");
    assert_eq!(result.object.content_type, S3Object::DEFAULT_CONTENT_TYPE);
}

#[test]
fn test_put_object_sanitizes_dangerous_content_types() {
    let mut storage = DefaultStorage::new();
    storage.create_bucket("sanitize-ct-test").unwrap();

    let dangerous_types = [
        "text/html",
        "application/xhtml+xml",
        "image/svg+xml",
        "text/javascript",
        "application/javascript",
        "application/ecmascript",
        "text/ecmascript",
        "application/xml",
    ];

    for ct in dangerous_types {
        let body = Bytes::from("content");
        handle_put_object(
            &mut storage,
            "sanitize-ct-test",
            "obj",
            ct,
            StringMap::new(),
            body,
        )
        .expect("put_object should succeed");

        let result = storage
            .get_object("sanitize-ct-test", "obj")
            .expect("object should exist");
        assert_eq!(
            result.object.content_type,
            S3Object::DEFAULT_CONTENT_TYPE,
            "content_type should be sanitized from \"{}\" to {}",
            ct,
            S3Object::DEFAULT_CONTENT_TYPE,
        );
    }
}

#[test]
fn test_put_object_preserves_safe_content_types() {
    let mut storage = DefaultStorage::new();
    storage.create_bucket("preserve-ct-test").unwrap();

    let safe_types = [
        ("application/json", "application/json"),
        ("image/png", "image/png"),
        ("text/plain; charset=utf-8", "text/plain; charset=utf-8"),
        ("application/pdf", "application/pdf"),
    ];

    for (input, expected) in safe_types {
        let body = Bytes::from("content");
        handle_put_object(
            &mut storage,
            "preserve-ct-test",
            "obj",
            input,
            StringMap::new(),
            body,
        )
        .expect("put_object should succeed");

        let result = storage
            .get_object("preserve-ct-test", "obj")
            .expect("object should exist");
        assert_eq!(
            result.object.content_type, expected,
            "safe content_type \"{}\" should pass through unchanged",
            input,
        );
    }
}

#[test]
fn test_put_object_returns_404_no_such_bucket() {
    let mut storage = DefaultStorage::new();
    let err = handle_put_object(
        &mut storage,
        "nonexistent",
        "key",
        "text/plain",
        StringMap::new(),
        Bytes::from("data"),
    )
    .unwrap_err();
    assert_eq!(err.status_code(), 404);
    assert_eq!(err.error_code(), "NoSuchBucket");
}

#[test]
fn test_put_object_with_empty_body() {
    let mut storage = DefaultStorage::new();
    storage.create_bucket("empty-put-test").unwrap();

    let body = Bytes::new();
    let resp = handle_put_object(
        &mut storage,
        "empty-put-test",
        "empty.txt",
        "text/plain",
        StringMap::new(),
        body.clone(),
    )
    .expect("put_object with empty body should succeed");
    assert_eq!(resp.status, 200);

    // MD5 of empty data.
    let expected_etag = format_etag(&body);
    assert_eq!(
        header(&resp.headers, "ETag").unwrap(),
        expected_etag
    );

    // Verify the stored body is empty and content_type is preserved.
    let result = storage
        .get_object("empty-put-test", "empty.txt")
        .expect("stored object should be retrievable");
    assert!(result.object.data.is_empty(), "stored body should be empty");
    assert_eq!(result.object.content_type, "text/plain");
}

#[test]
fn test_put_object_overwrites_existing_key() {
    let mut storage = DefaultStorage::new();
    storage.create_bucket("overwrite-test").unwrap();

    // First PUT.
    let original_body = Bytes::from("original data");
    let resp1 = handle_put_object(
        &mut storage,
        "overwrite-test",
        "file.txt",
        "text/plain",
        StringMap::new(),
        original_body.clone(),
    )
    .expect("first put_object should succeed");
    assert_eq!(resp1.status, 200);
    let original_etag = header(&resp1.headers, "ETag").unwrap().to_string();

    // Second PUT — overwrite with new data.
    let new_body = Bytes::from("overwritten data");
    let resp2 = handle_put_object(
        &mut storage,
        "overwrite-test",
        "file.txt",
        "text/plain",
        StringMap::new(),
        new_body.clone(),
    )
    .expect("second put_object should succeed");
    assert_eq!(resp2.status, 200);
    let new_etag = header(&resp2.headers, "ETag").unwrap().to_string();

    // ETags must differ because the bodies differ.
    assert_ne!(original_etag, new_etag);

    // Get the object and verify it contains the new data.
    let result = storage
        .get_object("overwrite-test", "file.txt")
        .expect("object should exist after overwrite");
    assert_eq!(
        result.object.data, new_body,
        "stored body should be the overwritten data"
    );
    assert_eq!(
        result.object.etag, new_etag,
        "stored ETag should reflect the new body"
    );
}

// -- handle_get_object tests -----------------------------------------

#[test]
fn test_get_object_returns_object_with_correct_headers_and_body() {
    let mut storage = DefaultStorage::new();
    storage.create_bucket("get-test").unwrap();

    let body = Bytes::from("hello world from get");
    handle_put_object(&mut storage, "get-test", "file.txt", "application/json", StringMap::new(), body.clone())
        .expect("put_object");

    let resp = handle_get_object(&storage, "get-test", "file.txt")
        .expect("get_object should succeed");
    assert_eq!(resp.status, 200);

    // Extract header values as owned strings before consuming the response.
    let content_type = header(&resp.headers, "Content-Type");
    let content_length = header(&resp.headers, "Content-Length");
    let etag = header(&resp.headers, "ETag");
    let last_modified = header(&resp.headers, "Last-Modified").is_some();

    let resp_body = body_to_string(&resp);

    assert_eq!(content_type.unwrap(), "application/json");
    assert_eq!(content_length.unwrap(), "20"); // "hello world from get".len() = 20
    assert_eq!(etag.unwrap(), format_etag(&body));
    assert!(last_modified);
    assert_eq!(resp_body, "hello world from get");
}

#[test]
fn test_get_object_returns_404_no_such_key() {
    let mut storage = DefaultStorage::new();
    storage.create_bucket("get-test-2").unwrap();
    let err = handle_get_object(&storage, "get-test-2", "does-not-exist")
        .unwrap_err();
    assert_eq!(err.status_code(), 404);
    assert_eq!(err.error_code(), "NoSuchKey");
}

#[test]
fn test_get_object_returns_404_no_such_bucket() {
    let mut storage = DefaultStorage::new();
    let err = handle_get_object(&storage, "no-such-bucket", "key")
        .unwrap_err();
    assert_eq!(err.status_code(), 404);
    assert_eq!(err.error_code(), "NoSuchBucket");
}

#[test]
fn test_get_object_returns_metadata_headers() {
    let mut storage = DefaultStorage::new();
    storage.create_bucket("meta-get").unwrap();

    let mut metadata = StringMap::new();
    metadata.insert("Color".into(), "Red".into());
    metadata.insert("Project".into(), "Cirrus".into());

    let body = Bytes::from("metadata test");
    handle_put_object(&mut storage, "meta-get", "meta-file.txt", "text/plain", metadata, body)
        .expect("put_object");

    let resp = handle_get_object(&storage, "meta-get", "meta-file.txt")
        .expect("get_object should succeed");

    assert_eq!(resp.status, 200);
    assert_eq!(
        header(&resp.headers, "x-amz-meta-Color").unwrap(),
        "Red"
    );
    assert_eq!(
        header(&resp.headers, "x-amz-meta-Project").unwrap(),
        "Cirrus"
    );
}

// -- handle_head_object tests ----------------------------------------

#[test]
fn test_head_object_returns_same_headers_as_get_but_empty_body() {
    let mut storage = DefaultStorage::new();
    storage.create_bucket("head-test").unwrap();

    let body = Bytes::from("head body content");
    handle_put_object(&mut storage, "head-test", "head-file.txt", "text/plain", StringMap::new(), body.clone())
        .expect("put_object");

    let resp = handle_head_object(&storage, "head-test", "head-file.txt")
        .expect("head_object should succeed");
    assert_eq!(resp.status, 200);

    // Verify headers match GET semantics.
    assert_eq!(
        header(&resp.headers, "Content-Type").unwrap(),
        "text/plain"
    );
    let content_length = header(&resp.headers, "Content-Length").unwrap().to_string();
    assert_eq!(content_length, "17"); // "head body content".len()
    assert_eq!(
        header(&resp.headers, "ETag").unwrap(),
        format_etag(&body)
    );
    assert!(header(&resp.headers, "Last-Modified").is_some());

    // Body must be empty for HEAD.
    let resp_body = body_to_string(&resp);
    assert!(resp_body.is_empty(), "HEAD response body should be empty");
}

#[test]
fn test_head_object_returns_metadata_headers() {
    let mut storage = DefaultStorage::new();
    storage.create_bucket("meta-head").unwrap();

    let mut metadata = StringMap::new();
    metadata.insert("Content-Type".into(), "image/png".into());
    metadata.insert("Author".into(), "test-user".into());

    let body = Bytes::from("head metadata");
    handle_put_object(&mut storage, "meta-head", "head-meta.txt", "text/plain", metadata, body)
        .expect("put_object");

    let resp = handle_head_object(&storage, "meta-head", "head-meta.txt")
        .expect("head_object should succeed");

    assert_eq!(resp.status, 200);
    assert_eq!(
        header(&resp.headers, "x-amz-meta-Content-Type").unwrap(),
        "image/png"
    );
    assert_eq!(
        header(&resp.headers, "x-amz-meta-Author").unwrap(),
        "test-user"
    );
}

#[test]
fn test_head_object_returns_404_no_such_key() {
    let mut storage = DefaultStorage::new();
    storage.create_bucket("head-test-2").unwrap();
    let err = handle_head_object(&storage, "head-test-2", "nope")
        .unwrap_err();
    assert_eq!(err.status_code(), 404);
    assert_eq!(err.error_code(), "NoSuchKey");
}

#[test]
fn test_head_object_returns_404_no_such_bucket() {
    let mut storage = DefaultStorage::new();
    let err = handle_head_object(&storage, "no-such-head-bucket", "key")
        .unwrap_err();
    assert_eq!(err.status_code(), 404);
    assert_eq!(err.error_code(), "NoSuchBucket");
}

#[test]
fn test_get_object_with_empty_metadata_has_no_meta_headers() {
    let mut storage = DefaultStorage::new();
    storage.create_bucket("empty-meta").unwrap();

    let body = Bytes::from("no metadata");
    handle_put_object(&mut storage, "empty-meta", "plain.txt", "text/plain", StringMap::new(), body)
        .expect("put_object");

    let resp = handle_get_object(&storage, "empty-meta", "plain.txt")
        .expect("get_object should succeed");

    // Verify no x-amz-meta-* headers are present.
    let meta_headers: Vec<_> = resp
        .headers
        .iter()
        .filter(|(name, _)| name.as_str().starts_with("x-amz-meta-"))
        .collect();
    assert!(
        meta_headers.is_empty(),
        "expected no x-amz-meta-* headers, got: {:?}",
        meta_headers
    );
}

// -- handle_delete_object tests --------------------------------------

#[test]
fn test_delete_object_returns_204_on_success() {
    let mut storage = DefaultStorage::new();
    storage.create_bucket("del-obj").unwrap();

    let body = Bytes::from("delete me");
    handle_put_object(&mut storage, "del-obj", "target.txt", "text/plain", StringMap::new(), body)
        .expect("put_object");

    let resp = handle_delete_object(&mut storage, "del-obj", "target.txt")
        .expect("delete_object should succeed");
    assert_eq!(resp.status, 204);

    // Verify the object is gone.
    let err = storage
        .get_object("del-obj", "target.txt")
        .unwrap_err();
    assert!(matches!(err, S3Error::NoSuchKey));
}

#[test]
fn test_delete_object_is_idempotent_for_missing_key() {
    let mut storage = DefaultStorage::new();
    storage.create_bucket("del-obj-idem").unwrap();

    // Delete a key that never existed — must return 204, not an error.
    let resp = handle_delete_object(&mut storage, "del-obj-idem", "never-existed")
        .expect("delete_object of missing key should succeed (idempotent)");
    assert_eq!(resp.status, 204);
}

#[test]
fn test_delete_object_twice_is_idempotent() {
    let mut storage = DefaultStorage::new();
    storage.create_bucket("del-obj-twice").unwrap();

    let body = Bytes::from("data");
    handle_put_object(&mut storage, "del-obj-twice", "k", "text/plain", StringMap::new(), body)
        .expect("put_object");

    // First delete.
    handle_delete_object(&mut storage, "del-obj-twice", "k")
        .expect("first delete");
    // Second delete — must still be 204.
    let resp = handle_delete_object(&mut storage, "del-obj-twice", "k")
        .expect("second delete should also succeed (idempotent)");
    assert_eq!(resp.status, 204);
}

#[test]
fn test_delete_object_returns_404_no_such_bucket() {
    let mut storage = DefaultStorage::new();
    let err = handle_delete_object(&mut storage, "no-such-del-bucket", "key")
        .unwrap_err();
    assert_eq!(err.status_code(), 404);
    assert_eq!(err.error_code(), "NoSuchBucket");
}

// -- handle_copy_object tests ----------------------------------------

#[test]
fn test_copy_object_returns_copy_object_result_xml() {
    let mut storage = DefaultStorage::new();
    storage.create_bucket("copy-src").unwrap();
    storage.create_bucket("copy-dst").unwrap();

    let body = Bytes::from("copy this content");
    handle_put_object(&mut storage, "copy-src", "source.txt", "text/plain", StringMap::new(), body.clone())
        .expect("put_object");

    let resp = finished_handle_copy_object(&mut storage, "copy-dst", "dest.txt", "/copy-src/source.txt", StringMap::new())
        .expect("copy_object should succeed");
    assert_eq!(resp.status, 200);

    assert_eq!(
        header(&resp.headers, "Content-Type").unwrap(),
        "application/xml"
    );

    let resp_body = body_to_string(&resp);

    // Verify CopyObjectResult XML structure.
    assert!(resp_body.contains("<CopyObjectResult"));
    assert!(resp_body.contains("xmlns=\"http://s3.amazonaws.com/doc/2006-03-01/\""));
    assert!(resp_body.contains("<ETag>"));
    assert!(resp_body.contains("<LastModified>"));
    // Must have the correct ETag value.
    let expected_etag = format_etag(&body);
    assert!(
        resp_body.contains(&format!("<ETag>{}</ETag>", expected_etag)),
        "expected ETag {} in body: {}",
        expected_etag,
        resp_body
    );

    // Verify the destination actually has the copied data.
    let dst = storage
        .get_object("copy-dst", "dest.txt")
        .expect("copied object should exist");
    assert_eq!(dst.object.data, body);
}

#[test]
fn test_copy_object_returns_404_no_such_source_bucket() {
    let mut storage = DefaultStorage::new();
    storage.create_bucket("copy-dst-404").unwrap();

    let err = handle_copy_object(
        &mut storage,
        "copy-dst-404",
        "dest.txt",
        "/no-such-src/source.txt",
        StringMap::new(),
    )
    .unwrap_err();
    assert_eq!(err.status_code(), 404);
    assert_eq!(err.error_code(), "NoSuchBucket");
    assert!(
        err.message().contains("copy-dst-404"),
        "expected message to reference the destination bucket (the context used for NoSuchBucket in copy_object), got: {}",
        err.message()
    );
}

#[test]
fn test_copy_object_returns_404_no_such_destination_bucket() {
    let mut storage = DefaultStorage::new();
    storage.create_bucket("copy-src-404-dst").unwrap();

    let body = Bytes::from("content for dest-bucket test");
    handle_put_object(
        &mut storage,
        "copy-src-404-dst",
        "source.txt",
        "text/plain",
        StringMap::new(),
        body,
    )
    .expect("put_object should succeed");

    // Do NOT create "no-such-dst-bucket".
    let err = handle_copy_object(
        &mut storage,
        "no-such-dst-bucket",
        "dest.txt",
        "/copy-src-404-dst/source.txt",
        StringMap::new(),
    )
    .unwrap_err();
    assert_eq!(err.status_code(), 404);
    assert_eq!(err.error_code(), "NoSuchBucket");
    assert!(
        err.message().contains("no-such-dst-bucket"),
        "expected message to reference the missing destination bucket, got: {}",
        err.message()
    );
}

#[test]
fn test_copy_object_rejects_invalid_copy_source() {
    let mut storage = DefaultStorage::new();

    // SSRF attempt via URL scheme.
    let err = handle_copy_object(
        &mut storage,
        "dst",
        "key",
        "http://evil.com/steal",
        StringMap::new(),
    )
    .unwrap_err();
    assert_eq!(err.status_code(), 400);
    assert_eq!(err.error_code(), "InvalidArgument");
}

#[test]
fn test_copy_object_returns_404_no_such_source_key() {
    let mut storage = DefaultStorage::new();
    storage.create_bucket("copy-src-key-test").unwrap();
    storage.create_bucket("copy-dst-key-test").unwrap();

    let err = handle_copy_object(
        &mut storage,
        "copy-dst-key-test",
        "dest.txt",
        "/copy-src-key-test/nonexistent-key",
        StringMap::new(),
    )
    .unwrap_err();
    assert_eq!(err.status_code(), 404);
    assert_eq!(err.error_code(), "NoSuchKey");
    assert!(
        err.message().contains("copy-src-key-test"),
        "expected message to reference the source bucket/key, got: {}",
        err.message()
    );
}

#[test]
fn handlers_test_copy_object_same_bucket() {
    let mut storage = DefaultStorage::new();
    storage.create_bucket("b").unwrap();

    let body = Bytes::from("same bucket copy");
    handle_put_object(&mut storage, "b", "original.txt", "text/plain", StringMap::new(), body.clone())
        .expect("put_object");

    let resp = finished_handle_copy_object(&mut storage, "b", "copy.txt", "/b/original.txt", StringMap::new())
        .expect("copy_object same bucket");
    assert_eq!(resp.status, 200);

    // Both objects should exist and have the same content.
    let orig = storage.get_object("b", "original.txt").unwrap();
    let copy = storage.get_object("b", "copy.txt").unwrap();
    assert_eq!(orig.object.data, copy.object.data);
}

// -- CopyObject metadata directive tests -----------------------------

#[test]
fn test_copy_object_with_metadata_copy() {
    let mut storage = DefaultStorage::new();
    storage.create_bucket("meta-copy-src").unwrap();
    storage.create_bucket("meta-copy-dst").unwrap();

    // PUT source object with metadata.
    let mut src_metadata = StringMap::new();
    src_metadata.insert("Color".into(), "Red".into());
    src_metadata.insert("Project".into(), "Alpha".into());

    let body = Bytes::from("metadata copy test");
    handle_put_object(
        &mut storage,
        "meta-copy-src",
        "source.txt",
        "text/plain",
        src_metadata,
        body.clone(),
    )
    .expect("put_object");

    // COPY without metadata-directive (defaults to COPY mode).
    let resp = finished_handle_copy_object(
        &mut storage,
        "meta-copy-dst",
        "dest.txt",
        "/meta-copy-src/source.txt",
        StringMap::new(), // empty = COPY mode
    )
    .expect("copy_object should succeed");
    assert_eq!(resp.status, 200);

    // Verify destination has source metadata.
    let dst = storage
        .get_object("meta-copy-dst", "dest.txt")
        .expect("copied object should exist");
    assert_eq!(
        dst.object.metadata.get("Color").map(|s| s.as_str()),
        Some("Red"),
        "COPY mode should preserve source metadata"
    );
    assert_eq!(
        dst.object.metadata.get("Project").map(|s| s.as_str()),
        Some("Alpha"),
        "COPY mode should preserve all source metadata"
    );
}

#[test]
fn test_copy_object_with_metadata_replace() {
    let mut storage = DefaultStorage::new();
    storage.create_bucket("meta-replace-src").unwrap();
    storage.create_bucket("meta-replace-dst").unwrap();

    // PUT source object with metadata.
    let mut src_metadata = StringMap::new();
    src_metadata.insert("Color".into(), "Red".into());
    src_metadata.insert("Project".into(), "Alpha".into());

    let body = Bytes::from("metadata replace test");
    handle_put_object(
        &mut storage,
        "meta-replace-src",
        "source.txt",
        "text/plain",
        src_metadata,
        body.clone(),
    )
    .expect("put_object");

    // COPY with REPLACE metadata directive — new metadata replaces source.
    let mut replace_metadata = StringMap::new();
    replace_metadata.insert("Color".into(), "Blue".into());

    let resp = finished_handle_copy_object(
        &mut storage,
        "meta-replace-dst",
        "dest.txt",
        "/meta-replace-src/source.txt",
        replace_metadata,
    )
    .expect("copy_object should succeed");
    assert_eq!(resp.status, 200);

    // Verify destination has REPLACE metadata (not source metadata).
    let dst = storage
        .get_object("meta-replace-dst", "dest.txt")
        .expect("copied object should exist");
    assert_eq!(
        dst.object.metadata.get("Color").map(|s| s.as_str()),
        Some("Blue"),
        "REPLACE mode should use new metadata"
    );
    // "Project" was in source metadata but not in REPLACE — should NOT be present.
    assert_eq!(
        dst.object.metadata.get("Project").map(|s| s.as_str()),
        None,
        "REPLACE mode should not preserve source metadata not in the replace set"
    );

    // Source object's metadata must be unchanged.
    let src = storage
        .get_object("meta-replace-src", "source.txt")
        .expect("source object should exist");
    assert_eq!(
        src.object.metadata.get("Color").map(|s| s.as_str()),
        Some("Red"),
        "REPLACE mode must not modify source object metadata"
    );
    assert_eq!(
        src.object.metadata.get("Project").map(|s| s.as_str()),
        Some("Alpha"),
        "REPLACE mode must not modify source object metadata"
    );
}

#[test]
fn test_copy_object_with_metadata_replace_overrides_all() {
    let mut storage = DefaultStorage::new();
    storage.create_bucket("meta-full-replace-src").unwrap();
    storage.create_bucket("meta-full-replace-dst").unwrap();

    // PUT source with Color=Red.
    let mut src_metadata = StringMap::new();
    src_metadata.insert("Color".into(), "Red".into());

    let body = Bytes::from("full replace test");
    handle_put_object(
        &mut storage,
        "meta-full-replace-src",
        "source.txt",
        "text/plain",
        src_metadata,
        body.clone(),
    )
    .expect("put_object");

    // COPY with REPLACE: completely replace metadata (even with empty set).
    let resp = finished_handle_copy_object(
        &mut storage,
        "meta-full-replace-dst",
        "dest.txt",
        "/meta-full-replace-src/source.txt",
        StringMap::new(), // empty map = COPY mode (not replace)
    )
    .expect("copy_object should succeed");
    assert_eq!(resp.status, 200);

    // With empty metadata, it's COPY mode — source metadata preserved.
    let dst = storage
        .get_object("meta-full-replace-dst", "dest.txt")
        .expect("copied object should exist");
    assert_eq!(
        dst.object.metadata.get("Color").map(|s| s.as_str()),
        Some("Red"),
        "Empty metadata map means COPY mode — source metadata preserved"
    );
}

// -- handle_delete_objects tests ------------------------------------

/// A request to delete objects.
fn delete_xml_body(objects: &[&str], quiet: Option<bool>) -> Result<DeleteRequest, String> {
    Ok(DeleteRequest {
        quiet: quiet.unwrap_or(false),
        objects: objects
            .iter()
            .map(|key| DeleteObject {
                key: key.to_string(),
                version_id: None,
            })
            .collect(),
    })
}

/// A request to delete one object, of a version where one is given.
fn delete_one(key: &str, version_id: Option<&str>) -> Result<DeleteRequest, String> {
    Ok(DeleteRequest {
        quiet: false,
        objects: vec![DeleteObject {
            key: key.to_string(),
            version_id: version_id.map(|v| v.to_string()),
        }],
    })
}

#[test]
fn test_delete_objects_empty_list_returns_200_with_empty_result() {
    let mut storage = DefaultStorage::new();
    storage.create_bucket("del-empty-list").unwrap();

    let body = delete_xml_body(&[], None);
    let resp = finished_handle_delete_objects(&mut storage, "del-empty-list", body)
        .expect("should succeed");
    assert_eq!(resp.status, 200);

    let resp_body = body_to_string(&resp);
    assert!(resp_body.contains("<DeleteResult"));
    assert!(resp_body.contains("xmlns=\"http://s3.amazonaws.com/doc/2006-03-01/\""));
    assert!(!resp_body.contains("<Deleted>"), "no Deleted elements expected");
    assert!(!resp_body.contains("<Error>"), "no Error elements expected");
}

#[test]
fn test_delete_objects_single_object_success() {
    let mut storage = DefaultStorage::new();
    storage.create_bucket("del-single-obj").unwrap();

    let body_data = Bytes::from("data");
    handle_put_object(
        &mut storage,
        "del-single-obj",
        "k1",
        "text/plain",
        StringMap::new(),
        body_data,
    )
    .expect("put_object");

    let req_body = delete_xml_body(&["k1"], None);
    let resp = finished_handle_delete_objects(&mut storage, "del-single-obj", req_body)
        .expect("should succeed");
    assert_eq!(resp.status, 200);

    // Object is gone from storage.
    let err = storage
        .get_object("del-single-obj", "k1")
        .unwrap_err();
    assert!(matches!(err, S3Error::NoSuchKey));

    let resp_body = body_to_string(&resp);
    assert!(resp_body.contains("<Deleted>"));
    assert!(resp_body.contains("<Key>k1</Key>"));
}

#[test]
fn test_delete_objects_multiple_objects_all_succeed() {
    let mut storage = DefaultStorage::new();
    storage.create_bucket("del-multi-all").unwrap();

    for key in &["a.txt", "b.txt", "c.txt"] {
        handle_put_object(
            &mut storage,
            "del-multi-all",
            key,
            "text/plain",
            StringMap::new(),
            Bytes::from("data"),
        )
        .expect("put_object");
    }

    let req_body = delete_xml_body(&["a.txt", "b.txt", "c.txt"], None);
    let resp = finished_handle_delete_objects(&mut storage, "del-multi-all", req_body)
        .expect("should succeed");
    assert_eq!(resp.status, 200);

    let resp_body = body_to_string(&resp);
    assert_eq!(resp_body.matches("<Deleted>").count(), 3);
    assert!(resp_body.contains("<Key>a.txt</Key>"));
    assert!(resp_body.contains("<Key>b.txt</Key>"));
    assert!(resp_body.contains("<Key>c.txt</Key>"));

    // All objects gone from storage.
    for key in &["a.txt", "b.txt", "c.txt"] {
        let err = storage.get_object("del-multi-all", key).unwrap_err();
        assert!(matches!(err, S3Error::NoSuchKey));
    }
}

#[test]
fn test_delete_objects_quiet_mode_suppresses_deleted() {
    let mut storage = DefaultStorage::new();
    storage.create_bucket("del-quiet-mode").unwrap();

    handle_put_object(
        &mut storage,
        "del-quiet-mode",
        "quiet-key",
        "text/plain",
        StringMap::new(),
        Bytes::from("data"),
    )
    .expect("put_object");

    let req_body = delete_xml_body(&["quiet-key"], Some(true));
    let resp = finished_handle_delete_objects(&mut storage, "del-quiet-mode", req_body)
        .expect("should succeed");
    assert_eq!(resp.status, 200);

    let resp_body = body_to_string(&resp);
    assert!(
        !resp_body.contains("<Deleted>"),
        "Quiet mode should suppress Deleted entries"
    );
    assert!(!resp_body.contains("<Error>"), "No errors expected");
}

#[test]
fn test_delete_objects_non_quiet_mode_includes_deleted() {
    let mut storage = DefaultStorage::new();
    storage.create_bucket("del-nonquiet-mode").unwrap();

    handle_put_object(
        &mut storage,
        "del-nonquiet-mode",
        "visible-key",
        "text/plain",
        StringMap::new(),
        Bytes::from("data"),
    )
    .expect("put_object");

    let req_body = delete_xml_body(&["visible-key"], Some(false));
    let resp = finished_handle_delete_objects(&mut storage, "del-nonquiet-mode", req_body)
        .expect("should succeed");
    assert_eq!(resp.status, 200);

    let resp_body = body_to_string(&resp);
    assert!(
        resp_body.contains("<Deleted>"),
        "Non-Quiet mode should include Deleted entries"
    );
    assert!(resp_body.contains("<Key>visible-key</Key>"));
}

#[test]
fn test_delete_objects_quiet_default_is_false() {
    // When <Quiet> is absent, default is false (Deleted entries shown).
    let mut storage = DefaultStorage::new();
    storage.create_bucket("del-quiet-default").unwrap();

    handle_put_object(
        &mut storage,
        "del-quiet-default",
        "default-key",
        "text/plain",
        StringMap::new(),
        Bytes::from("data"),
    )
    .expect("put_object");

    let req_body = delete_xml_body(&["default-key"], None); // No Quiet element
    let resp = finished_handle_delete_objects(&mut storage, "del-quiet-default", req_body)
        .expect("should succeed");
    assert_eq!(resp.status, 200);

    let resp_body = body_to_string(&resp);
    assert!(
        resp_body.contains("<Deleted>"),
        "Default Quiet=false should include Deleted entries"
    );
}

#[test]
fn test_delete_objects_partial_failures_mix_success_and_error() {
    let mut storage = DefaultStorage::new();
    storage.create_bucket("del-partial-fail").unwrap();

    // Only "exists" is in storage; "missing" is not.
    handle_put_object(
        &mut storage,
        "del-partial-fail",
        "exists",
        "text/plain",
        StringMap::new(),
        Bytes::from("data"),
    )
    .expect("put_object");

    let req_body = delete_xml_body(&["exists", "missing"], None);
    let resp = finished_handle_delete_objects(&mut storage, "del-partial-fail", req_body)
        .expect("should succeed");
    assert_eq!(resp.status, 200);

    let resp_body = body_to_string(&resp);
    assert_eq!(
        resp_body.matches("<Deleted>").count(),
        1,
        "expected 1 Deleted entry"
    );
    assert_eq!(
        resp_body.matches("<Error>").count(),
        1,
        "expected 1 Error entry"
    );
    assert!(resp_body.contains("<Key>exists</Key>"));
    assert!(resp_body.contains("<Key>missing</Key>"));
    assert!(resp_body.contains("<Code>NoSuchKey</Code>"));
}

#[test]
fn test_delete_objects_all_failures_only_error_entries() {
    let mut storage = DefaultStorage::new();
    storage.create_bucket("del-all-fail").unwrap();

    let req_body = delete_xml_body(&["nope1", "nope2"], None);
    let resp = finished_handle_delete_objects(&mut storage, "del-all-fail", req_body)
        .expect("should succeed");
    assert_eq!(resp.status, 200);

    let resp_body = body_to_string(&resp);
    assert!(
        !resp_body.contains("<Deleted>"),
        "no Deleted entries expected"
    );
    assert_eq!(
        resp_body.matches("<Error>").count(),
        2,
        "expected 2 Error entries"
    );
    assert!(resp_body.contains("<Code>NoSuchKey</Code>"));
}

#[test]
fn test_delete_objects_returns_404_no_such_bucket() {
    let mut storage = DefaultStorage::new();
    // No bucket created.

    let req_body = delete_xml_body(&["key1"], None);
    let resp = finished_handle_delete_objects(&mut storage, "nonexistent-bucket", req_body)
        .expect("should return 200 with per-key errors per S3 spec");
    assert_eq!(resp.status, 200);

    let resp_body = body_to_string(&resp);
    assert!(
        !resp_body.contains("<Deleted>"),
        "no Deleted entries expected"
    );
    assert_eq!(
        resp_body.matches("<Error>").count(),
        1,
        "expected 1 Error entry"
    );
    assert!(resp_body.contains("<Code>NoSuchBucket</Code>"));
    assert!(resp_body.contains("<Key>key1</Key>"));
}

#[test]
fn test_delete_objects_all_no_such_bucket_multiple_keys() {
    let mut storage = DefaultStorage::new();
    // No bucket created — all keys get per-key NoSuchBucket errors.

    let req_body = delete_xml_body(&["alpha", "beta", "gamma"], None);
    let resp = finished_handle_delete_objects(&mut storage, "missing-bucket", req_body)
        .expect("should return 200 with per-key errors per S3 spec");
    assert_eq!(resp.status, 200);

    let resp_body = body_to_string(&resp);
    assert!(
        !resp_body.contains("<Deleted>"),
        "no Deleted entries expected"
    );
    assert_eq!(
        resp_body.matches("<Error>").count(),
        3,
        "expected 3 Error entries (one per key)"
    );
    assert!(resp_body.contains("<Key>alpha</Key>"));
    assert!(resp_body.contains("<Key>beta</Key>"));
    assert!(resp_body.contains("<Key>gamma</Key>"));
    assert!(resp_body.contains("<Code>NoSuchBucket</Code>"));
}

#[test]
fn test_delete_objects_malformed_xml_returns_error() {
    let mut storage = DefaultStorage::new();
    storage.create_bucket("del-malformed").unwrap();

    let body = Err("not valid xml at all".to_string());
    let err = handle_delete_objects(&mut storage, "del-malformed", body)
        .unwrap_err();
    assert_eq!(err.status_code(), 400);
    assert_eq!(err.error_code(), "InvalidArgument");
}

#[test]
fn test_delete_objects_empty_body_returns_error() {
    let mut storage = DefaultStorage::new();
    storage.create_bucket("del-empty-body").unwrap();

    let body = Err("unexpected end of file".to_string());
    let err = handle_delete_objects(&mut storage, "del-empty-body", body)
        .unwrap_err();
    assert_eq!(err.status_code(), 400);
    assert_eq!(err.error_code(), "InvalidArgument");
}

#[test]
fn test_delete_objects_with_version_id_is_echoed_in_response() {
    // Per S3 spec, the VersionId from the request must be echoed back
    // in the <Deleted> element of the response.
    let mut storage = DefaultStorage::new();
    storage.create_bucket("del-versioned").unwrap();

    handle_put_object(
        &mut storage,
        "del-versioned",
        "v-key",
        "text/plain",
        StringMap::new(),
        Bytes::from("data"),
    )
    .expect("put_object");

    let xml = delete_one("v-key", Some("abc123"));
    let resp = finished_handle_delete_objects(&mut storage, "del-versioned", xml)
        .expect("should succeed with version_id present");
    assert_eq!(resp.status, 200);

    let resp_body = body_to_string(&resp);
    assert!(
        resp_body.contains("<VersionId>abc123</VersionId>"),
        "VersionId should be echoed in response: {resp_body}"
    );
    assert!(resp_body.contains("<Key>v-key</Key>"));
}

#[test]
fn test_delete_objects_version_id_echoed_in_nosuchkey_error() {
    // Per S3 spec, VersionId from the request must be echoed back
    // in <Error> elements when the key doesn't exist.
    let mut storage = DefaultStorage::new();
    storage.create_bucket("del-versioned-error").unwrap();

    // Delete a non-existent key with a VersionId — should get a NoSuchKey error
    // that echoes the VersionId back.
    let xml = delete_one("no-such-key", Some("ver-999"));
    let resp = finished_handle_delete_objects(&mut storage, "del-versioned-error", xml)
        .expect("should succeed with per-key error");
    assert_eq!(resp.status, 200);

    let resp_body = body_to_string(&resp);
    assert!(
        resp_body.contains("<VersionId>ver-999</VersionId>"),
        "VersionId should be echoed in error response: {resp_body}"
    );
    assert!(resp_body.contains("<Code>NoSuchKey</Code>"));
    assert!(resp_body.contains("<Key>no-such-key</Key>"));
}

#[test]
fn test_delete_objects_version_id_absent_when_request_has_none() {
    // When the request has no VersionId, the response should not include
    // a <VersionId> element (skip_serializing_if handles this).
    let mut storage = DefaultStorage::new();
    storage.create_bucket("del-no-version").unwrap();

    handle_put_object(
        &mut storage,
        "del-no-version",
        "plain-key",
        "text/plain",
        StringMap::new(),
        Bytes::from("data"),
    )
    .expect("put_object");

    let xml = delete_one("plain-key", None);
    let resp = finished_handle_delete_objects(&mut storage, "del-no-version", xml)
        .expect("should succeed");
    assert_eq!(resp.status, 200);

    let resp_body = body_to_string(&resp);
    assert!(
        !resp_body.contains("<VersionId>"),
        "VersionId should not appear when request has none: {resp_body}"
    );
    assert!(resp_body.contains("<Key>plain-key</Key>"));
}

#[test]
fn test_delete_objects_over_1000_returns_invalid_argument() {
    let mut storage = DefaultStorage::new();

    // 1001 keys — exceeds the 1000-key limit.
    let keys: Vec<String> = (0..1001).map(|i| format!("k-{}", i)).collect();
    let key_refs: Vec<&str> = keys.iter().map(|s| s.as_str()).collect();
    let body = delete_xml_body(&key_refs, None);

    let err = handle_delete_objects(&mut storage, "some-bucket", body)
        .unwrap_err();
    assert_eq!(err.status_code(), 400);
    assert_eq!(err.error_code(), "InvalidArgument");
    // The XML response should carry the Limit message.
    let xml = err.to_xml();
    assert!(xml.contains("must not exceed 1000"));
}

#[test]
fn test_delete_objects_exactly_1000_succeeds() {
    let mut storage = DefaultStorage::new();
    storage.create_bucket("del-1000").unwrap();

    let keys: Vec<String> = (0..1000).map(|i| format!("k-{}", i)).collect();
    let key_refs: Vec<&str> = keys.iter().map(|s| s.as_str()).collect();
    let body = delete_xml_body(&key_refs, None);

    let resp = finished_handle_delete_objects(&mut storage, "del-1000", body)
        .expect("1000 keys should be allowed");
    assert_eq!(resp.status, 200);
}

#[test]
fn test_delete_objects_999_succeeds() {
    let mut storage = DefaultStorage::new();
    storage.create_bucket("del-999").unwrap();

    let keys: Vec<String> = (0..999).map(|i| format!("k-{}", i)).collect();
    let key_refs: Vec<&str> = keys.iter().map(|s| s.as_str()).collect();
    let body = delete_xml_body(&key_refs, None);

    let resp = finished_handle_delete_objects(&mut storage, "del-999", body)
        .expect("999 keys should be allowed");
    assert_eq!(resp.status, 200);
}

#[test]
fn test_bucket_name_length_is_counted_in_bytes() {
    let mut storage = DefaultStorage::new();
    assert!(handle_create_bucket(&mut storage, "\u{e9}a").is_ok());
    assert!(handle_create_bucket(&mut storage, &"\u{e9}".repeat(32)).is_err());
    assert!(handle_create_bucket(&mut storage, &"a".repeat(63)).is_ok());
}

#[test]
fn test_sanitize_content_type_looks_past_white_space() {
    assert_eq!(sanitize_content_type(" \ttext/html; charset=utf-8"), "binary/octet-stream");
    assert_eq!(sanitize_content_type("   "), "binary/octet-stream");
    assert_eq!(sanitize_content_type(" image/png "), " image/png ");
    assert_eq!(sanitize_content_type("TEXT/HTML"), "TEXT/HTML");
    assert_eq!(sanitize_content_type("application/xml-dtd"), "binary/octet-stream");
}

#[test]
fn test_document_that_cannot_be_written_is_an_error() {
    let storage = DefaultStorage::new();
    let pending = handle_list_buckets(&storage).unwrap();
    let err = pending.finish(Err("broken".to_string())).unwrap_err();
    let odd = handle_list_buckets(&storage).unwrap();
    assert!(odd
        .try_finish(Ok("<ListAllMyBucketsResult a=\"\u{e9}\">".to_string()))
        .is_none());
    assert_eq!(err.error_code(), "XmlSerializationError");
    assert_eq!(err.status_code(), 500);
}

#[test]
fn test_delete_objects_internal_errors_are_not_told_apart() {
    let request = DeleteObject { key: "k".to_string(), version_id: None };
    let answer = cirrus::s3::answers::answer_delete_objects(
        &vec![request],
        &vec![Err(S3Error::MaxCapacityExceeded)],
        true,
        "the-id",
    );
    assert_eq!(header(&answer.headers, "x-amz-request-id").unwrap(), "the-id");
    match answer.document {
        Document::Deleted(d) => {
            assert!(d.deleted.is_empty());
            assert_eq!(d.errors[0].code, "InternalError");
            assert_eq!(
                d.errors[0].message,
                "We encountered an internal error. Please try again."
            );
        }
        other => panic!("unexpected document: {other:?}"),
    }
}
