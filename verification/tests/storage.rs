//! The storage backend that keeps all in memory.

use bytes::Bytes;
use cirrus::clock::Timestamp;
use cirrus::protocol::types::{Part, S3Object};
use cirrus::protocol::xml::format_etag;
use cirrus::s3::memory::DefaultStorage;
use cirrus::s3::model::{
    S3Error, CIRRUS_MAX_BUCKETS, CIRRUS_MAX_MULTIPART_UPLOADS, CIRRUS_MAX_OBJECTS_PER_BUCKET,
};
use cirrus::s3::storage::{Bucket, Storage};
use cirrus::string_map::StringMap;
use std::sync::{Arc, Mutex};

fn test_storage() -> DefaultStorage {
    DefaultStorage::new()
}

fn test_s3_object(data: &[u8]) -> S3Object {
    S3Object {
        data: Bytes::copy_from_slice(data),
        etag: format_etag(data),
        content_type: "binary/octet-stream".to_string(),
        last_modified: Timestamp::now(),
        metadata: StringMap::new(),
    }
}

fn with_bucket(storage: &mut DefaultStorage, name: &str) -> Bucket {
    storage
        .create_bucket(name)
        .expect("create_bucket should succeed")
}

// -- Bucket operation tests ------------------------------------------

#[test]
fn test_create_bucket() {
    let mut storage = test_storage();
    let bucket = with_bucket(&mut storage, "test-bucket");
    assert_eq!(bucket.name, "test-bucket");
    assert!(storage.has_bucket("test-bucket"));
}

#[test]
fn test_create_bucket_duplicate() {
    let mut storage = test_storage();
    with_bucket(&mut storage, "dup-bucket");
    let err = storage.create_bucket("dup-bucket").unwrap_err();
    assert!(matches!(err, S3Error::BucketAlreadyExists));
}

#[test]
fn test_create_bucket_max_capacity() {
    let mut storage = test_storage();
    // Fill up to the limit.
    for i in 0..CIRRUS_MAX_BUCKETS {
        let name = format!("bucket-{}", i);
        if storage.has_bucket(&name) {
            continue;
        }
        storage.create_bucket(&name).unwrap();
    }
    // One more should fail.
    let err = storage
        .create_bucket("overflow")
        .unwrap_err();
    assert!(matches!(err, S3Error::MaxCapacityExceeded));
}

#[test]
fn test_delete_bucket() {
    let mut storage = test_storage();
    with_bucket(&mut storage, "del-bucket");
    storage
        .delete_bucket("del-bucket")
        .expect("delete_bucket should succeed");
    assert!(!storage.has_bucket("del-bucket"));
}

#[test]
fn test_delete_bucket_not_empty() {
    let mut storage = test_storage();
    with_bucket(&mut storage, "nonempty");
    let obj = test_s3_object(b"hello");
    storage.put_object("nonempty", "some-key", obj).unwrap();
    let err = storage
        .delete_bucket("nonempty")
        .unwrap_err();
    assert!(matches!(err, S3Error::BucketNotEmpty));
}

#[test]
fn test_delete_bucket_nonexistent() {
    let mut storage = test_storage();
    let err = storage
        .delete_bucket("nope")
        .unwrap_err();
    assert!(matches!(err, S3Error::NoSuchBucket));
}

#[test]
fn test_list_buckets() {
    let mut storage = test_storage();
    let names = ["alpha", "beta", "gamma"];
    for name in &names {
        with_bucket(&mut storage, name);
    }
    let buckets = storage
        .list_buckets()
        .expect("list_buckets should succeed");
    let mut got: Vec<&str> = buckets.iter().map(|b| b.name.as_str()).collect();
    got.sort();
    assert_eq!(got, vec!["alpha", "beta", "gamma"]);
}

#[test]
fn test_get_bucket_location() {
    let mut storage = test_storage();
    let loc = storage
        .get_bucket_location("any-bucket")
        .expect("get_bucket_location should succeed");
    assert_eq!(loc, "us-east-1");
}

// -- Object operation tests ------------------------------------------

#[test]
fn test_put_and_get_object() {
    let mut storage = test_storage();
    with_bucket(&mut storage, "obj-bucket");
    let obj = test_s3_object(b"hello world");
    storage
        .put_object("obj-bucket", "hello.txt", obj.clone())
        .expect("put_object should succeed");
    let result = storage
        .get_object("obj-bucket", "hello.txt")
        .expect("get_object should succeed");
    assert_eq!(result.object.data, b"hello world"[..]);
    assert_eq!(result.object.etag, obj.etag);
}

#[test]
fn test_get_object_nonexistent_key() {
    let mut storage = test_storage();
    with_bucket(&mut storage, "obj-bucket");
    let err = storage
        .get_object("obj-bucket", "nope")
        .unwrap_err();
    assert!(matches!(err, S3Error::NoSuchKey));
}

#[test]
fn test_head_object() {
    let mut storage = test_storage();
    with_bucket(&mut storage, "head-bucket");
    let obj = test_s3_object(b"head data");
    storage
        .put_object("head-bucket", "head.txt", obj.clone())
        .expect("put_object");
    let result = storage
        .head_object("head-bucket", "head.txt")
        .expect("head_object should succeed");
    assert_eq!(result.object.etag, obj.etag);
}

#[test]
fn test_delete_object() {
    let mut storage = test_storage();
    with_bucket(&mut storage, "del-obj-bucket");
    let obj = test_s3_object(b"delete me");
    storage
        .put_object("del-obj-bucket", "del.txt", obj)
        .expect("put_object");
    storage
        .delete_object("del-obj-bucket", "del.txt")
        .expect("delete_object should succeed");
    let err = storage
        .get_object("del-obj-bucket", "del.txt")
        .unwrap_err();
    assert!(matches!(err, S3Error::NoSuchKey));
}

#[test]
fn test_copy_object() {
    let mut storage = test_storage();
    with_bucket(&mut storage, "src");
    with_bucket(&mut storage, "dst");
    let obj = test_s3_object(b"copy content");
    storage
        .put_object("src", "source.txt", obj)
        .expect("put_object");
    storage
        .copy_object("src", "source.txt", "dst", "dest.txt", &StringMap::new())
        .expect("copy_object should succeed");
    let result = storage
        .get_object("dst", "dest.txt")
        .expect("get_object of copy");
    assert_eq!(result.object.data, b"copy content"[..]);
}

#[test]
fn storage_test_copy_object_same_bucket() {
    let mut storage = test_storage();
    with_bucket(&mut storage, "b");
    let obj = test_s3_object(b"same bucket copy");
    storage
        .put_object("b", "original.txt", obj)
        .expect("put_object");
    storage
        .copy_object("b", "original.txt", "b", "copy.txt", &StringMap::new())
        .expect("copy_object same bucket");
    let orig = storage.get_object("b", "original.txt").unwrap();
    let copy = storage.get_object("b", "copy.txt").unwrap();
    assert_eq!(orig.object.data, copy.object.data);
}

#[test]
fn test_list_objects_v2_simple() {
    let mut storage = test_storage();
    with_bucket(&mut storage, "list-bucket");
    let keys = ["a.txt", "b.txt", "c.txt"];
    for key in &keys {
        storage
            .put_object("list-bucket", key, test_s3_object(b"data"))
            .expect("put_object");
    }
    let list = storage
        .list_objects_v2("list-bucket", "", "", "", 1000, "")
        .expect("list_objects_v2");
    assert!(!list.is_truncated);
    assert_eq!(list.contents.len(), 3);
    assert_eq!(list.contents[0].key, "a.txt");
}

#[test]
fn test_list_objects_v2_prefix() {
    let mut storage = test_storage();
    with_bucket(&mut storage, "pref-bucket");
    for key in &["photos/sunset.jpg", "photos/vacation.jpg", "notes.txt"] {
        storage
            .put_object("pref-bucket", key, test_s3_object(b"data"))
            .expect("put_object");
    }
    let list = storage
        .list_objects_v2("pref-bucket", "photos/", "", "", 1000, "")
        .expect("list_objects_v2");
    assert_eq!(list.contents.len(), 2);
    assert!(list.contents.iter().all(|c| c.key.starts_with("photos/")));
}

#[test]
fn test_list_objects_v2_delimiter() {
    let mut storage = test_storage();
    with_bucket(&mut storage, "delim-bucket");
    for key in &["a/b/c.txt", "a/b/d.txt", "a/e.txt", "f.txt"] {
        storage
            .put_object("delim-bucket", key, test_s3_object(b"data"))
            .expect("put_object");
    }
    let list = storage
        .list_objects_v2("delim-bucket", "", "/", "", 1000, "")
        .expect("list_objects_v2");
    // With "" prefix and "/" delimiter: common prefixes should be "a/" and
    // "f.txt" should be a direct object.
    assert_eq!(list.common_prefixes.len(), 1, "expected 1 common prefix");
    assert_eq!(list.common_prefixes[0].prefix, "a/");
    assert_eq!(list.contents.len(), 1);
    assert_eq!(list.contents[0].key, "f.txt");
}

#[test]
fn test_list_objects_v2_pagination() {
    let mut storage = test_storage();
    with_bucket(&mut storage, "page-bucket");
    for i in 0..5u32 {
        let key = format!("key-{:03}", i);
        storage
            .put_object("page-bucket", &key, test_s3_object(b"data"))
            .expect("put_object");
    }
    // Fetch 2 per page.
    let page1 = storage
        .list_objects_v2("page-bucket", "", "", "", 2, "")
        .expect("list_objects_v2 page1");
    assert!(page1.is_truncated);
    assert!(!page1.next_continuation_token.is_empty());
    assert_eq!(page1.contents.len(), 2);

    // Page 2 with continuation token.
    let page2 = storage
        .list_objects_v2(
            "page-bucket",
            "",
            "",
            "",
            2,
            &page1.next_continuation_token,
        )
        .expect("list_objects_v2 page2");
    assert!(page2.is_truncated);
    assert_eq!(page2.contents.len(), 2);

    // Page 3.
    let page3 = storage
        .list_objects_v2(
            "page-bucket",
            "",
            "",
            "",
            2,
            &page2.next_continuation_token,
        )
        .expect("list_objects_v2 page3");
    assert!(!page3.is_truncated);
    assert_eq!(page3.contents.len(), 1);
    assert_eq!(page3.contents[0].key, "key-004");
}

// -- Multipart operation tests ---------------------------------------

#[test]
fn test_create_multipart_upload() {
    let mut storage = test_storage();
    with_bucket(&mut storage, "mp-bucket");
    let upload_id = storage
        .create_multipart_upload("mp-bucket", "large-file.zip")
        .expect("create_multipart_upload");
    assert!(!upload_id.is_empty());
    // Verify it exists in the bucket.
    assert!(storage
        .list_parts("mp-bucket", "large-file.zip", &upload_id, 1, 0)
        .is_ok());
}

#[test]
fn test_upload_part() {
    let mut storage = test_storage();
    with_bucket(&mut storage, "mp-bucket");
    let upload_id = storage
        .create_multipart_upload("mp-bucket", "file.zip")
        .expect("create_multipart_upload");

    let etag = storage
        .upload_part("mp-bucket", "file.zip", &upload_id, 1, Bytes::from("part1 data"))
        .expect("upload_part");
    assert!(!etag.is_empty());
    assert!(etag.starts_with('"'));
}

#[test]
fn test_upload_part_invalid_number() {
    let mut storage = test_storage();
    with_bucket(&mut storage, "mp-bucket");
    let upload_id = storage
        .create_multipart_upload("mp-bucket", "f.txt")
        .expect("create_multipart_upload");
    let err = storage
        .upload_part("mp-bucket", "f.txt", &upload_id, 0, Bytes::from("x"))
        .unwrap_err();
    assert!(matches!(err, S3Error::InvalidPart));
}

#[test]
fn test_complete_multipart_upload() {
    let mut storage = test_storage();
    with_bucket(&mut storage, "mp-bucket");
    let upload_id = storage
        .create_multipart_upload("mp-bucket", "final.zip")
        .expect("create_multipart_upload");

    let etag1 = storage
        .upload_part("mp-bucket", "final.zip", &upload_id, 1, Bytes::from("part1"))
        .expect("upload_part 1");
    let etag2 = storage
        .upload_part("mp-bucket", "final.zip", &upload_id, 2, Bytes::from("part2"))
        .expect("upload_part 2");

    let parts = vec![
        Part {
            part_number: 1,
            etag: etag1,
        },
        Part {
            part_number: 2,
            etag: etag2,
        },
    ];

    let final_etag = storage
        .complete_multipart_upload("mp-bucket", "final.zip", &upload_id, &parts)
        .expect("complete_multipart_upload");
    // Final ETag should have "-2" suffix (2 parts).
    assert!(final_etag.ends_with("-2\""), "etag: {}", final_etag);

    // Object should be retrievable.
    let result = storage
        .get_object("mp-bucket", "final.zip")
        .expect("get_object after complete");
    assert_eq!(result.object.data, b"part1part2"[..]);
}

#[test]
fn test_complete_multipart_upload_wrong_order() {
    let mut storage = test_storage();
    with_bucket(&mut storage, "mp-bucket");
    let upload_id = storage
        .create_multipart_upload("mp-bucket", "f.txt")
        .expect("create_multipart_upload");

    let etag1 = storage
        .upload_part("mp-bucket", "f.txt", &upload_id, 1, Bytes::from("a"))
        .expect("upload_part 1");
    storage
        .upload_part("mp-bucket", "f.txt", &upload_id, 2, Bytes::from("b"))
        .expect("upload_part 2");

    // Duplicate part numbers must fail with InvalidPartOrder.
    let _err = storage
        .complete_multipart_upload(
            "mp-bucket",
            "f.txt",
            &upload_id,
            &[
                Part {
                    part_number: 1,
                    etag: etag1.clone(),
                },
                Part {
                    part_number: 1,
                    etag: etag1,
                },
            ],
        )
        .unwrap_err();
    assert!(matches!(_err, S3Error::InvalidPartOrder));
}

#[test]
fn test_abort_multipart_upload() {
    let mut storage = test_storage();
    with_bucket(&mut storage, "mp-bucket");
    let upload_id = storage
        .create_multipart_upload("mp-bucket", "abort-file.zip")
        .expect("create_multipart_upload");
    storage
        .upload_part(
            "mp-bucket",
            "abort-file.zip",
            &upload_id,
            1,
            Bytes::from("part data"),
        )
        .expect("upload_part");

    storage
        .abort_multipart_upload("mp-bucket", "abort-file.zip", &upload_id)
        .expect("abort_multipart_upload");

    // Upload should be gone.
    let err = storage
        .list_parts("mp-bucket", "abort-file.zip", &upload_id, 1, 0)
        .unwrap_err();
    assert!(matches!(err, S3Error::NoSuchUpload));
}

#[test]
fn test_list_parts() {
    let mut storage = test_storage();
    with_bucket(&mut storage, "mp-bucket");
    let upload_id = storage
        .create_multipart_upload("mp-bucket", "parts-file.zip")
        .expect("create_multipart_upload");

    storage
        .upload_part(
            "mp-bucket",
            "parts-file.zip",
            &upload_id,
            1,
            Bytes::from("part1"),
        )
        .expect("upload_part 1");
    storage
        .upload_part(
            "mp-bucket",
            "parts-file.zip",
            &upload_id,
            2,
            Bytes::from("part2"),
        )
        .expect("upload_part 2");

    let list = storage
        .list_parts("mp-bucket", "parts-file.zip", &upload_id, 1000, 0)
        .expect("list_parts");
    assert!(!list.is_truncated);
    assert_eq!(list.parts.len(), 2);
    assert_eq!(list.parts[0].part_number, 1);
    assert_eq!(list.parts[1].part_number, 2);
}

#[test]
fn test_list_parts_pagination() {
    let mut storage = test_storage();
    with_bucket(&mut storage, "mp-bucket");
    let upload_id = storage
        .create_multipart_upload("mp-bucket", "many-parts.zip")
        .expect("create_multipart_upload");

    for i in 1..=5u32 {
        storage
            .upload_part(
                "mp-bucket",
                "many-parts.zip",
                &upload_id,
                i,
                Bytes::from(format!("part{}", i)),
            )
            .expect("upload_part");
    }

    let page1 = storage
        .list_parts("mp-bucket", "many-parts.zip", &upload_id, 2, 0)
        .expect("list_parts page1");
    assert!(page1.is_truncated);
    assert_eq!(page1.parts.len(), 2);
    assert!(!page1.next_part_number_marker.is_empty());

    let marker: u32 = page1.next_part_number_marker.parse().unwrap();
    let page2 = storage
        .list_parts("mp-bucket", "many-parts.zip", &upload_id, 2, marker)
        .expect("list_parts page2");
    assert!(page2.is_truncated);
    assert_eq!(page2.parts.len(), 2);

    let marker2: u32 = page2.next_part_number_marker.parse().unwrap();
    let page3 = storage
        .list_parts("mp-bucket", "many-parts.zip", &upload_id, 2, marker2)
        .expect("list_parts page3");
    assert!(!page3.is_truncated);
    assert_eq!(page3.parts.len(), 1);
    assert_eq!(page3.parts[0].part_number, 5);
}

// -- Total bytes accounting tests ------------------------------------

#[test]
fn test_total_bytes_accounting_put_delete() {
    let mut storage = test_storage();
    with_bucket(&mut storage, "acct-bucket");

    let init = storage.total_bytes();
    let obj = test_s3_object(b"1234567890");
    let size = obj.content_length() as u64;

    storage
        .put_object("acct-bucket", "key", obj)
        .expect("put_object");
    assert_eq!(
        storage.total_bytes(),
        init + size
    );

    storage
        .delete_object("acct-bucket", "key")
        .expect("delete_object");
    assert_eq!(
        storage.total_bytes(),
        init
    );
}

#[test]
fn test_total_bytes_copy_does_not_increment() {
    let mut storage = test_storage();
    with_bucket(&mut storage, "src");
    with_bucket(&mut storage, "dst");

    let obj = test_s3_object(b"some data");

    storage
        .put_object("src", "src-key", obj)
        .expect("put_object");
    let after_put = storage.total_bytes();

    storage
        .copy_object("src", "src-key", "dst", "dst-key", &StringMap::new())
        .expect("copy_object");
    let after_copy = storage.total_bytes();

    // AP-P6: copy_object must NOT increment total_bytes.
    assert_eq!(
        after_copy, after_put,
        "copy_object must not increment total_bytes"
    );
}

// -- DefaultStorage new / clone / default ----------------------------

#[test]
fn test_default_storage_new() {
    let s = DefaultStorage::new();
    assert_eq!(s.total_bytes(), 0);
    assert!(s.list_buckets().unwrap().is_empty());
}

#[test]
fn test_default_storage_default() {
    let s = DefaultStorage::default();
    assert_eq!(s.total_bytes(), 0);
}

// -- Order, limits and pages ------------------------------------------

#[test]
fn test_bucket_listing_is_sorted() {
    let mut storage = test_storage();
    for name in ["zeta", "Alpha", "alpha", "\u{e9}t\u{e9}", "beta"] {
        with_bucket(&mut storage, name);
    }
    let names: Vec<String> = storage
        .list_buckets()
        .unwrap()
        .into_iter()
        .map(|b| b.name)
        .collect();
    assert_eq!(names, vec!["Alpha", "alpha", "beta", "zeta", "\u{e9}t\u{e9}"]);
}

#[test]
fn test_created_bucket_is_empty_and_dated() {
    let mut storage = test_storage();
    let now = Timestamp::from_unix(1000, 5).unwrap();
    let bucket = storage.create_bucket_at("dated", now).unwrap();
    assert_eq!(bucket.creation_date.seconds(), 1000);
    assert!(bucket.objects.is_empty());
    assert!(bucket.multipart_uploads.is_empty());
    assert_eq!(storage.list_buckets().unwrap()[0].creation_date.subsec_nanos(), 5);
    storage.delete_bucket("dated").unwrap();
    assert!(storage.list_buckets().unwrap().is_empty());
}

#[test]
fn test_bucket_with_upload_cannot_be_deleted() {
    let mut storage = test_storage();
    with_bucket(&mut storage, "busy");
    let id = storage.create_multipart_upload("busy", "k").unwrap();
    assert!(matches!(storage.delete_bucket("busy"), Err(S3Error::BucketNotEmpty)));
    storage.abort_multipart_upload("busy", "k", &id).unwrap();
    assert!(storage.delete_bucket("busy").is_ok());
}

#[test]
fn test_missing_buckets_are_reported() {
    let mut storage = test_storage();
    let data = Bytes::from("x");
    assert!(matches!(
        storage.put_object("no", "k", test_s3_object(b"x")),
        Err(S3Error::NoSuchBucket)
    ));
    assert!(matches!(storage.get_object("no", "k"), Err(S3Error::NoSuchBucket)));
    assert!(matches!(storage.delete_object("no", "k"), Err(S3Error::NoSuchBucket)));
    assert!(matches!(
        storage.list_objects_v2("no", "", "", "", 1, ""),
        Err(S3Error::NoSuchBucket)
    ));
    assert!(matches!(
        storage.create_multipart_upload("no", "k"),
        Err(S3Error::NoSuchBucket)
    ));
    assert!(matches!(
        storage.upload_part("no", "k", "id", 1, data.clone()),
        Err(S3Error::NoSuchBucket)
    ));
    assert!(matches!(
        storage.upload_part("no", "k", "id", 10001, data),
        Err(S3Error::InvalidPart)
    ));
    assert!(matches!(
        storage.abort_multipart_upload("no", "k", "id"),
        Err(S3Error::NoSuchBucket)
    ));
    assert!(matches!(
        storage.list_parts("no", "k", "id", 1, 0),
        Err(S3Error::NoSuchBucket)
    ));
    assert!(matches!(
        storage.copy_object("no", "k", "no", "k", &StringMap::new()),
        Err(S3Error::NoSuchBucket)
    ));
    assert!(matches!(
        storage.complete_multipart_upload("no", "k", "id", &[]),
        Err(S3Error::InvalidPart)
    ));
}

#[test]
fn test_upload_limit_per_bucket() {
    let mut storage = test_storage();
    with_bucket(&mut storage, "many");
    for _ in 0..CIRRUS_MAX_MULTIPART_UPLOADS {
        storage.create_multipart_upload("many", "k").unwrap();
    }
    assert!(matches!(
        storage.create_multipart_upload("many", "k"),
        Err(S3Error::MaxCapacityExceeded)
    ));
}

#[test]
fn test_upload_belongs_to_its_key() {
    let mut storage = test_storage();
    with_bucket(&mut storage, "b");
    let id = storage.create_multipart_upload("b", "right").unwrap();
    assert_eq!(id.len(), 36);
    assert!(matches!(
        storage.upload_part("b", "wrong", &id, 1, Bytes::from("x")),
        Err(S3Error::NoSuchUpload)
    ));
    assert!(matches!(
        storage.abort_multipart_upload("b", "wrong", &id),
        Err(S3Error::NoSuchUpload)
    ));
    assert!(matches!(
        storage.list_parts("b", "wrong", &id, 10, 0),
        Err(S3Error::NoSuchUpload)
    ));
    let part = Part { part_number: 1, etag: String::new() };
    assert!(matches!(
        storage.complete_multipart_upload("b", "wrong", &id, &[part]),
        Err(S3Error::NoSuchUpload)
    ));
}

#[test]
fn test_complete_checks_parts_in_turn() {
    let mut storage = test_storage();
    with_bucket(&mut storage, "b");
    let id = storage.create_multipart_upload("b", "k").unwrap();
    let etag = storage.upload_part("b", "k", &id, 5, Bytes::from("five")).unwrap();
    assert_eq!(etag, format_etag(b"five"));
    let part = |part_number: u32, etag: &str| Part { part_number, etag: etag.to_string() };
    let mut complete = |parts: &[Part]| storage.complete_multipart_upload("b", "k", &id, parts);
    assert!(matches!(complete(&[part(0, &etag)]), Err(S3Error::InvalidPartOrder)));
    assert!(matches!(complete(&[part(4, &etag)]), Err(S3Error::InvalidPart)));
    assert!(matches!(complete(&[part(5, "other")]), Err(S3Error::InvalidPart)));
    assert!(matches!(
        complete(&[part(5, &etag), part(3, &etag)]),
        Err(S3Error::InvalidPartOrder)
    ));
    let final_etag = complete(&[part(5, &etag)]).unwrap();
    assert_eq!(final_etag, format!("{}-1\"", &etag[..33]));
    let object = storage.get_object("b", "k").unwrap().object;
    assert_eq!(object.data, b"five"[..]);
    assert_eq!(object.etag, final_etag);
    assert_eq!(object.content_type, S3Object::DEFAULT_CONTENT_TYPE);
    assert_eq!(storage.total_bytes(), 4);
}

#[test]
fn test_complete_takes_the_parts_named_only() {
    let mut storage = test_storage();
    with_bucket(&mut storage, "b");
    let now = Timestamp::from_unix(77, 0).unwrap();
    let id = storage
        .create_multipart_upload_at("b", "k", "the-id".to_string(), now)
        .unwrap();
    assert_eq!(id, "the-id");
    let mut names = Vec::new();
    for (n, text) in [(1, "one"), (2, "two"), (3, "three")] {
        let etag = storage.upload_part_at("b", "k", &id, n, Bytes::from(text), now).unwrap();
        if n != 2 {
            names.push(Part { part_number: n, etag });
        }
    }
    let later = Timestamp::from_unix(99, 0).unwrap();
    let etag = storage
        .complete_multipart_upload_at("b", "k", &id, &names, later)
        .unwrap();
    assert!(etag.ends_with("-2\""));
    let object = storage.get_object("b", "k").unwrap().object;
    assert_eq!(object.data, b"onethree"[..]);
    assert_eq!(object.last_modified.seconds(), 99);
    assert_eq!(storage.total_bytes(), 11);
}

#[test]
fn test_abort_takes_back_the_bytes() {
    let mut storage = test_storage();
    with_bucket(&mut storage, "b");
    storage.put_object("b", "x", test_s3_object(b"12345")).unwrap();
    let id = storage.create_multipart_upload("b", "k").unwrap();
    storage.upload_part("b", "k", &id, 1, Bytes::from("abc")).unwrap();
    storage.upload_part("b", "k", &id, 2, Bytes::from("defg")).unwrap();
    assert_eq!(storage.total_bytes(), 12);
    storage.abort_multipart_upload("b", "k", &id).unwrap();
    assert_eq!(storage.total_bytes(), 5);
}

#[test]
fn test_counter_stops_at_zero() {
    let mut storage = test_storage();
    with_bucket(&mut storage, "b");
    let id = storage.create_multipart_upload("b", "k").unwrap();
    storage.upload_part("b", "k", &id, 1, Bytes::from("abc")).unwrap();
    // A copy is not counted when it comes, but is when it goes.
    storage.put_object("b", "x", test_s3_object(b"12345")).unwrap();
    storage.copy_object("b", "x", "b", "y", &StringMap::new()).unwrap();
    storage.copy_object("b", "x", "b", "z", &StringMap::new()).unwrap();
    assert_eq!(storage.total_bytes(), 8);
    storage.delete_object("b", "x").unwrap();
    assert_eq!(storage.total_bytes(), 3);
    storage.delete_object("b", "y").unwrap();
    assert_eq!(storage.total_bytes(), 0);
    storage.delete_object("b", "z").unwrap();
    assert_eq!(storage.total_bytes(), 0);
    storage.abort_multipart_upload("b", "k", &id).unwrap();
    assert_eq!(storage.total_bytes(), 0);
    storage.put_object("b", "x", test_s3_object(b"1")).unwrap();
    assert_eq!(storage.total_bytes(), 1);
}

#[test]
fn test_full_bucket_takes_no_new_keys() {
    let mut storage = test_storage();
    with_bucket(&mut storage, "full");
    with_bucket(&mut storage, "other");
    storage.put_object("other", "x", test_s3_object(b"12345")).unwrap();
    let id = storage.create_multipart_upload("full", "joined").unwrap();
    let etag = storage.upload_part("full", "joined", &id, 1, Bytes::from("abc")).unwrap();
    let names = vec![Part { part_number: 1, etag }];
    let object = test_s3_object(b"");
    for i in 0..CIRRUS_MAX_OBJECTS_PER_BUCKET {
        storage.put_object("full", &format!("{i}"), object.clone()).unwrap();
    }
    assert!(matches!(
        storage.put_object("full", "one-more", object),
        Err(S3Error::MaxCapacityExceeded)
    ));
    assert!(matches!(
        storage.copy_object("other", "x", "full", "one-more", &StringMap::new()),
        Err(S3Error::MaxCapacityExceeded)
    ));
    assert!(matches!(
        storage.complete_multipart_upload("full", "joined", &id, &names),
        Err(S3Error::MaxCapacityExceeded)
    ));
    assert!(matches!(storage.get_object("full", "one-more"), Err(S3Error::NoSuchKey)));
    assert_eq!(storage.total_bytes(), 8);
    // What replaces an object needs no room.
    storage.copy_object("other", "x", "full", "1", &StringMap::new()).unwrap();
    assert_eq!(storage.get_object("full", "1").unwrap().object.data, b"12345"[..]);
    let again = storage.create_multipart_upload("full", "2").unwrap();
    let etag = storage.upload_part("full", "2", &again, 1, Bytes::from("xy")).unwrap();
    let only = vec![Part { part_number: 1, etag }];
    storage.complete_multipart_upload("full", "2", &again, &only).unwrap();
    assert_eq!(storage.get_object("full", "2").unwrap().object.data, b"xy"[..]);
    // The upload is still there, and there is room once an object has gone.
    storage.delete_object("full", "0").unwrap();
    storage.complete_multipart_upload("full", "joined", &id, &names).unwrap();
    assert_eq!(storage.get_object("full", "joined").unwrap().object.data, b"abc"[..]);
}

#[test]
fn test_backend_is_shared_behind_a_lock() {
    let s1 = Arc::new(Mutex::new(DefaultStorage::new()));
    let s2 = s1.clone();
    // Both share the same backend: what one does is visible through the other.
    s1.lock().unwrap().create_bucket("shared").unwrap();
    assert!(s2.lock().unwrap().has_bucket("shared"));
}

#[test]
fn test_copy_keeps_or_replaces_metadata() {
    let mut storage = test_storage();
    with_bucket(&mut storage, "b");
    let mut object = test_s3_object(b"data");
    object.metadata.insert("color".to_string(), "red".to_string());
    storage.put_object("b", "src", object).unwrap();
    let now = Timestamp::from_unix(42, 0).unwrap();
    let kept = storage
        .copy_object_at("b", "src", "b", "kept", &StringMap::new(), now)
        .unwrap();
    assert_eq!(kept.metadata.get("color").unwrap(), "red");
    assert_eq!(kept.last_modified.seconds(), 42);
    let mut replacement = StringMap::new();
    replacement.insert("size".to_string(), "big".to_string());
    storage
        .copy_object_at("b", "src", "b", "replaced", &replacement, now)
        .unwrap();
    let replaced = storage.get_object("b", "replaced").unwrap().object;
    assert!(replaced.metadata.get("color").is_none());
    assert_eq!(replaced.metadata.get("size").unwrap(), "big");
}

/// The keys and the common prefixes of all pages, with pages of `max_keys` lines.
fn all_pages(
    storage: &DefaultStorage,
    prefix: &str,
    delimiter: &str,
    max_keys: u32,
) -> (Vec<String>, Vec<String>) {
    let mut keys = Vec::new();
    let mut prefixes = Vec::new();
    let mut token = String::new();
    loop {
        let page = storage
            .list_objects_v2("pages", prefix, delimiter, "", max_keys, &token)
            .unwrap();
        assert_eq!(
            page.key_count as usize,
            page.contents.len() + page.common_prefixes.len()
        );
        keys.extend(page.contents.into_iter().map(|o| o.key));
        prefixes.extend(page.common_prefixes.into_iter().map(|p| p.prefix));
        if !page.is_truncated {
            assert!(page.next_continuation_token.is_empty());
            return (keys, prefixes);
        }
        token = page.next_continuation_token;
    }
}

#[test]
fn test_pages_join_up() {
    let mut storage = test_storage();
    with_bucket(&mut storage, "pages");
    let keys = [
        "a/1", "a/2", "a/3", "b", "c/1", "c/d/2", "d", "e", "photos/x/1", "photos/x/2", "photos/y",
    ];
    for key in keys {
        storage.put_object("pages", key, test_s3_object(b"z")).unwrap();
    }
    for (prefix, delimiter) in [("", ""), ("", "/"), ("photos/", "/"), ("c/", ""), ("", "x/")] {
        let whole = all_pages(&storage, prefix, delimiter, u32::MAX);
        for max_keys in [0, 1, 2, 3, 5] {
            assert_eq!(all_pages(&storage, prefix, delimiter, max_keys), whole);
        }
    }
    let (own, rolled) = all_pages(&storage, "", "/", 1000);
    assert_eq!(own, vec!["b", "d", "e"]);
    assert_eq!(rolled, vec!["a/", "c/", "photos/"]);
    // Of a longer delimiter, the first character ends the common prefix.
    let (own, rolled) = all_pages(&storage, "", "x/", 1000);
    assert_eq!(own.len(), 9);
    assert_eq!(rolled, vec!["photos/x"]);
}

#[test]
fn test_listing_starts_after_a_key() {
    let mut storage = test_storage();
    with_bucket(&mut storage, "pages");
    for key in ["a", "b", "c"] {
        storage.put_object("pages", key, test_s3_object(b"zz")).unwrap();
    }
    let page = storage.list_objects_v2("pages", "", "", "a", 10, "").unwrap();
    assert_eq!(page.contents.len(), 2);
    assert_eq!(page.contents[0].key, "b");
    assert_eq!(page.contents[0].size, 2);
    // The continuation token decides where both are given.
    let page = storage.list_objects_v2("pages", "", "", "a", 10, "b").unwrap();
    assert_eq!(page.contents.len(), 1);
    assert_eq!(page.contents[0].key, "c");
}

#[test]
fn test_delimiters_that_cannot_cut() {
    let mut storage = test_storage();
    with_bucket(&mut storage, "b");
    storage.put_object("b", "caf\u{e9}/x", test_s3_object(b"")).unwrap();
    assert!(storage.can_list("b", "", "/", ""));
    assert!(!storage.can_list("b", "", "\u{e9}", ""));
    assert!(storage.can_list("b", "caf\u{e9}", "\u{e9}", ""));
    assert!(storage.can_list("b", "", "\u{e8}", ""));
    assert!(storage.can_list("b", "", "\u{e9}", "d"));
    assert!(storage.can_list("none", "", "\u{e9}", ""));
    assert!(storage.can_list("b", "", "", ""));
}

#[test]
fn test_part_pages_by_marker() {
    let mut storage = test_storage();
    with_bucket(&mut storage, "b");
    let id = storage.create_multipart_upload("b", "k").unwrap();
    for n in [10000, 3, 20] {
        storage.upload_part("b", "k", &id, n, Bytes::from("x")).unwrap();
    }
    let page = storage.list_parts("b", "k", &id, 2, 0).unwrap();
    assert_eq!(page.next_part_number_marker, "20");
    let numbers: Vec<u32> = page.parts.iter().map(|p| p.part_number).collect();
    assert_eq!(numbers, vec![3, 20]);
    let page = storage.list_parts("b", "k", &id, 2, 20).unwrap();
    assert!(!page.is_truncated);
    assert_eq!(page.parts[0].part_number, 10000);
    assert_eq!(page.parts[0].etag, format_etag(b"x"));
    let page = storage.list_parts("b", "k", &id, 0, 0).unwrap();
    assert!(page.is_truncated);
    assert!(page.parts.is_empty());
    assert_eq!(page.next_part_number_marker, "");
}

#[test]
fn test_storage_error_texts() {
    assert_eq!(S3Error::NoSuchBucket.to_text(), "The specified bucket does not exist");
    assert_eq!(
        S3Error::MaxCapacityExceeded.to_text(),
        "The maximum capacity has been exceeded"
    );
    assert_eq!(
        S3Error::InvalidPartOrder.to_text(),
        "The list of parts was not in ascending order"
    );
}
