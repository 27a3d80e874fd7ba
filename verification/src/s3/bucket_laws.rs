//! What requests for buckets do, told by what the backend holds before and after.

use crate::clock::Timestamp;
use crate::message::ResponseState;
use crate::order::{lemma_sorted_lists, sorted, text_lt};
use crate::protocol::error::{ErrorState, Fault};
use crate::router::service::error_response;
use crate::s3::answers::{DocumentState, PendingState};
use crate::s3::handlers::{
    may_create_bucket, may_delete_bucket, may_get_bucket_location, may_list_buckets,
};
use crate::s3::memory::DefaultStorage;
use crate::s3::model::{bucket_kept, create_bucket, well_kept, StorageState};
use vstd::prelude::*;
use vstd::string::*;
use vstd::utf8::encode_utf8;

verus! {

/// Whether all that is kept of other buckets is the same.
pub open spec fn same_but_for_bucket(a: StorageState, b: StorageState, name: Seq<char>) -> bool {
    &&& a.total_bytes == b.total_bytes
    &&& forall|n: Seq<char>|
        n != name ==> (#[trigger] a.buckets.contains_key(n) <==> b.buckets.contains_key(n))
    &&& forall|n: Seq<char>|
        n != name && #[trigger] a.buckets.contains_key(n) ==> a.buckets[n] == b.buckets[n]
}

/// A bucket is created where its name has 3 to 63 bytes, none of that name is there, and there
/// are fewer than a thousand. It holds nothing, and no other bucket changes. The answer tells
/// where it is found. Else nothing changes, and the status is 400 for the name, 409 for a name
/// that is taken, and 500 where there is no room.
pub proof fn bucket_is_created_where_it_can_be(
    pre: DefaultStorage,
    bucket: Seq<char>,
    post: DefaultStorage,
    r: Result<PendingState, ErrorState>,
)
    requires
        may_create_bucket(pre, bucket, post, r),
    ensures
        r is Ok <==> 3 <= encode_utf8(bucket).len() <= 63 && !pre@.buckets.contains_key(bucket)
            && pre@.buckets.dom().len() < 1000,
        r is Err ==> post@ == pre@,
        r is Err ==> error_response(r->Err_0).status == (if !(3 <= encode_utf8(bucket).len()
            <= 63) {
            400
        } else if pre@.buckets.dom().len() < 1000 {
            409
        } else {
            500u16
        }),
        r is Err ==> r->Err_0.fault == (if !(3 <= encode_utf8(bucket).len() <= 63) {
            Fault::InvalidArgument { argument_name: "BucketName"@, value: bucket }
        } else if pre@.buckets.dom().len() < 1000 {
            Fault::BucketAlreadyExists { bucket_name: bucket }
        } else {
            Fault::InternalError { details: Some("Max capacity exceeded"@) }
        }),
        r is Ok ==> ({
            let b = post@.buckets[bucket];
            let p = r->Ok_0;
            let url = "https://localhost:4566/"@ + bucket;
            &&& post@.buckets.contains_key(bucket)
            &&& b.name == bucket
            &&& forall|k: Seq<char>| !#[trigger] b.objects.contains_key(k)
            &&& forall|k: Seq<char>| !#[trigger] b.uploads.contains_key(k)
            &&& same_but_for_bucket(pre@, post@, bucket)
            &&& p.status == 200
            &&& p.headers.len() == 1
            &&& p.headers[0] == ("Location"@, url)
            &&& p.document == (DocumentState::Created { location: url })
        }),
{
}

/// A new bucket has the date at which it is created, and is given back as it is kept.
pub proof fn new_bucket_has_its_date(s: StorageState, name: Seq<char>, now: Timestamp)
    ensures
        ({
            let (t, r) = create_bucket(s, name, now);
            r is Ok ==> t.buckets.contains_key(name) && t.buckets[name].creation_date == now
                && t.buckets[name] == r->Ok_0
        }),
{
}

/// A bucket is deleted, with status 204, where it is there and holds no object and no upload. No
/// other bucket changes. Else nothing changes, and the status is 404 for one that is not there
/// and 409 for one that holds something.
pub proof fn only_an_empty_bucket_is_deleted(
    pre: DefaultStorage,
    bucket: Seq<char>,
    post: DefaultStorage,
    r: Result<ResponseState, ErrorState>,
)
    requires
        well_kept(pre@),
        may_delete_bucket(pre, bucket, post, r),
    ensures
        r is Ok <==> pre@.buckets.contains_key(bucket) && (forall|k: Seq<char>|
            !#[trigger] pre@.buckets[bucket].objects.contains_key(k)) && (forall|k: Seq<char>|
            !#[trigger] pre@.buckets[bucket].uploads.contains_key(k)),
        r is Ok ==> r->Ok_0.status == 204 && r->Ok_0.body.len() == 0 && !post@.buckets.contains_key(
            bucket,
        ) && same_but_for_bucket(pre@, post@, bucket),
        r is Err ==> post@ == pre@,
        r is Err && !pre@.buckets.contains_key(bucket) ==> r->Err_0.fault == (Fault::NoSuchBucket {
            bucket_name: bucket,
        }) && error_response(r->Err_0).status == 404,
        r is Err && pre@.buckets.contains_key(bucket) ==> r->Err_0.fault == (Fault::BucketNotEmpty {
            bucket_name: bucket,
        }) && error_response(r->Err_0).status == 409,
{
    if pre@.buckets.contains_key(bucket) {
        let b = pre@.buckets[bucket];
        assert(bucket_kept(b, bucket));
        if b.objects.dom().len() == 0 {
            assert(b.objects.dom() =~= Set::empty());
            assert forall|k: Seq<char>| !#[trigger] b.objects.contains_key(k) by {
                assert(!b.objects.dom().contains(k));
            }
        }
        if b.uploads.dom().len() == 0 {
            assert(b.uploads.dom() =~= Set::empty());
            assert forall|k: Seq<char>| !#[trigger] b.uploads.contains_key(k) by {
                assert(!b.uploads.dom().contains(k));
            }
        }
        if forall|k: Seq<char>| !#[trigger] b.objects.contains_key(k) {
            assert(b.objects.dom() =~= Set::empty());
        }
        if forall|k: Seq<char>| !#[trigger] b.uploads.contains_key(k) {
            assert(b.uploads.dom() =~= Set::empty());
        }
    }
}

/// A list of buckets has one line for each bucket, with its name and the date of its creation,
/// in the order of their names.
pub proof fn every_bucket_has_a_line(s: DefaultStorage, r: Result<PendingState, ErrorState>)
    requires
        well_kept(s@),
        may_list_buckets(s, r),
    ensures
        r is Ok,
        r->Ok_0.status == 200,
        r->Ok_0.document is Buckets,
        ({
            let lines = r->Ok_0.document->Buckets_buckets;
            let owner = r->Ok_0.document->Buckets_owner;
            &&& owner.id == "000000000000"@
            &&& owner.display_name == "webfile"@
            &&& forall|i: int|
                0 <= i < lines.len() ==> {
                    let line = #[trigger] lines[i];
                    &&& s@.buckets.contains_key(line.name)
                    &&& s@.buckets[line.name].creation_date == line.creation_date
                }
            &&& forall|i: int, j: int|
                0 <= i < j < lines.len() ==> text_lt(
                    (#[trigger] lines[i]).name,
                    (#[trigger] lines[j]).name,
                )
            &&& forall|name: Seq<char>| #[trigger]
                s@.buckets.contains_key(name) ==> exists|i: int|
                    0 <= i < lines.len() && (#[trigger] lines[i]).name == name
        }),
{
    let names = sorted(s@.buckets.dom());
    lemma_sorted_lists(s@.buckets.dom());
    let lines = r->Ok_0.document->Buckets_buckets;
    assert(lines.len() == names.len());
    assert forall|i: int| 0 <= i < lines.len() implies {
        let line = #[trigger] lines[i];
        &&& line.name == names[i]
        &&& s@.buckets.contains_key(line.name)
        &&& s@.buckets[line.name].creation_date == line.creation_date
    } by {
        assert(s@.buckets.dom().contains(names[i]));
        assert(bucket_kept(s@.buckets[names[i]], names[i]));
    }
    assert forall|i: int, j: int| 0 <= i < j < lines.len() implies text_lt(
        (#[trigger] lines[i]).name,
        (#[trigger] lines[j]).name,
    ) by {
        assert(text_lt(names[i], names[j]));
    }
    assert forall|name: Seq<char>| #[trigger] s@.buckets.contains_key(name) implies exists|i: int|
        0 <= i < lines.len() && (#[trigger] lines[i]).name == name by {
        assert(s@.buckets.dom().contains(name));
        assert(names.contains(name));
        let i = choose|i: int| 0 <= i < names.len() && names[i] == name;
        assert(lines[i].name == name);
    }
}

/// Every bucket is in the region `us-east-1`.
pub proof fn every_bucket_is_in_one_region(
    s: DefaultStorage,
    bucket: Seq<char>,
    r: Result<PendingState, ErrorState>,
)
    requires
        may_get_bucket_location(s, bucket, r),
    ensures
        r is Ok,
        r->Ok_0.status == 200,
        r->Ok_0.document == (DocumentState::Location { location: "us-east-1"@ }),
{
}

} // verus!
