//! What a request that deletes several objects does, object by object.

use crate::digest::is_uuid;
use crate::protocol::error::{ErrorState, Fault};
use crate::protocol::types::{DeleteErrorLine, DeleteTarget, DeletedLine};
use crate::router::service::error_response;
use crate::s3::answers::{delete_objects_answer, deleted_lines, error_lines, PendingState};
use crate::s3::handlers::{deletes, may_delete_objects};
use crate::s3::memory::DefaultStorage;
use crate::s3::model::{Call, Reply, S3Error};
use crate::s3::object_laws::holds;
use crate::s3::storage::Storage;
use vstd::prelude::*;
use vstd::string::*;

verus! {

/// Whether the key of a target was named before it.
pub open spec fn named_before(targets: Seq<DeleteTarget>, i: int) -> bool {
    exists|j: int| 0 <= j < i && #[trigger] targets[j].key == targets[i].key
}

/// More than a thousand objects in one request are refused, and so is what was no XML: the
/// status is 400, and nothing changes.
pub proof fn too_many_objects_are_refused(
    pre: DefaultStorage,
    bucket: Seq<char>,
    request: Result<(bool, Seq<DeleteTarget>), Seq<char>>,
    post: DefaultStorage,
    r: Result<PendingState, ErrorState>,
)
    requires
        may_delete_objects(pre, bucket, request, post, r),
    ensures
        r is Err <==> request is Err || request->Ok_0.1.len() > 1000,
        r is Err ==> post@ == pre@ && error_response(r->Err_0).status == 400,
        match request {
            Err(details) => r->Err_0.fault == (Fault::InvalidArgument {
                argument_name: "body"@,
                value: "Malformed XML in Delete request: "@ + details,
            }),
            Ok(_) => r is Err ==> r->Err_0.fault == (Fault::InvalidArgument {
                argument_name: "Delete"@,
                value: "The number of keys in a single Delete request must not exceed 1000"@,
            }),
        },
{
}

/// What is held after some of the deletions: all that was, but for the keys named so far.
proof fn lemma_held_after(
    states: Seq<DefaultStorage>,
    bucket: Seq<char>,
    targets: Seq<DeleteTarget>,
    replies: Seq<Result<(), S3Error>>,
    n: int,
)
    requires
        deletes(states, bucket, targets, replies),
        0 <= n <= replies.len(),
    ensures
        states[n]@.buckets.dom() == states[0]@.buckets.dom(),
        forall|b: Seq<char>, k: Seq<char>| #[trigger]
            holds(states[n]@, b, k) <==> holds(states[0]@, b, k) && !(b == bucket && exists|j: int|
                0 <= j < n && #[trigger] targets[j].key == k),
        forall|b: Seq<char>, k: Seq<char>| #[trigger]
            holds(states[n]@, b, k) ==> states[n]@.buckets[b].objects[k]
                == states[0]@.buckets[b].objects[k],
    decreases n,
{
    if n > 0 {
        let m = n - 1;
        lemma_held_after(states, bucket, targets, replies, m);
        assert(DefaultStorage::may(
            states[m],
            Call::DeleteObject { bucket, key: targets[m].key },
            states[m + 1],
            Reply::Done(replies[m]),
        ));
        assert(states[n]@.buckets.dom() =~= states[m]@.buckets.dom());
        assert forall|b: Seq<char>, k: Seq<char>| #[trigger] holds(states[n]@, b, k) <==> holds(
            states[0]@,
            b,
            k,
        ) && !(b == bucket && exists|j: int| 0 <= j < n && #[trigger] targets[j].key == k) by {
            assert(holds(states[n]@, b, k) <==> holds(states[m]@, b, k) && !(b == bucket
                && targets[m].key == k));
            if exists|j: int| 0 <= j < n && #[trigger] targets[j].key == k {
                let j = choose|j: int| 0 <= j < n && #[trigger] targets[j].key == k;
                if j < m {
                    assert(targets[j].key == k);
                }
            }
        }
        assert forall|b: Seq<char>, k: Seq<char>| #[trigger] holds(states[n]@, b, k) implies {
            states[n]@.buckets[b].objects[k] == states[0]@.buckets[b].objects[k]
        } by {
            assert(holds(states[m]@, b, k));
        }
    }
}

/// A line for each object that was deleted.
proof fn lemma_deleted_line(
    targets: Seq<DeleteTarget>,
    replies: Seq<Result<(), S3Error>>,
    i: int,
) -> (k: int)
    requires
        0 <= i < replies.len(),
        replies[i] is Ok,
    ensures
        0 <= k < deleted_lines(targets, replies).len(),
        deleted_lines(targets, replies)[k].key == targets[i].key,
        deleted_lines(targets, replies)[k].version_id == targets[i].version_id,
    decreases replies.len(),
{
    if i < replies.len() - 1 {
        let k = lemma_deleted_line(targets, replies.drop_last(), i);
        k
    } else {
        deleted_lines(targets, replies).len() - 1
    }
}

/// A line for each object that could not be deleted.
proof fn lemma_error_line(
    targets: Seq<DeleteTarget>,
    replies: Seq<Result<(), S3Error>>,
    i: int,
) -> (k: int)
    requires
        0 <= i < replies.len(),
        replies[i] is Err,
    ensures
        0 <= k < error_lines(targets, replies).len(),
        ({
            let line = error_lines(targets, replies)[k];
            &&& line.key == targets[i].key
            &&& line.version_id == targets[i].version_id
            &&& replies[i]->Err_0 == S3Error::NoSuchKey ==> line.code == "NoSuchKey"@
                && line.message == "The specified key does not exist."@
            &&& replies[i]->Err_0 == S3Error::NoSuchBucket ==> line.code == "NoSuchBucket"@
                && line.message == "The specified bucket does not exist."@
        }),
    decreases replies.len(),
{
    if i < replies.len() - 1 {
        let k = lemma_error_line(targets, replies.drop_last(), i);
        k
    } else {
        error_lines(targets, replies).len() - 1
    }
}

/// Every line for an object that was deleted is for one of the targets.
proof fn lemma_deleted_source(
    targets: Seq<DeleteTarget>,
    replies: Seq<Result<(), S3Error>>,
    k: int,
) -> (i: int)
    requires
        0 <= k < deleted_lines(targets, replies).len(),
    ensures
        0 <= i < replies.len(),
        replies[i] is Ok,
        deleted_lines(targets, replies)[k].key == targets[i].key,
    decreases replies.len(),
{
    let init = deleted_lines(targets, replies.drop_last());
    if k < init.len() {
        let i = lemma_deleted_source(targets, replies.drop_last(), k);
        i
    } else {
        replies.len() - 1
    }
}

/// Each line stands for one reply.
proof fn lemma_lines_counted(targets: Seq<DeleteTarget>, replies: Seq<Result<(), S3Error>>)
    ensures
        deleted_lines(targets, replies).len() + error_lines(targets, replies).len()
            == replies.len(),
    decreases replies.len(),
{
    if replies.len() > 0 {
        lemma_lines_counted(targets, replies.drop_last());
    }
}

/// The lines of an answer keep the order of the request: the line for one object more goes to
/// the end of the deleted ones or of the errors, and the lines before stay as they are.
pub proof fn lines_keep_the_order(
    targets: Seq<DeleteTarget>,
    replies: Seq<Result<(), S3Error>>,
    target: DeleteTarget,
    reply: Result<(), S3Error>,
)
    requires
        replies.len() == targets.len(),
    ensures
        ({
            let deleted = deleted_lines(targets, replies);
            let errors = error_lines(targets, replies);
            let more_deleted = deleted_lines(targets.push(target), replies.push(reply));
            let more_errors = error_lines(targets.push(target), replies.push(reply));
            &&& reply is Ok ==> more_errors == errors && more_deleted.drop_last() == deleted
                && more_deleted.len() > 0 && more_deleted.last() == (DeletedLine {
                key: target.key,
                version_id: target.version_id,
                delete_marker: None,
                delete_marker_version_id: None,
            })
            &&& reply is Err ==> more_deleted == deleted && more_errors.drop_last() == errors
                && more_errors.len() > 0 && more_errors.last().key == target.key
                && more_errors.last().version_id == target.version_id
            &&& reply == Err::<(), _>(S3Error::NoSuchKey) ==> more_errors.last()
                == (DeleteErrorLine {
                key: target.key,
                code: "NoSuchKey"@,
                message: "The specified key does not exist."@,
                version_id: target.version_id,
            })
            &&& reply is Err && reply->Err_0 != S3Error::NoSuchKey && reply->Err_0
                != S3Error::NoSuchBucket ==> more_errors.last().code == "InternalError"@
                && more_errors.last().message
                == "We encountered an internal error. Please try again."@
        }),
{
    lemma_same_targets(targets, targets.push(target), replies);
    assert(replies.push(reply).drop_last() =~= replies);
    let deleted = deleted_lines(targets, replies);
    let errors = error_lines(targets, replies);
    if reply is Ok {
        assert(deleted_lines(targets.push(target), replies.push(reply)).drop_last() =~= deleted);
    } else {
        assert(error_lines(targets.push(target), replies.push(reply)).drop_last() =~= errors);
    }
}

/// Lines are for the targets that have a reply.
proof fn lemma_same_targets(
    a: Seq<DeleteTarget>,
    b: Seq<DeleteTarget>,
    replies: Seq<Result<(), S3Error>>,
)
    requires
        replies.len() <= a.len(),
        replies.len() <= b.len(),
        forall|i: int| 0 <= i < replies.len() ==> #[trigger] a[i] == b[i],
    ensures
        deleted_lines(a, replies) == deleted_lines(b, replies),
        error_lines(a, replies) == error_lines(b, replies),
    decreases replies.len(),
{
    if replies.len() > 0 {
        lemma_same_targets(a, b, replies.drop_last());
        assert(a[replies.len() - 1] == b[replies.len() - 1]);
    }
}

/// A request that deletes up to a thousand objects succeeds. No object that it names is held
/// then, and every other is as it was. Each object that was held has a line among the deleted
/// ones, unless the request is quiet; each that was not held, or was named before, has a line
/// among the errors, which says that there is no such key, or no such bucket. There are no
/// other lines.
pub proof fn every_named_object_is_deleted(
    pre: DefaultStorage,
    bucket: Seq<char>,
    quiet: bool,
    targets: Seq<DeleteTarget>,
    post: DefaultStorage,
    r: Result<PendingState, ErrorState>,
)
    requires
        may_delete_objects(pre, bucket, Ok((quiet, targets)), post, r),
        targets.len() <= 1000,
    ensures
        r is Ok,
        r->Ok_0.status == 200,
        r->Ok_0.headers.len() == 3,
        r->Ok_0.headers[0] == ("Content-Type"@, "application/xml"@),
        r->Ok_0.headers[1].0 == "x-amz-request-id"@,
        is_uuid(r->Ok_0.headers[1].1),
        r->Ok_0.headers[2].0 == "x-amz-id-2"@,
        r->Ok_0.document is Deleted,
        post@.buckets.dom() == pre@.buckets.dom(),
        forall|b: Seq<char>, k: Seq<char>| #[trigger]
            holds(post@, b, k) <==> holds(pre@, b, k) && !(b == bucket && exists|j: int|
                0 <= j < targets.len() && #[trigger] targets[j].key == k),
        forall|b: Seq<char>, k: Seq<char>| #[trigger]
            holds(post@, b, k) ==> post@.buckets[b].objects[k] == pre@.buckets[b].objects[k],
        ({
            let deleted = r->Ok_0.document->Deleted_deleted;
            let errors = r->Ok_0.document->Deleted_errors;
            &&& quiet ==> deleted.len() == 0
            &&& !quiet ==> deleted.len() + errors.len() == targets.len()
            &&& forall|i: int|
                0 <= i < targets.len() ==> {
                    let target = #[trigger] targets[i];
                    if holds(pre@, bucket, target.key) && !named_before(targets, i) {
                        !quiet ==> exists|k: int|
                            0 <= k < deleted.len() && (#[trigger] deleted[k]).key == target.key
                                && deleted[k].version_id == target.version_id
                    } else {
                        exists|k: int|
                            0 <= k < errors.len() && (#[trigger] errors[k]).key == target.key
                                && errors[k].version_id == target.version_id && (
                            if pre@.buckets.contains_key(bucket) {
                                errors[k].code == "NoSuchKey"@ && errors[k].message
                                    == "The specified key does not exist."@
                            } else {
                                errors[k].code == "NoSuchBucket"@ && errors[k].message
                                    == "The specified bucket does not exist."@
                            })
                    }
                }
            &&& forall|k: int|
                0 <= k < deleted.len() ==> holds(pre@, bucket, (#[trigger] deleted[k]).key)
        }),
{
    let (states, replies, id) = choose|
        states: Seq<DefaultStorage>,
        replies: Seq<Result<(), S3Error>>,
        id: Seq<char>,
    |
        #[trigger] deletes(states, bucket, targets, replies) && #[trigger] is_uuid(id)
            && replies.len() == targets.len() && states[0] == pre && states.last() == post && r
            == Ok::<_, ErrorState>(delete_objects_answer(targets, replies, quiet, id));
    lemma_held_after(states, bucket, targets, replies, replies.len() as int);
    lemma_lines_counted(targets, replies);
    let deleted = r->Ok_0.document->Deleted_deleted;
    let errors = r->Ok_0.document->Deleted_errors;
    assert forall|i: int| 0 <= i < targets.len() implies ({
        let target = #[trigger] targets[i];
        &&& holds(pre@, bucket, target.key) && !named_before(targets, i) <==> replies[i] is Ok
        &&& replies[i] is Err ==> replies[i]->Err_0 == (if pre@.buckets.contains_key(bucket) {
            S3Error::NoSuchKey
        } else {
            S3Error::NoSuchBucket
        })
    }) by {
        lemma_held_after(states, bucket, targets, replies, i);
        assert(DefaultStorage::may(
            states[i],
            Call::DeleteObject { bucket, key: targets[i].key },
            states[i + 1],
            Reply::Done(replies[i]),
        ));
        assert(holds(states[i]@, bucket, targets[i].key) <==> replies[i] is Ok);
        assert(states[i]@.buckets.contains_key(bucket) <==> pre@.buckets.dom().contains(bucket));
    }
    assert forall|i: int| 0 <= i < targets.len() implies ({
        let target = #[trigger] targets[i];
        if holds(pre@, bucket, target.key) && !named_before(targets, i) {
            !quiet ==> exists|k: int|
                0 <= k < deleted.len() && (#[trigger] deleted[k]).key == target.key
                    && deleted[k].version_id == target.version_id
        } else {
            exists|k: int|
                0 <= k < errors.len() && (#[trigger] errors[k]).key == target.key
                    && errors[k].version_id == target.version_id && (
                if pre@.buckets.contains_key(bucket) {
                    errors[k].code == "NoSuchKey"@ && errors[k].message
                        == "The specified key does not exist."@
                } else {
                    errors[k].code == "NoSuchBucket"@ && errors[k].message
                        == "The specified bucket does not exist."@
                })
        }
    }) by {
        if replies[i] is Ok {
            let k = lemma_deleted_line(targets, replies, i);
            if !quiet {
                assert(deleted[k].key == targets[i].key);
            }
        } else {
            let k = lemma_error_line(targets, replies, i);
            assert(errors[k].key == targets[i].key);
        }
    }
    assert forall|k: int| 0 <= k < deleted.len() implies holds(
        pre@,
        bucket,
        (#[trigger] deleted[k]).key,
    ) by {
        let i = lemma_deleted_source(targets, replies, k);
        assert(targets[i].key == deleted[k].key);
    }
}

} // verus!
