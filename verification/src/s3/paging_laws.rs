//! What holds of the pages of a listing, taken together.

use crate::protocol::types::{ObjectLine, ObjectState};
use crate::s3::listing::{listing, listing_is_no_longer, pages_join, token_is_a_key, Group};
use crate::s3::model::{
    bucket_kept, list_objects_v2, object_lines, page_limit, prefix_lines, resume_point, well_kept,
    within_limits, ObjectPage, S3Error, StorageState,
};
use vstd::prelude::*;

verus! {

/// Whether the tokens of a bucket's pages lead on. The empty key makes no token: a page that
/// ended with it would lead back to the first.
pub open spec fn tokens_lead_on(s: StorageState, bucket: Seq<char>) -> bool {
    &&& well_kept(s)
    &&& s.buckets.contains_key(bucket)
    &&& !s.buckets[bucket].objects.contains_key(Seq::empty())
}

/// All lines of the listing of a bucket from a token on.
pub open spec fn lines_from(
    s: StorageState,
    bucket: Seq<char>,
    prefix: Seq<char>,
    delimiter: Seq<char>,
    start_after: Seq<char>,
    token: Seq<char>,
) -> Seq<Group> {
    listing(
        s.buckets[bucket].objects.dom(),
        prefix,
        delimiter,
        resume_point(start_after, token),
    )
}

/// The pages that one gets by asking for the page behind a token, and then for the page behind
/// the token of each page that is not the last.
pub open spec fn page_chain(
    s: StorageState,
    bucket: Seq<char>,
    prefix: Seq<char>,
    delimiter: Seq<char>,
    start_after: Seq<char>,
    max_keys: u32,
    token: Seq<char>,
) -> Seq<ObjectPage>
    decreases lines_from(s, bucket, prefix, delimiter, start_after, token).len(),
    when tokens_lead_on(s, bucket)
    via tokens_end
{
    match list_objects_v2(s, bucket, prefix, delimiter, start_after, max_keys, token) {
        Err(_) => Seq::empty(),
        Ok(page) => if page.is_truncated {
            seq![page] + page_chain(
                s,
                bucket,
                prefix,
                delimiter,
                start_after,
                max_keys,
                page.next_continuation_token,
            )
        } else {
            seq![page]
        },
    }
}

/// Following the tokens comes to an end: fewer lines are left behind each.
#[via_fn]
proof fn tokens_end(
    s: StorageState,
    bucket: Seq<char>,
    prefix: Seq<char>,
    delimiter: Seq<char>,
    start_after: Seq<char>,
    max_keys: u32,
    token: Seq<char>,
) {
    if tokens_lead_on(s, bucket) {
        lemma_token_leads_on(s, bucket, prefix, delimiter, start_after, max_keys, token);
    }
}

/// What is behind the token of a page: the lines that follow the page.
proof fn lemma_token_leads_on(
    s: StorageState,
    bucket: Seq<char>,
    prefix: Seq<char>,
    delimiter: Seq<char>,
    start_after: Seq<char>,
    max_keys: u32,
    token: Seq<char>,
)
    requires
        tokens_lead_on(s, bucket),
    ensures
        ({
            let lines = lines_from(s, bucket, prefix, delimiter, start_after, token);
            let limit = page_limit(max_keys);
            let page = list_objects_v2(
                s,
                bucket,
                prefix,
                delimiter,
                start_after,
                max_keys,
                token,
            )->Ok_0;
            page.is_truncated ==> lines.len() > limit && lines_from(
                s,
                bucket,
                prefix,
                delimiter,
                start_after,
                page.next_continuation_token,
            ) == lines.skip(limit as int)
        }),
{
    let lines = lines_from(s, bucket, prefix, delimiter, start_after, token);
    let limit = page_limit(max_keys);
    assert(bucket_kept(s.buckets[bucket], bucket));
    let keys = s.buckets[bucket].objects.dom();
    if lines.len() > limit {
        let skip = resume_point(start_after, token);
        token_is_a_key(keys, prefix, delimiter, skip, limit);
        let next = lines[limit - 1].last;
        if next.len() == 0 {
            assert(next =~= Seq::empty());
        }
        pages_join(keys, prefix, delimiter, skip, limit);
    }
}

/// The objects on all pages, one page after the other.
pub open spec fn joined_contents(pages: Seq<ObjectPage>) -> Seq<ObjectLine> {
    pages.map_values(|p: ObjectPage| p.contents).flatten()
}

/// The common prefixes on all pages, one page after the other.
pub open spec fn joined_prefixes(pages: Seq<ObjectPage>) -> Seq<Seq<char>> {
    pages.map_values(|p: ObjectPage| p.common_prefixes).flatten()
}

/// Lines stay lines where listings are joined.
proof fn lemma_lines_of_runs(
    a: Seq<Group>,
    b: Seq<Group>,
    objects: Map<Seq<char>, ObjectState>,
)
    ensures
        object_lines(a + b, objects) == object_lines(a, objects) + object_lines(b, objects),
        prefix_lines(a + b) == prefix_lines(a) + prefix_lines(b),
    decreases b.len(),
{
    if b.len() == 0 {
        assert(a + b =~= a);
    } else {
        lemma_lines_of_runs(a, b.drop_last(), objects);
        assert((a + b).drop_last() =~= a + b.drop_last());
        assert((a + b).last() == b.last());
    }
}

/// The first page of a chain and the rest of it.
proof fn lemma_joined_pages(page: ObjectPage, rest: Seq<ObjectPage>)
    ensures
        joined_contents(seq![page] + rest) == page.contents + joined_contents(rest),
        joined_prefixes(seq![page] + rest) == page.common_prefixes + joined_prefixes(rest),
{
    let pages = seq![page] + rest;
    let contents = |p: ObjectPage| p.contents;
    let prefixes = |p: ObjectPage| p.common_prefixes;
    assert(pages.map_values(contents).drop_first() =~= rest.map_values(contents));
    assert(pages.map_values(contents).first() == page.contents);
    assert(pages.map_values(prefixes).drop_first() =~= rest.map_values(prefixes));
    assert(pages.map_values(prefixes).first() == page.common_prefixes);
}

/// Following the tokens of the pages gives the whole listing. The chain begins with the page that
/// was asked for, each page leads to the next, the last is not truncated, and the pages joined
/// hold every line of the listing once and in order.
pub proof fn pages_are_the_whole_listing(
    s: StorageState,
    bucket: Seq<char>,
    prefix: Seq<char>,
    delimiter: Seq<char>,
    start_after: Seq<char>,
    max_keys: u32,
    token: Seq<char>,
)
    requires
        tokens_lead_on(s, bucket),
    ensures
        ({
            let chain = page_chain(s, bucket, prefix, delimiter, start_after, max_keys, token);
            let lines = lines_from(s, bucket, prefix, delimiter, start_after, token);
            &&& chain.len() > 0
            &&& list_objects_v2(s, bucket, prefix, delimiter, start_after, max_keys, token)
                == Ok::<_, S3Error>(chain[0])
            &&& forall|i: int|
                0 <= i < chain.len() - 1 ==> (#[trigger] chain[i]).is_truncated && list_objects_v2(
                    s,
                    bucket,
                    prefix,
                    delimiter,
                    start_after,
                    max_keys,
                    chain[i].next_continuation_token,
                ) == Ok::<_, S3Error>(chain[i + 1])
            &&& !chain.last().is_truncated
            &&& joined_contents(chain) == object_lines(lines, s.buckets[bucket].objects)
            &&& joined_prefixes(chain) == prefix_lines(lines)
        }),
    decreases lines_from(s, bucket, prefix, delimiter, start_after, token).len(),
{
    let objects = s.buckets[bucket].objects;
    let chain = page_chain(s, bucket, prefix, delimiter, start_after, max_keys, token);
    let lines = lines_from(s, bucket, prefix, delimiter, start_after, token);
    let limit = page_limit(max_keys) as int;
    let page = list_objects_v2(
        s,
        bucket,
        prefix,
        delimiter,
        start_after,
        max_keys,
        token,
    )->Ok_0;
    if page.is_truncated {
        let next = page.next_continuation_token;
        let rest = page_chain(s, bucket, prefix, delimiter, start_after, max_keys, next);
        lemma_token_leads_on(s, bucket, prefix, delimiter, start_after, max_keys, token);
        pages_are_the_whole_listing(s, bucket, prefix, delimiter, start_after, max_keys, next);
        assert(chain == seq![page] + rest);
        lemma_joined_pages(page, rest);
        lemma_lines_of_runs(lines.take(limit), lines.skip(limit), objects);
        assert(lines.take(limit) + lines.skip(limit) =~= lines);
        assert forall|i: int| 0 <= i < chain.len() - 1 implies {
            (#[trigger] chain[i]).is_truncated && list_objects_v2(
                s,
                bucket,
                prefix,
                delimiter,
                start_after,
                max_keys,
                chain[i].next_continuation_token,
            ) == Ok::<_, S3Error>(chain[i + 1])
        } by {
            if i > 0 {
                assert(chain[i] == rest[i - 1]);
                assert(chain[i + 1] == rest[i]);
            }
        }
        assert(chain.last() == rest.last());
    } else {
        let none = Seq::<ObjectPage>::empty();
        assert(chain =~= seq![page] + none);
        lemma_joined_pages(page, none);
        assert(joined_contents(none) =~= Seq::empty());
        assert(joined_prefixes(none) =~= Seq::empty());
    }
}

/// Small pages joined hold what one page of the largest size holds, whatever the size of a page
/// that is asked for. The one page must have room for all lines, as it has for those of a bucket
/// within its limits.
pub proof fn small_pages_make_a_large_one(
    s: StorageState,
    bucket: Seq<char>,
    prefix: Seq<char>,
    delimiter: Seq<char>,
    start_after: Seq<char>,
    max_keys: u32,
    token: Seq<char>,
)
    requires
        tokens_lead_on(s, bucket),
        lines_from(s, bucket, prefix, delimiter, start_after, token).len() <= u32::MAX,
    ensures
        ({
            let chain = page_chain(s, bucket, prefix, delimiter, start_after, max_keys, token);
            let large = list_objects_v2(
                s,
                bucket,
                prefix,
                delimiter,
                start_after,
                u32::MAX,
                token,
            )->Ok_0;
            &&& !large.is_truncated
            &&& joined_contents(chain) == large.contents
            &&& joined_prefixes(chain) == large.common_prefixes
        }),
{
    pages_are_the_whole_listing(s, bucket, prefix, delimiter, start_after, max_keys, token);
}

/// A page of the largest size has room for the lines of every bucket within its limits.
pub proof fn large_page_has_room(
    s: StorageState,
    bucket: Seq<char>,
    prefix: Seq<char>,
    delimiter: Seq<char>,
    start_after: Seq<char>,
    token: Seq<char>,
)
    requires
        well_kept(s),
        within_limits(s),
        s.buckets.contains_key(bucket),
    ensures
        lines_from(s, bucket, prefix, delimiter, start_after, token).len() <= u32::MAX,
{
    assert(bucket_kept(s.buckets[bucket], bucket));
    listing_is_no_longer(
        s.buckets[bucket].objects.dom(),
        prefix,
        delimiter,
        resume_point(start_after, token),
    );
}

} // verus!
