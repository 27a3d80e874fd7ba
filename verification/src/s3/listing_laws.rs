//! What a listing of objects shows, told by the keys of the bucket.

use crate::order::{lemma_sorted_lists, sorted, text_lt};
use crate::protocol::types::{ObjectState, StorageClass};
use crate::s3::listing::{
    covered, delimiter_cuts, grouped, listing, page, pages_join, rolled_up, selected,
    token_is_a_key, Entry, Group,
};
use crate::s3::model::{
    bucket_kept, list_objects_v2, object_line, object_lines, prefix_lines, well_kept,
    StorageState,
};
use crate::text::{lemma_find_from, lemma_find_in_suffix, occurs_at, starts_with};
use vstd::prelude::*;

verus! {

/// Whether the delimiter stands in the key somewhere behind the prefix.
pub open spec fn cut_behind(key: Seq<char>, prefix: Seq<char>, delimiter: Seq<char>) -> bool {
    delimiter.len() > 0 && exists|at: int| prefix.len() <= at && occurs_at(key, delimiter, at)
}

/// Whether the delimiter stands in the key at `at` behind the prefix, and nowhere before that.
pub open spec fn first_cut(
    key: Seq<char>,
    prefix: Seq<char>,
    delimiter: Seq<char>,
    at: int,
) -> bool {
    &&& delimiter.len() > 0
    &&& prefix.len() <= at
    &&& occurs_at(key, delimiter, at)
    &&& forall|j: int| prefix.len() <= j < at ==> !#[trigger] occurs_at(key, delimiter, j)
}

/// Whether a listing with this prefix that starts behind a token, or else behind a key, is to
/// show the key.
pub open spec fn wanted(
    key: Seq<char>,
    prefix: Seq<char>,
    start_after: Seq<char>,
    token: Seq<char>,
) -> bool {
    &&& starts_with(key, prefix)
    &&& token.len() > 0 ==> text_lt(token, key)
    &&& token.len() == 0 && start_after.len() > 0 ==> text_lt(start_after, key)
}

/// Every listing without a delimiter can be made, and every one whose delimiter begins with an
/// ASCII character.
pub proof fn plain_delimiters_cut(
    keys: Set<Seq<char>>,
    prefix: Seq<char>,
    delimiter: Seq<char>,
)
    requires
        delimiter.len() == 0 || delimiter[0] as int <= 127,
    ensures
        delimiter_cuts(keys, prefix, delimiter),
{
}

/// A key is rolled up where the delimiter stands behind the prefix, and to where it does first.
proof fn lemma_rolled_up(key: Seq<char>, prefix: Seq<char>, delimiter: Seq<char>)
    requires
        starts_with(key, prefix),
    ensures
        match rolled_up(key, prefix, delimiter) {
            Some(p) => prefix.len() < p.len() <= key.len() && p == key.take(p.len() as int)
                && first_cut(key, prefix, delimiter, p.len() - 1),
            None => !cut_behind(key, prefix, delimiter),
        },
{
    if delimiter.len() > 0 {
        let n = prefix.len() as int;
        lemma_find_in_suffix(key, delimiter, n, 0);
        lemma_find_from(key, delimiter, n);
        lemma_find_from(key.skip(n), delimiter, 0);
    }
}

/// Only one place is the first cut.
proof fn lemma_first_cut_is_one(
    key: Seq<char>,
    prefix: Seq<char>,
    delimiter: Seq<char>,
    a: int,
    b: int,
)
    requires
        first_cut(key, prefix, delimiter, a),
        first_cut(key, prefix, delimiter, b),
    ensures
        a == b,
{
}

/// The index of the key that opened a line.
spec fn opener(keys: Seq<Seq<char>>, prefix: Seq<char>, delimiter: Seq<char>, i: int) -> int
    decreases keys.len(),
{
    if keys.len() == 0 || i >= grouped(keys.drop_last(), prefix, delimiter).len() {
        keys.len() - 1
    } else {
        opener(keys.drop_last(), prefix, delimiter, i)
    }
}

/// A line says of the key that opened it what it was made from, and no common prefix before it
/// covers that key.
proof fn lemma_opener(keys: Seq<Seq<char>>, prefix: Seq<char>, delimiter: Seq<char>, i: int)
    requires
        0 <= i < grouped(keys, prefix, delimiter).len(),
    ensures
        0 <= opener(keys, prefix, delimiter, i) < keys.len(),
        ({
            let key = keys[opener(keys, prefix, delimiter, i)];
            match grouped(keys, prefix, delimiter)[i].entry {
                Entry::Object(k) => k == key && rolled_up(key, prefix, delimiter) is None,
                Entry::Prefix(p) => rolled_up(key, prefix, delimiter) == Some(p),
            }
        }),
        forall|e: int|
            0 <= e < i && (#[trigger] grouped(keys, prefix, delimiter)[e]).entry is Prefix
                ==> !starts_with(
                keys[opener(keys, prefix, delimiter, i)],
                grouped(keys, prefix, delimiter)[e].entry->Prefix_0,
            ),
    decreases keys.len(),
{
    let init = grouped(keys.drop_last(), prefix, delimiter);
    let all = grouped(keys, prefix, delimiter);
    assert forall|e: int| 0 <= e < init.len() implies (#[trigger] all[e]).entry
        == init[e].entry by {}
    if i < init.len() {
        lemma_opener(keys.drop_last(), prefix, delimiter, i);
        let k = opener(keys.drop_last(), prefix, delimiter, i);
        assert(keys[k] == keys.drop_last()[k]);
        assert forall|e: int| 0 <= e < i && (#[trigger] all[e]).entry is Prefix implies {
            !starts_with(keys[k], all[e].entry->Prefix_0)
        } by {
            assert(init[e].entry is Prefix);
        }
    } else {
        assert forall|e: int| 0 <= e < i && (#[trigger] all[e]).entry is Prefix implies {
            !starts_with(keys.last(), all[e].entry->Prefix_0)
        } by {
            assert(init[e].entry is Prefix);
        }
    }
}

/// Lines are opened by keys in their order.
proof fn lemma_openers_ascend(
    keys: Seq<Seq<char>>,
    prefix: Seq<char>,
    delimiter: Seq<char>,
    a: int,
    b: int,
)
    requires
        0 <= a < b < grouped(keys, prefix, delimiter).len(),
    ensures
        opener(keys, prefix, delimiter, a) < opener(keys, prefix, delimiter, b),
    decreases keys.len(),
{
    let init = grouped(keys.drop_last(), prefix, delimiter);
    if b < init.len() {
        lemma_openers_ascend(keys.drop_last(), prefix, delimiter, a, b);
    } else {
        lemma_opener(keys.drop_last(), prefix, delimiter, a);
    }
}

/// The index of the line that an object on a page stands on.
spec fn object_place(groups: Seq<Group>, objects: Map<Seq<char>, ObjectState>, i: int) -> int
    decreases groups.len(),
{
    if groups.len() == 0 || i >= object_lines(groups.drop_last(), objects).len() {
        groups.len() - 1
    } else {
        object_place(groups.drop_last(), objects, i)
    }
}

/// An object on a page stands on a line of the listing.
proof fn lemma_object_place(groups: Seq<Group>, objects: Map<Seq<char>, ObjectState>, i: int)
    requires
        0 <= i < object_lines(groups, objects).len(),
    ensures
        0 <= object_place(groups, objects, i) < groups.len(),
        ({
            let entry = groups[object_place(groups, objects, i)].entry;
            entry is Object && object_lines(groups, objects)[i] == object_line(
                entry->Object_0,
                objects[entry->Object_0],
            )
        }),
    decreases groups.len(),
{
    if i < object_lines(groups.drop_last(), objects).len() {
        lemma_object_place(groups.drop_last(), objects, i);
    }
}

/// Objects on a page stand in the order of their lines.
proof fn lemma_object_places_ascend(
    groups: Seq<Group>,
    objects: Map<Seq<char>, ObjectState>,
    a: int,
    b: int,
)
    requires
        0 <= a < b < object_lines(groups, objects).len(),
    ensures
        object_place(groups, objects, a) < object_place(groups, objects, b),
    decreases groups.len(),
{
    if b < object_lines(groups.drop_last(), objects).len() {
        lemma_object_places_ascend(groups.drop_last(), objects, a, b);
    } else {
        lemma_object_place(groups.drop_last(), objects, a);
    }
}

/// Every line that is an object is on the page.
proof fn lemma_object_shown(groups: Seq<Group>, objects: Map<Seq<char>, ObjectState>, g: int) -> (i:
    int)
    requires
        0 <= g < groups.len(),
        groups[g].entry is Object,
    ensures
        0 <= i < object_lines(groups, objects).len(),
        object_lines(groups, objects)[i].key == groups[g].entry->Object_0,
    decreases groups.len(),
{
    if g < groups.len() - 1 {
        let i = lemma_object_shown(groups.drop_last(), objects, g);
        i
    } else {
        object_lines(groups, objects).len() - 1
    }
}

/// The index of the line that a common prefix on a page stands on.
spec fn prefix_place(groups: Seq<Group>, i: int) -> int
    decreases groups.len(),
{
    if groups.len() == 0 || i >= prefix_lines(groups.drop_last()).len() {
        groups.len() - 1
    } else {
        prefix_place(groups.drop_last(), i)
    }
}

/// A common prefix on a page stands on a line of the listing.
proof fn lemma_prefix_place(groups: Seq<Group>, i: int)
    requires
        0 <= i < prefix_lines(groups).len(),
    ensures
        0 <= prefix_place(groups, i) < groups.len(),
        groups[prefix_place(groups, i)].entry == Entry::Prefix(prefix_lines(groups)[i]),
    decreases groups.len(),
{
    if i < prefix_lines(groups.drop_last()).len() {
        lemma_prefix_place(groups.drop_last(), i);
    }
}

/// Common prefixes on a page stand in the order of their lines.
proof fn lemma_prefix_places_ascend(groups: Seq<Group>, a: int, b: int)
    requires
        0 <= a < b < prefix_lines(groups).len(),
    ensures
        prefix_place(groups, a) < prefix_place(groups, b),
    decreases groups.len(),
{
    if b < prefix_lines(groups.drop_last()).len() {
        lemma_prefix_places_ascend(groups.drop_last(), a, b);
    } else {
        lemma_prefix_place(groups.drop_last(), a);
    }
}

/// Every line that is a common prefix is on the page.
proof fn lemma_prefix_shown(groups: Seq<Group>, g: int) -> (i: int)
    requires
        0 <= g < groups.len(),
        groups[g].entry is Prefix,
    ensures
        0 <= i < prefix_lines(groups).len(),
        prefix_lines(groups)[i] == groups[g].entry->Prefix_0,
    decreases groups.len(),
{
    if g < groups.len() - 1 {
        let i = lemma_prefix_shown(groups.drop_last(), g);
        i
    } else {
        prefix_lines(groups).len() - 1
    }
}

/// Every line is an object or a common prefix.
proof fn lemma_lines_counted(groups: Seq<Group>, objects: Map<Seq<char>, ObjectState>)
    ensures
        object_lines(groups, objects).len() + prefix_lines(groups).len() == groups.len(),
    decreases groups.len(),
{
    if groups.len() > 0 {
        lemma_lines_counted(groups.drop_last(), objects);
    }
}

/// The keys that a listing goes through, in order.
spec fn keys_of(
    objects: Map<Seq<char>, ObjectState>,
    prefix: Seq<char>,
    start_after: Seq<char>,
    token: Seq<char>,
) -> Seq<Seq<char>> {
    sorted(
        selected(
            objects.dom(),
            prefix,
            if token.len() > 0 {
                token
            } else {
                start_after
            },
        ),
    )
}

/// A listing goes through the keys that it is to show, each once and in order.
proof fn lemma_keys(
    objects: Map<Seq<char>, ObjectState>,
    prefix: Seq<char>,
    start_after: Seq<char>,
    token: Seq<char>,
)
    requires
        objects.dom().finite(),
    ensures
        ({
            let keys = keys_of(objects, prefix, start_after, token);
            &&& forall|i: int|
                0 <= i < keys.len() ==> objects.contains_key(#[trigger] keys[i]) && wanted(
                    keys[i],
                    prefix,
                    start_after,
                    token,
                )
            &&& forall|i: int, j: int|
                0 <= i < j < keys.len() ==> #[trigger] text_lt(keys[i], keys[j])
            &&& forall|k: Seq<char>|
                objects.contains_key(k) && wanted(k, prefix, start_after, token)
                    ==> #[trigger] keys.contains(k)
        }),
{
    let skip = if token.len() > 0 {
        token
    } else {
        start_after
    };
    let set = selected(objects.dom(), prefix, skip);
    let keys = sorted(set);
    lemma_sorted_lists(set);
    assert forall|i: int| 0 <= i < keys.len() implies objects.contains_key(#[trigger] keys[i])
        && wanted(keys[i], prefix, start_after, token) by {
        assert(set.contains(keys[i]));
    }
    assert forall|k: Seq<char>|
        objects.contains_key(k) && wanted(k, prefix, start_after, token) implies {
        #[trigger] keys.contains(k)
    } by {
        assert(set.contains(k));
    }
}

/// An object that a listing shows is an object of the bucket, as it is there. Its key has the
/// prefix and comes behind the place where the listing starts, no delimiter stands in it behind
/// the prefix, and it is above the key of every object shown before it.
pub proof fn listed_objects_are_of_this_level(
    s: StorageState,
    bucket: Seq<char>,
    prefix: Seq<char>,
    delimiter: Seq<char>,
    start_after: Seq<char>,
    max_keys: u32,
    token: Seq<char>,
    i: int,
)
    requires
        well_kept(s),
        list_objects_v2(s, bucket, prefix, delimiter, start_after, max_keys, token) is Ok,
        ({
            let page = list_objects_v2(
                s,
                bucket,
                prefix,
                delimiter,
                start_after,
                max_keys,
                token,
            )->Ok_0;
            0 <= i < page.contents.len()
        }),
    ensures
        ({
            let page = list_objects_v2(
                s,
                bucket,
                prefix,
                delimiter,
                start_after,
                max_keys,
                token,
            )->Ok_0;
            let objects = s.buckets[bucket].objects;
            let line = page.contents[i];
            &&& objects.contains_key(line.key)
            &&& line.etag == objects[line.key].etag
            &&& line.size == objects[line.key].data.len()
            &&& line.last_modified == objects[line.key].last_modified
            &&& line.storage_class == StorageClass::STANDARD
            &&& line.owner is None
            &&& wanted(line.key, prefix, start_after, token)
            &&& !cut_behind(line.key, prefix, delimiter)
            &&& forall|j: int|
                0 <= j < i ==> text_lt((#[trigger] page.contents[j]).key, line.key)
        }),
{
    assert(bucket_kept(s.buckets[bucket], bucket));
    let objects = s.buckets[bucket].objects;
    let page = list_objects_v2(
        s,
        bucket,
        prefix,
        delimiter,
        start_after,
        max_keys,
        token,
    )->Ok_0;
    let keys = keys_of(objects, prefix, start_after, token);
    let groups = grouped(keys, prefix, delimiter);
    let limit = if max_keys == 0 {
        1int
    } else {
        max_keys as int
    };
    let shown = if groups.len() > limit {
        groups.take(limit)
    } else {
        groups
    };
    assert(page.contents == object_lines(shown, objects));
    lemma_keys(objects, prefix, start_after, token);
    lemma_object_place(shown, objects, i);
    let g = object_place(shown, objects, i);
    assert(shown[g] == groups[g]);
    lemma_opener(keys, prefix, delimiter, g);
    let k = opener(keys, prefix, delimiter, g);
    assert(objects.contains_key(keys[k]));
    lemma_rolled_up(keys[k], prefix, delimiter);
    assert forall|j: int| 0 <= j < i implies text_lt(
        (#[trigger] page.contents[j]).key,
        page.contents[i].key,
    ) by {
        lemma_object_place(shown, objects, j);
        lemma_object_places_ascend(shown, objects, j, i);
        let h = object_place(shown, objects, j);
        assert(shown[h] == groups[h]);
        lemma_opener(keys, prefix, delimiter, h);
        lemma_openers_ascend(keys, prefix, delimiter, h, g);
        assert(text_lt(keys[opener(keys, prefix, delimiter, h)], keys[k]));
    }
}

/// A common prefix that a listing shows is the front of a key of the bucket that has the prefix
/// and comes behind the place where the listing starts: the prefix, then text in which no
/// delimiter stands, then the first character of the delimiter. It is longer than the prefix,
/// and shown once.
pub proof fn common_prefixes_end_at_the_delimiter(
    s: StorageState,
    bucket: Seq<char>,
    prefix: Seq<char>,
    delimiter: Seq<char>,
    start_after: Seq<char>,
    max_keys: u32,
    token: Seq<char>,
    i: int,
)
    requires
        well_kept(s),
        list_objects_v2(s, bucket, prefix, delimiter, start_after, max_keys, token) is Ok,
        ({
            let page = list_objects_v2(
                s,
                bucket,
                prefix,
                delimiter,
                start_after,
                max_keys,
                token,
            )->Ok_0;
            0 <= i < page.common_prefixes.len()
        }),
    ensures
        ({
            let page = list_objects_v2(
                s,
                bucket,
                prefix,
                delimiter,
                start_after,
                max_keys,
                token,
            )->Ok_0;
            let objects = s.buckets[bucket].objects;
            let p = page.common_prefixes[i];
            &&& delimiter.len() > 0
            &&& p.len() > prefix.len()
            &&& starts_with(p, prefix)
            &&& p.last() == delimiter[0]
            &&& forall|j: int|
                prefix.len() <= j ==> !#[trigger] occurs_at(p.drop_last(), delimiter, j)
            &&& exists|key: Seq<char>| #[trigger]
                objects.contains_key(key) && wanted(key, prefix, start_after, token)
                    && starts_with(key, p) && first_cut(key, prefix, delimiter, p.len() - 1)
            &&& forall|j: int| 0 <= j < i ==> #[trigger] page.common_prefixes[j] != p
        }),
{
    assert(bucket_kept(s.buckets[bucket], bucket));
    let objects = s.buckets[bucket].objects;
    let page = list_objects_v2(
        s,
        bucket,
        prefix,
        delimiter,
        start_after,
        max_keys,
        token,
    )->Ok_0;
    let keys = keys_of(objects, prefix, start_after, token);
    let groups = grouped(keys, prefix, delimiter);
    let limit = if max_keys == 0 {
        1int
    } else {
        max_keys as int
    };
    let shown = if groups.len() > limit {
        groups.take(limit)
    } else {
        groups
    };
    assert(page.common_prefixes == prefix_lines(shown));
    lemma_keys(objects, prefix, start_after, token);
    lemma_prefix_place(shown, i);
    let g = prefix_place(shown, i);
    assert(shown[g] == groups[g]);
    lemma_opener(keys, prefix, delimiter, g);
    let k = opener(keys, prefix, delimiter, g);
    let key = keys[k];
    let p = page.common_prefixes[i];
    assert(objects.contains_key(keys[k]));
    lemma_rolled_up(key, prefix, delimiter);
    assert(key.subrange(0, p.len() as int) =~= p);
    assert(starts_with(key, p));
    assert(p.subrange(0, prefix.len() as int) =~= key.subrange(0, prefix.len() as int));
    let at = p.len() - 1;
    assert(key.subrange(at, at + delimiter.len())[0] == delimiter[0]);
    assert(p.last() == key[at]);
    assert forall|j: int| prefix.len() <= j implies !#[trigger] occurs_at(
        p.drop_last(),
        delimiter,
        j,
    ) by {
        if occurs_at(p.drop_last(), delimiter, j) {
            assert(key.subrange(j, j + delimiter.len()) =~= p.drop_last().subrange(
                j,
                j + delimiter.len(),
            ));
            assert(occurs_at(key, delimiter, j));
        }
    }
    assert forall|j: int| 0 <= j < i implies #[trigger] page.common_prefixes[j] != p by {
        lemma_prefix_place(shown, j);
        lemma_prefix_places_ascend(shown, j, i);
        let h = prefix_place(shown, j);
        assert(shown[h] == groups[h]);
        assert(groups[h].entry is Prefix);
    }
}

/// The lines of a page are its objects and its common prefixes. There are at most as many as
/// were asked for, at least one being allowed. A page is truncated where there is no room for
/// all: it is full, and a key that the listing is to show comes behind its token.
pub proof fn truncated_page_is_full(
    s: StorageState,
    bucket: Seq<char>,
    prefix: Seq<char>,
    delimiter: Seq<char>,
    start_after: Seq<char>,
    max_keys: u32,
    token: Seq<char>,
)
    requires
        well_kept(s),
        list_objects_v2(s, bucket, prefix, delimiter, start_after, max_keys, token) is Ok,
    ensures
        ({
            let page = list_objects_v2(
                s,
                bucket,
                prefix,
                delimiter,
                start_after,
                max_keys,
                token,
            )->Ok_0;
            let objects = s.buckets[bucket].objects;
            let room = if max_keys == 0 {
                1
            } else {
                max_keys as int
            };
            &&& page.key_count == page.contents.len() + page.common_prefixes.len()
            &&& page.key_count <= room
            &&& !page.is_truncated ==> page.next_continuation_token.len() == 0
            &&& page.is_truncated ==> page.key_count == room && objects.contains_key(
                page.next_continuation_token,
            )
            &&& page.is_truncated && !objects.contains_key(Seq::empty())
                ==> exists|key: Seq<char>| #[trigger]
                objects.contains_key(key) && starts_with(key, prefix) && text_lt(
                    page.next_continuation_token,
                    key,
                )
        }),
{
    assert(bucket_kept(s.buckets[bucket], bucket));
    let objects = s.buckets[bucket].objects;
    let page = list_objects_v2(
        s,
        bucket,
        prefix,
        delimiter,
        start_after,
        max_keys,
        token,
    )->Ok_0;
    let keys = keys_of(objects, prefix, start_after, token);
    let groups = grouped(keys, prefix, delimiter);
    let limit: nat = if max_keys == 0 {
        1
    } else {
        max_keys as nat
    };
    let skip = if token.len() > 0 {
        token
    } else {
        start_after
    };
    let shown = crate::s3::listing::page(groups, limit);
    lemma_lines_counted(shown, objects);
    if groups.len() > limit {
        assert(groups == listing(objects.dom(), prefix, delimiter, skip));
        token_is_a_key(objects.dom(), prefix, delimiter, skip, limit);
        if !objects.contains_key(Seq::empty()) {
            let next = page.next_continuation_token;
            if next.len() == 0 {
                assert(next =~= Seq::empty());
            }
            pages_join(objects.dom(), prefix, delimiter, skip, limit);
            let rest = listing(objects.dom(), prefix, delimiter, next);
            assert(rest.len() > 0);
            let left = keys_of(objects, prefix, start_after, next);
            lemma_keys(objects, prefix, start_after, next);
            assert(rest == grouped(left, prefix, delimiter));
            assert(left.len() > 0);
            assert(objects.contains_key(left[0]));
        }
    }
}

/// A page that is not truncated leaves out no key that it is to show: it is a line of its own,
/// or falls under a common prefix. With a delimiter of one character or none, a key is a line of
/// its own exactly where no delimiter stands in it behind the prefix; else its front up to the
/// first delimiter behind the prefix is a common prefix.
pub proof fn every_key_is_shown(
    s: StorageState,
    bucket: Seq<char>,
    prefix: Seq<char>,
    delimiter: Seq<char>,
    start_after: Seq<char>,
    max_keys: u32,
    token: Seq<char>,
    key: Seq<char>,
)
    requires
        well_kept(s),
        list_objects_v2(s, bucket, prefix, delimiter, start_after, max_keys, token) is Ok,
        !list_objects_v2(
            s,
            bucket,
            prefix,
            delimiter,
            start_after,
            max_keys,
            token,
        )->Ok_0.is_truncated,
        s.buckets[bucket].objects.contains_key(key),
        wanted(key, prefix, start_after, token),
    ensures
        ({
            let page = list_objects_v2(
                s,
                bucket,
                prefix,
                delimiter,
                start_after,
                max_keys,
                token,
            )->Ok_0;
            let alone = exists|i: int|
                0 <= i < page.contents.len() && (#[trigger] page.contents[i]).key == key;
            &&& alone || exists|i: int|
                0 <= i < page.common_prefixes.len() && starts_with(
                    key,
                    #[trigger] page.common_prefixes[i],
                )
            &&& delimiter.len() <= 1 ==> (alone <==> !cut_behind(key, prefix, delimiter))
            &&& delimiter.len() <= 1 ==> forall|at: int| #[trigger]
                first_cut(key, prefix, delimiter, at) ==> page.common_prefixes.contains(
                    key.take(at + 1),
                )
        }),
{
    assert(bucket_kept(s.buckets[bucket], bucket));
    let objects = s.buckets[bucket].objects;
    let page = list_objects_v2(
        s,
        bucket,
        prefix,
        delimiter,
        start_after,
        max_keys,
        token,
    )->Ok_0;
    let keys = keys_of(objects, prefix, start_after, token);
    let groups = grouped(keys, prefix, delimiter);
    lemma_keys(objects, prefix, start_after, token);
    assert(page.contents == object_lines(groups, objects));
    assert(page.common_prefixes == prefix_lines(groups));
    assert(keys.contains(key));
    let at = choose|i: int| 0 <= i < keys.len() && keys[i] == key;
    assert forall|k: int| 0 <= k < keys.len() implies starts_with(#[trigger] keys[k], prefix) by {
        assert(wanted(keys[k], prefix, start_after, token));
    }
    crate::s3::listing::lemma_key_listed(keys, prefix, delimiter, at);
    let alone = exists|i: int|
        0 <= i < page.contents.len() && (#[trigger] page.contents[i]).key == key;
    if alone {
        let i = choose|i: int|
            0 <= i < page.contents.len() && (#[trigger] page.contents[i]).key == key;
        listed_objects_are_of_this_level(
            s,
            bucket,
            prefix,
            delimiter,
            start_after,
            max_keys,
            token,
            i,
        );
    }
    if covered(groups, key) {
        let g = choose|g: int|
            0 <= g < groups.len() && (#[trigger] groups[g]).entry is Prefix && starts_with(
                key,
                groups[g].entry->Prefix_0,
            );
        let i = lemma_prefix_shown(groups, g);
        let p = page.common_prefixes[i];
        assert(starts_with(key, page.common_prefixes[i]));
        if delimiter.len() <= 1 {
            common_prefixes_end_at_the_delimiter(
                s,
                bucket,
                prefix,
                delimiter,
                start_after,
                max_keys,
                token,
                i,
            );
            let last = p.len() - 1;
            assert(key.subrange(0, p.len() as int)[last] == p[last]);
            assert(key.subrange(last, last + 1) =~= delimiter);
            assert(occurs_at(key, delimiter, last));
            assert forall|j: int| prefix.len() <= j < last implies !#[trigger] occurs_at(
                key,
                delimiter,
                j,
            ) by {
                if occurs_at(key, delimiter, j) {
                    assert(key.subrange(0, p.len() as int)[j] == p[j]);
                    assert(key.subrange(j, j + 1)[0] == delimiter[0]);
                    assert(p.drop_last().subrange(j, j + 1) =~= delimiter);
                    assert(occurs_at(p.drop_last(), delimiter, j));
                }
            }
            assert(first_cut(key, prefix, delimiter, last));
            assert(key.take(last + 1) =~= p);
            assert(page.common_prefixes.contains(p));
        }
    } else {
        let g = choose|g: int|
            0 <= g < groups.len() && (#[trigger] groups[g]).entry == Entry::Object(key);
        let i = lemma_object_shown(groups, objects, g);
        assert(page.contents[i].key == key);
        listed_objects_are_of_this_level(
            s,
            bucket,
            prefix,
            delimiter,
            start_after,
            max_keys,
            token,
            i,
        );
    }
}

} // verus!
