//! Listing of keys: selection by prefix, grouping by delimiter, and pages.

use crate::order::{
    ascending, at_most, lemma_le_antisymmetric, lemma_le_reflexive, lemma_lt_is_not_le,
    lemma_lt_transitive, lemma_prefix_between, lemma_sorted_is, lemma_sorted_lists, lists,
    sort_distinct, sorted, text_lt,
};
use crate::text::{
    chars_of, contains, find, find_chars, has_prefix, lemma_find_from, lemma_find_in_suffix,
    starts_with, string_of, texts,
};
use vstd::prelude::*;
use vstd::string::*;

verus! {

/// One line of a listing: a key by itself, or the common prefix of several keys.
pub enum ListEntry {
    Object(String),
    Prefix(String),
}

/// A line of a listing with the last key that it stands for.
pub struct EntryGroup {
    pub entry: ListEntry,
    pub last: String,
}

/// What a `ListEntry` denotes.
pub enum Entry {
    Object(Seq<char>),
    Prefix(Seq<char>),
}

/// What an `EntryGroup` denotes.
pub struct Group {
    pub entry: Entry,
    pub last: Seq<char>,
}

impl View for ListEntry {
    type V = Entry;

    open spec fn view(&self) -> Entry {
        match *self {
            ListEntry::Object(key) => Entry::Object(key@),
            ListEntry::Prefix(prefix) => Entry::Prefix(prefix@),
        }
    }
}

impl View for EntryGroup {
    type V = Group;

    open spec fn view(&self) -> Group {
        Group { entry: self.entry@, last: self.last@ }
    }
}

/// What a sequence of groups denotes.
pub open spec fn groups_view(groups: Seq<EntryGroup>) -> Seq<Group> {
    groups.map_values(|g: EntryGroup| g@)
}

/// The keys that a listing is made of: those with the prefix that come after `skip`.
pub open spec fn selected(keys: Set<Seq<char>>, prefix: Seq<char>, skip: Seq<char>) -> Set<
    Seq<char>,
> {
    keys.filter(|k: Seq<char>| starts_with(k, prefix) && (skip.len() == 0 || text_lt(skip, k)))
}

/// Whether the key falls under a common prefix that is listed already.
pub open spec fn covered(groups: Seq<Group>, key: Seq<char>) -> bool {
    exists|i: int|
        0 <= i < groups.len() && (#[trigger] groups[i]).entry is Prefix && starts_with(
            key,
            groups[i].entry->Prefix_0,
        )
}

/// The common prefix that a key is rolled up into: the key up to the first delimiter that
/// follows the prefix of the listing, and with the first character of that delimiter.
pub open spec fn rolled_up(key: Seq<char>, prefix: Seq<char>, delimiter: Seq<char>) -> Option<
    Seq<char>,
> {
    if delimiter.len() == 0 {
        None
    } else {
        match find(key.skip(prefix.len() as int), delimiter) {
            Some(at) => Some(key.take(prefix.len() + at + 1)),
            None => None,
        }
    }
}

/// The lines of a listing, for keys in ascending order.
pub open spec fn grouped(
    keys: Seq<Seq<char>>,
    prefix: Seq<char>,
    delimiter: Seq<char>,
) -> Seq<Group>
    decreases keys.len(),
{
    if keys.len() == 0 {
        Seq::empty()
    } else {
        let groups = grouped(keys.drop_last(), prefix, delimiter);
        let key = keys.last();
        if covered(groups, key) {
            groups.drop_last().push(Group { entry: groups.last().entry, last: key })
        } else {
            match rolled_up(key, prefix, delimiter) {
                Some(p) => groups.push(Group { entry: Entry::Prefix(p), last: key }),
                None => groups.push(Group { entry: Entry::Object(key), last: key }),
            }
        }
    }
}

/// All lines of the listing of `keys` by prefix and delimiter, after `skip`.
pub open spec fn listing(
    keys: Set<Seq<char>>,
    prefix: Seq<char>,
    delimiter: Seq<char>,
    skip: Seq<char>,
) -> Seq<Group> {
    grouped(sorted(selected(keys, prefix, skip)), prefix, delimiter)
}

/// The first `limit` lines.
pub open spec fn page(groups: Seq<Group>, limit: nat) -> Seq<Group> {
    if groups.len() > limit {
        groups.take(limit as int)
    } else {
        groups
    }
}

/// The key after which the next page begins; empty where there is no next page.
pub open spec fn next_token(groups: Seq<Group>, limit: nat) -> Seq<char> {
    if groups.len() > limit {
        groups[limit - 1].last
    } else {
        Seq::empty()
    }
}

/// Whether the delimiter can cut a key: it begins with an ASCII character, or occurs in none of
/// the keys past the prefix.
pub open spec fn delimiter_cuts(
    keys: Set<Seq<char>>,
    prefix: Seq<char>,
    delimiter: Seq<char>,
) -> bool {
    delimiter.len() == 0 || delimiter[0] <= '\u{7f}' || forall|k: Seq<char>| #[trigger]
        keys.contains(k) ==> !contains(k.skip(prefix.len() as int), delimiter)
}

/// Groups the keys of a listing; they are in ascending order and have the prefix.
fn group_keys(keys: &Vec<String>, prefix: &str, delimiter: &str) -> (groups: Vec<EntryGroup>)
    requires
        forall|i: int| 0 <= i < keys.len() ==> starts_with(#[trigger] keys@[i]@, prefix@),
    ensures
        groups_view(groups@) == grouped(texts(keys@), prefix@, delimiter@),
{
    let delimiter_chars = chars_of(delimiter);
    let prefix_len: usize = prefix.unicode_len();
    let mut groups: Vec<EntryGroup> = Vec::new();
    let mut i: usize = 0;
    assert(groups_view(groups@) =~= grouped(texts(keys@).take(0), prefix@, delimiter@));
    while i < keys.len()
        invariant
            i <= keys.len(),
            delimiter_chars@ == delimiter@,
            prefix_len == prefix@.len(),
            forall|j: int| 0 <= j < keys.len() ==> starts_with(#[trigger] keys@[j]@, prefix@),
            groups_view(groups@) == grouped(texts(keys@).take(i as int), prefix@, delimiter@),
        decreases keys.len() - i,
    {
        let key: &String = &keys[i];
        let ghost before = groups_view(groups@);
        let ghost taken = texts(keys@).take(i as int + 1);
        assert(taken.drop_last() =~= texts(keys@).take(i as int));
        assert(taken.last() == key@);
        i += 1;
        if is_covered(&groups, key.as_str()) {
            let last_key = key.clone();
            let at: usize = groups.len() - 1;
            assert(before.len() == groups.len());
            groups[at].last = last_key;
            assert(groups_view(groups@) =~= before.drop_last().push(
                Group { entry: before.last().entry, last: key@ },
            ));
            continue;
        }
        let key_chars = chars_of(key.as_str());
        if delimiter_chars.len() > 0 {
            proof {
                assert(starts_with(keys@[i - 1]@, prefix@));
                lemma_find_in_suffix(key@, delimiter@, prefix@.len() as int, 0);
            }
            let found = find_chars(&key_chars, &delimiter_chars, prefix_len);
            if let Some(at) = found {
                let group = EntryGroup {
                    entry: ListEntry::Prefix(string_of(&key_chars, 0, at + 1)),
                    last: key.clone(),
                };
                groups.push(group);
                assert(groups_view(groups@) =~= before.push(group@));
                assert(key@.subrange(0, at + 1) =~= key@.take(at + 1));
                continue;
            }
        }
        let group = EntryGroup { entry: ListEntry::Object(key.clone()), last: key.clone() };
        groups.push(group);
        assert(groups_view(groups@) =~= before.push(group@));
    }
    assert(texts(keys@).take(keys.len() as int) =~= texts(keys@));
    groups
}

/// Whether the key falls under a common prefix that is listed already.
fn is_covered(groups: &Vec<EntryGroup>, key: &str) -> (b: bool)
    ensures
        b == covered(groups_view(groups@), key@),
        b ==> groups.len() > 0,
{
    let ghost all = groups_view(groups@);
    let mut i: usize = 0;
    while i < groups.len()
        invariant
            i <= groups.len(),
            all == groups_view(groups@),
            forall|j: int|
                0 <= j < i ==> !((#[trigger] all[j]).entry is Prefix && starts_with(
                    key@,
                    all[j].entry->Prefix_0,
                )),
        decreases groups.len() - i,
    {
        assert(all[i as int] == groups@[i as int]@);
        match &groups[i].entry {
            ListEntry::Prefix(p) => {
                if has_prefix(key, p.as_str()) {
                    return true;
                }
            },
            ListEntry::Object(_) => {},
        }
        i += 1;
    }
    false
}

/// Lists keys by prefix and delimiter, after `skip`: all lines, in ascending order.
pub fn list_keys(keys: Vec<String>, prefix: &str, delimiter: &str, skip: &str) -> (groups: Vec<
    EntryGroup,
>)
    requires
        texts(keys@).no_duplicates(),
        delimiter_cuts(
            selected(texts(keys@).to_set(), prefix@, skip@),
            prefix@,
            delimiter@,
        ),
    ensures
        groups_view(groups@) == listing(texts(keys@).to_set(), prefix@, delimiter@, skip@),
{
    let ghost all = texts(keys@);
    let everything = skip.is_empty();
    let mut chosen: Vec<String> = Vec::new();
    let mut i: usize = 0;
    assert(chosen@ =~= Seq::<String>::empty());
    while i < keys.len()
        invariant
            i <= keys.len(),
            all == texts(keys@),
            all.no_duplicates(),
            everything == (skip@.len() == 0),
            texts(chosen@).no_duplicates(),
            forall|k: Seq<char>| #[trigger]
                texts(chosen@).contains(k) <==> (all.take(i as int).contains(k) && starts_with(
                    k,
                    prefix@,
                ) && (skip@.len() == 0 || text_lt(skip@, k))),
        decreases keys.len() - i,
    {
        let ghost before = texts(chosen@);
        let key: &String = &keys[i];
        let ghost k = all[i as int];
        assert(k == key@);
        let mut take = has_prefix(key.as_str(), prefix);
        if take && !everything {
            take = !at_most(key.as_str(), skip);
        }
        proof {
            lemma_lt_is_not_le(k, skip@);
            assert(all.take(i as int + 1) =~= all.take(i as int).push(k));
            assert(!all.take(i as int).contains(k));
            assert forall|x: Seq<char>| all.take(i as int + 1).contains(x) <==> (all.take(
                i as int,
            ).contains(x) || x == k) by {
                assert(all.take(i as int + 1)[i as int] == k);
                if all.take(i as int).contains(x) {
                    let j = choose|j: int| 0 <= j < i && all.take(i as int)[j] == x;
                    assert(all.take(i as int + 1)[j] == x);
                }
            }
        }
        if take {
            chosen.push(key.clone());
            proof {
                let after = texts(chosen@);
                assert(after =~= before.push(k));
                assert(!before.contains(k));
                assert(after.no_duplicates());
                assert forall|x: Seq<char>| after.contains(x) <==> (before.contains(x) || x
                    == k) by {
                    assert(after[before.len() as int] == k);
                    if before.contains(x) {
                        let j = choose|j: int| 0 <= j < before.len() && before[j] == x;
                        assert(after[j] == x);
                    }
                }
            }
        }
        i += 1;
    }
    proof {
        let set = selected(all.to_set(), prefix@, skip@);
        assert(all.take(all.len() as int) =~= all);
        assert(texts(chosen@).to_set() =~= set);
    }
    sort_distinct(&mut chosen);
    proof {
        let set = selected(all.to_set(), prefix@, skip@);
        lemma_sorted_lists(set);
        assert forall|j: int| 0 <= j < chosen.len() implies starts_with(
            #[trigger] chosen@[j]@,
            prefix@,
        ) by {
            assert(set.contains(texts(chosen@)[j]));
        }
    }
    group_keys(&chosen, prefix, delimiter)
}

/// Tells whether the delimiter can cut the keys that a listing selects.
pub fn keys_can_be_cut(keys: &Vec<String>, prefix: &str, delimiter: &str, skip: &str) -> (r: bool)
    ensures
        r == delimiter_cuts(
            selected(texts(keys@).to_set(), prefix@, skip@),
            prefix@,
            delimiter@,
        ),
{
    let delimiter_chars = chars_of(delimiter);
    if delimiter_chars.len() == 0 || delimiter_chars[0] <= '\u{7f}' {
        return true;
    }
    let ghost set = selected(texts(keys@).to_set(), prefix@, skip@);
    let prefix_len: usize = prefix.unicode_len();
    let mut i: usize = 0;
    while i < keys.len()
        invariant
            i <= keys.len(),
            delimiter_chars@ == delimiter@,
            prefix_len == prefix@.len(),
            delimiter@.len() > 0,
            delimiter@[0] > '\u{7f}',
            set == selected(texts(keys@).to_set(), prefix@, skip@),
            forall|j: int|
                0 <= j < i && set.contains(#[trigger] texts(keys@)[j]) ==> !contains(
                    texts(keys@)[j].skip(prefix@.len() as int),
                    delimiter@,
                ),
        decreases keys.len() - i,
    {
        let key: &String = &keys[i];
        let ghost k = texts(keys@)[i as int];
        assert(k == key@);
        assert(texts(keys@).contains(k));
        let mut take = has_prefix(key.as_str(), prefix);
        if take && !skip.is_empty() {
            take = !at_most(key.as_str(), skip);
        }
        proof {
            lemma_lt_is_not_le(k, skip@);
            assert(take == set.contains(k));
        }
        if take {
            let key_chars = chars_of(key.as_str());
            proof {
                lemma_find_in_suffix(key@, delimiter@, prefix@.len() as int, 0);
            }
            if find_chars(&key_chars, &delimiter_chars, prefix_len).is_some() {
                return false;
            }
        }
        i += 1;
    }
    proof {
        assert forall|k: Seq<char>| #[trigger] set.contains(k) implies !contains(
            k.skip(prefix@.len() as int),
            delimiter@,
        ) by {
            let j = choose|j: int| 0 <= j < keys.len() && texts(keys@)[j] == k;
            assert(set.contains(texts(keys@)[j]));
        }
    }
    true
}

/// The last key of the last group is the last key of all.
proof fn lemma_last_key(keys: Seq<Seq<char>>, prefix: Seq<char>, delimiter: Seq<char>)
    requires
        keys.len() > 0,
    ensures
        grouped(keys, prefix, delimiter).len() > 0,
        grouped(keys, prefix, delimiter).last().last == keys.last(),
{
}

/// Every common prefix is a prefix of one of the keys.
proof fn lemma_prefix_source(
    keys: Seq<Seq<char>>,
    prefix: Seq<char>,
    delimiter: Seq<char>,
    i: int,
) -> (j: int)
    requires
        forall|k: int| 0 <= k < keys.len() ==> starts_with(#[trigger] keys[k], prefix),
        0 <= i < grouped(keys, prefix, delimiter).len(),
        grouped(keys, prefix, delimiter)[i].entry is Prefix,
    ensures
        0 <= j < keys.len(),
        starts_with(keys[j], grouped(keys, prefix, delimiter)[i].entry->Prefix_0),
    decreases keys.len(),
{
    let init = grouped(keys.drop_last(), prefix, delimiter);
    let key = keys.last();
    if i < init.len() {
        assert forall|k: int| 0 <= k < keys.len() - 1 implies starts_with(
            #[trigger] keys.drop_last()[k],
            prefix,
        ) by {
            assert(starts_with(keys[k], prefix));
        }
        let j = lemma_prefix_source(keys.drop_last(), prefix, delimiter, i);
        j
    } else {
        let j = keys.len() - 1;
        assert(starts_with(keys[j], prefix));
        lemma_find_from(key.skip(prefix.len() as int), delimiter, 0);
        let p = rolled_up(key, prefix, delimiter)->0;
        assert(key.subrange(0, p.len() as int) =~= p);
        j
    }
}

/// Grouping two runs of ascending keys is grouping each of them, where the second run begins
/// with a key that the groups of the first do not cover.
proof fn lemma_grouped_runs(
    a: Seq<Seq<char>>,
    b: Seq<Seq<char>>,
    prefix: Seq<char>,
    delimiter: Seq<char>,
)
    requires
        ascending(a + b),
        forall|k: int| 0 <= k < (a + b).len() ==> starts_with(#[trigger] (a + b)[k], prefix),
        b.len() > 0 ==> !covered(grouped(a, prefix, delimiter), b[0]),
    ensures
        grouped(a + b, prefix, delimiter) == grouped(a, prefix, delimiter) + grouped(
            b,
            prefix,
            delimiter,
        ),
    decreases b.len(),
{
    let ga = grouped(a, prefix, delimiter);
    if b.len() == 0 {
        assert(a + b =~= a);
        assert(ga + grouped(b, prefix, delimiter) =~= ga);
    } else {
        let all = a + b;
        let init = b.drop_last();
        let key = b.last();
        assert(all.drop_last() =~= a + init);
        assert forall|i: int, j: int| 0 <= i < j < (a + init).len() implies #[trigger] text_lt(
            (a + init)[i],
            (a + init)[j],
        ) by {
            assert(text_lt(all[i], all[j]));
        }
        assert forall|k: int| 0 <= k < (a + init).len() implies starts_with(
            #[trigger] (a + init)[k],
            prefix,
        ) by {
            assert(starts_with(all[k], prefix));
        }
        lemma_grouped_runs(a, init, prefix, delimiter);
        let gi = grouped(init, prefix, delimiter);
        let joined = ga + gi;
        if covered(ga, key) {
            let i = choose|i: int|
                0 <= i < ga.len() && (#[trigger] ga[i]).entry is Prefix && starts_with(
                    key,
                    ga[i].entry->Prefix_0,
                );
            assert forall|k: int| 0 <= k < a.len() implies starts_with(
                #[trigger] a[k],
                prefix,
            ) by {
                assert(starts_with(all[k], prefix));
            }
            let j = lemma_prefix_source(a, prefix, delimiter, i);
            assert(text_lt(all[j], all[a.len() as int]));
            assert(all[j] == a[j]);
            assert(all[a.len() as int] == b[0]);
            if b.len() > 1 {
                assert(text_lt(all[a.len() as int], all[all.len() - 1]));
            }
            assert(all[all.len() - 1] == key);
            lemma_le_reflexive(key);
            lemma_prefix_between(a[j], b[0], key, ga[i].entry->Prefix_0);
            assert(covered(ga, b[0]));
        }
        assert(!covered(ga, key));
        assert(covered(joined, key) == covered(gi, key)) by {
            if covered(gi, key) {
                let i = choose|i: int|
                    0 <= i < gi.len() && (#[trigger] gi[i]).entry is Prefix && starts_with(
                        key,
                        gi[i].entry->Prefix_0,
                    );
                assert(joined[ga.len() + i] == gi[i]);
            }
            if covered(joined, key) {
                let i = choose|i: int|
                    0 <= i < joined.len() && (#[trigger] joined[i]).entry is Prefix && starts_with(
                        key,
                        joined[i].entry->Prefix_0,
                    );
                if i < ga.len() {
                    assert(ga[i] == joined[i]);
                } else {
                    assert(gi[i - ga.len()] == joined[i]);
                }
            }
        }
        assert(grouped(all, prefix, delimiter) =~= ga + grouped(b, prefix, delimiter));
    }
}

/// Where the first `n` groups of a longer listing end.
proof fn lemma_cut(keys: Seq<Seq<char>>, prefix: Seq<char>, delimiter: Seq<char>, n: int) -> (m:
    int)
    requires
        0 < n < grouped(keys, prefix, delimiter).len(),
    ensures
        0 < m < keys.len(),
        grouped(keys.take(m), prefix, delimiter) == grouped(keys, prefix, delimiter).take(n),
        !covered(grouped(keys.take(m), prefix, delimiter), keys[m]),
    decreases keys.len(),
{
    let init = grouped(keys.drop_last(), prefix, delimiter);
    let all = grouped(keys, prefix, delimiter);
    if n < init.len() {
        let m = lemma_cut(keys.drop_last(), prefix, delimiter, n);
        assert(keys.drop_last().take(m) =~= keys.take(m));
        assert(all.take(n) =~= init.take(n));
        m
    } else {
        let m = keys.len() - 1;
        assert(keys.take(m) =~= keys.drop_last());
        assert(all.take(n) =~= init);
        m
    }
}

/// Pages join up: the listing that continues after a page of `n` lines holds the lines that
/// follow the page in the whole listing, none missing and none twice.
pub proof fn pages_join(
    keys: Set<Seq<char>>,
    prefix: Seq<char>,
    delimiter: Seq<char>,
    skip: Seq<char>,
    n: nat,
)
    requires
        keys.finite(),
        0 < n < listing(keys, prefix, delimiter, skip).len(),
        next_token(listing(keys, prefix, delimiter, skip), n).len() > 0,
    ensures
        listing(
            keys,
            prefix,
            delimiter,
            next_token(listing(keys, prefix, delimiter, skip), n),
        ) == listing(keys, prefix, delimiter, skip).skip(n as int),
{
    let whole = selected(keys, prefix, skip);
    let all = sorted(whole);
    let groups = grouped(all, prefix, delimiter);
    let token = groups[n - 1].last;
    lemma_sorted_lists(whole);
    assert forall|k: int| 0 <= k < all.len() implies starts_with(#[trigger] all[k], prefix) by {
        assert(whole.contains(all[k]));
    }
    let m = lemma_cut(all, prefix, delimiter, n as int);
    let a = all.take(m);
    let b = all.skip(m);
    assert(a + b =~= all);
    lemma_grouped_runs(a, b, prefix, delimiter);
    lemma_last_key(a, prefix, delimiter);
    assert(token == groups.take(n as int).last().last);
    assert(token == all[m - 1]);
    assert(groups.skip(n as int) =~= grouped(b, prefix, delimiter));
    let rest = selected(keys, prefix, token);
    assert(whole.contains(all[m - 1]));
    assert forall|i: int, j: int| 0 <= i < j < b.len() implies #[trigger] text_lt(b[i], b[j]) by {
        assert(text_lt(all[m + i], all[m + j]));
    }
    assert forall|i: int| 0 <= i < b.len() implies rest.contains(#[trigger] b[i]) by {
        assert(whole.contains(all[m + i]));
        assert(text_lt(all[m - 1], all[m + i]));
    }
    assert forall|k: Seq<char>| #[trigger] rest.contains(k) implies b.contains(k) by {
        if skip.len() > 0 {
            lemma_lt_transitive(skip, token, k);
        }
        assert(whole.contains(k));
        assert(all.contains(k));
        let i = choose|i: int| 0 <= i < all.len() && all[i] == k;
        if i < m {
            if i < m - 1 {
                assert(text_lt(all[i], all[m - 1]));
            }
            lemma_le_antisymmetric(all[i], token);
        }
        assert(b[i - m] == k);
    }
    assert(lists(b, rest));
    lemma_sorted_is(b, rest);
}

/// The token of a page is one of the keys.
pub proof fn token_is_a_key(
    keys: Set<Seq<char>>,
    prefix: Seq<char>,
    delimiter: Seq<char>,
    skip: Seq<char>,
    n: nat,
)
    requires
        keys.finite(),
        0 < n < listing(keys, prefix, delimiter, skip).len(),
    ensures
        keys.contains(next_token(listing(keys, prefix, delimiter, skip), n)),
{
    let whole = selected(keys, prefix, skip);
    let all = sorted(whole);
    lemma_sorted_lists(whole);
    assert forall|k: int| 0 <= k < all.len() implies starts_with(#[trigger] all[k], prefix) by {
        assert(whole.contains(all[k]));
    }
    let groups = grouped(all, prefix, delimiter);
    let m = lemma_cut(all, prefix, delimiter, n as int);
    lemma_last_key(all.take(m), prefix, delimiter);
    assert(groups[n - 1].last == groups.take(n as int).last().last);
    assert(whole.contains(all[m - 1]));
}

/// A listing has no more lines than there are keys.
pub proof fn listing_is_no_longer(
    keys: Set<Seq<char>>,
    prefix: Seq<char>,
    delimiter: Seq<char>,
    skip: Seq<char>,
)
    requires
        keys.finite(),
    ensures
        listing(keys, prefix, delimiter, skip).len() <= keys.len(),
{
    let whole = selected(keys, prefix, skip);
    let all = sorted(whole);
    lemma_sorted_lists(whole);
    lemma_at_most_one_each(all, prefix, delimiter);
    assert forall|i: int, j: int| 0 <= i < all.len() && 0 <= j < all.len() && i != j implies {
        all[i] != all[j]
    } by {
        assert(text_lt(all[i], all[j]) || text_lt(all[j], all[i]));
    }
    assert(all.to_set() =~= whole);
    all.unique_seq_to_set();
    vstd::set_lib::lemma_len_subset(whole, keys);
}

/// A key adds at most one line.
proof fn lemma_at_most_one_each(keys: Seq<Seq<char>>, prefix: Seq<char>, delimiter: Seq<char>)
    ensures
        grouped(keys, prefix, delimiter).len() <= keys.len(),
    decreases keys.len(),
{
    if keys.len() > 0 {
        lemma_at_most_one_each(keys.drop_last(), prefix, delimiter);
    }
}

/// A listing leaves no key out: each selected key is a line of its own or falls under a common
/// prefix that is listed.
pub proof fn listing_is_complete(
    keys: Set<Seq<char>>,
    prefix: Seq<char>,
    delimiter: Seq<char>,
    skip: Seq<char>,
    key: Seq<char>,
)
    requires
        keys.finite(),
        selected(keys, prefix, skip).contains(key),
    ensures
        covered(listing(keys, prefix, delimiter, skip), key) || exists|i: int|
            0 <= i < listing(keys, prefix, delimiter, skip).len() && (#[trigger] listing(
                keys,
                prefix,
                delimiter,
                skip,
            )[i]).entry == Entry::Object(key),
{
    let set = selected(keys, prefix, skip);
    lemma_sorted_lists(set);
    let all = sorted(set);
    assert forall|k: int| 0 <= k < all.len() implies starts_with(#[trigger] all[k], prefix) by {
        assert(set.contains(all[k]));
    }
    assert(all.contains(key));
    let at = choose|i: int| 0 <= i < all.len() && all[i] == key;
    lemma_key_listed(all, prefix, delimiter, at);
}

/// A listing shows only selected keys as lines of their own.
pub proof fn listing_shows_selected(
    keys: Set<Seq<char>>,
    prefix: Seq<char>,
    delimiter: Seq<char>,
    skip: Seq<char>,
    i: int,
)
    requires
        keys.finite(),
        0 <= i < listing(keys, prefix, delimiter, skip).len(),
        listing(keys, prefix, delimiter, skip)[i].entry is Object,
    ensures
        selected(keys, prefix, skip).contains(
            listing(keys, prefix, delimiter, skip)[i].entry->Object_0,
        ),
{
    let set = selected(keys, prefix, skip);
    lemma_sorted_lists(set);
    lemma_shown_key(sorted(set), prefix, delimiter, i);
}

/// A line that is an object is one of the keys.
proof fn lemma_shown_key(keys: Seq<Seq<char>>, prefix: Seq<char>, delimiter: Seq<char>, i: int)
    requires
        0 <= i < grouped(keys, prefix, delimiter).len(),
        grouped(keys, prefix, delimiter)[i].entry is Object,
    ensures
        exists|j: int|
            0 <= j < keys.len() && #[trigger] keys[j] == grouped(
                keys,
                prefix,
                delimiter,
            )[i].entry->Object_0,
    decreases keys.len(),
{
    let init = grouped(keys.drop_last(), prefix, delimiter);
    let all = grouped(keys, prefix, delimiter);
    if i < init.len() {
        assert(all[i].entry == init[i].entry);
        lemma_shown_key(keys.drop_last(), prefix, delimiter, i);
        let j = choose|j: int|
            0 <= j < keys.len() - 1 && #[trigger] keys.drop_last()[j] == init[i].entry->Object_0;
        assert(keys[j] == all[i].entry->Object_0);
    } else {
        assert(keys[keys.len() - 1] == all[i].entry->Object_0);
    }
}

/// Each key is a line of its own or falls under a common prefix.
pub proof fn lemma_key_listed(
    keys: Seq<Seq<char>>,
    prefix: Seq<char>,
    delimiter: Seq<char>,
    at: int,
)
    requires
        0 <= at < keys.len(),
        forall|k: int| 0 <= k < keys.len() ==> starts_with(#[trigger] keys[k], prefix),
    ensures
        covered(grouped(keys, prefix, delimiter), keys[at]) || exists|i: int|
            0 <= i < grouped(keys, prefix, delimiter).len() && (#[trigger] grouped(
                keys,
                prefix,
                delimiter,
            )[i]).entry == Entry::Object(keys[at]),
    decreases keys.len(),
{
    let init = grouped(keys.drop_last(), prefix, delimiter);
    let all = grouped(keys, prefix, delimiter);
    let key = keys[at];
    if at < keys.len() - 1 {
        assert forall|k: int| 0 <= k < keys.len() - 1 implies starts_with(
            #[trigger] keys.drop_last()[k],
            prefix,
        ) by {
            assert(starts_with(keys[k], prefix));
        }
        lemma_key_listed(keys.drop_last(), prefix, delimiter, at);
        assert(forall|i: int| 0 <= i < init.len() ==> (#[trigger] all[i]).entry == init[i].entry);
        if covered(init, key) {
            let i = choose|i: int|
                0 <= i < init.len() && (#[trigger] init[i]).entry is Prefix && starts_with(
                    key,
                    init[i].entry->Prefix_0,
                );
            assert(all[i].entry == init[i].entry);
        } else {
            let i = choose|i: int|
                0 <= i < init.len() && (#[trigger] init[i]).entry == Entry::Object(key);
            assert(all[i].entry == init[i].entry);
        }
    } else if covered(init, key) {
        let i = choose|i: int|
            0 <= i < init.len() && (#[trigger] init[i]).entry is Prefix && starts_with(
                key,
                init[i].entry->Prefix_0,
            );
        assert(all[i].entry == init[i].entry);
    } else {
        assert(starts_with(keys[at], prefix));
        lemma_find_from(key.skip(prefix.len() as int), delimiter, 0);
        let i = all.len() - 1;
        if all[i].entry is Prefix {
            let p = all[i].entry->Prefix_0;
            assert(key.subrange(0, p.len() as int) =~= p);
        }
    }
}

} // verus!
