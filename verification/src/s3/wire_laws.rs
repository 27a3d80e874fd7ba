//! What requests say in their header fields, queries and copy sources, told by how it is
//! written.

use crate::message::{field_text, field_value, value_text, Fields};
use crate::percent::decoded;
use crate::protocol::error::ErrorState;
use crate::router::service::error_response;
use crate::s3::copy_source::{climbs, copy_source};
use crate::s3::query::{
    metadata_of, parameter, parameters, query_parameters,
};
use crate::string_map::{
    entry_reads_back, has_key, lemma_entry_index, value_of, with_entry, Entries,
};
use crate::text::{
    find, lemma_find_from, lemma_position, lowercase, occurs_at, position, split, starts_with,
};
use crate::text_laws::{
    character_is_found_behind, prefix_is_read_off_the_front, separator_parts_text,
    text_without_separator_is_one_piece,
};
use vstd::prelude::*;
use vstd::string::*;

verus! {

/// The first field of a name counts, behind fields of other names.
pub proof fn first_field_counts(
    before: Fields,
    name: Seq<char>,
    value: Seq<u8>,
    after: Fields,
)
    requires
        forall|i: int| 0 <= i < before.len() ==> (#[trigger] before[i]).0 != name,
    ensures
        field_value(before + seq![(name, value)] + after, name) == Some(value),
        field_value(before, name) is None,
        field_text(before, name) is None,
    decreases before.len(),
{
    let all = before + seq![(name, value)] + after;
    if before.len() > 0 {
        let rest = before.drop_first();
        assert forall|i: int| 0 <= i < rest.len() implies (#[trigger] rest[i]).0 != name by {
            assert(before[i + 1].0 != name);
        }
        first_field_counts(rest, name, value, after);
        assert(before[0].0 != name);
        assert(all[0] == before[0]);
        assert(all.drop_first() =~= rest + seq![(name, value)] + after);
    } else {
        assert(all[0] == (name, value));
    }
}

/// The bytes of visible ASCII text, spaces and tabs are its characters; other bytes are no text.
pub proof fn field_text_is_its_bytes(value: Seq<u8>)
    ensures
        value_text(value) is Some <==> forall|i: int|
            0 <= i < value.len() ==> 32 <= #[trigger] value[i] <= 126 || value[i] == 9,
        value_text(value) is Some ==> value_text(value)->0.len() == value.len() && forall|i: int|
            0 <= i < value.len() ==> #[trigger] value_text(value)->0[i] as int == value[i],
{
    if forall|i: int| 0 <= i < value.len() ==> 32 <= #[trigger] value[i] <= 126 || value[i] == 9 {
        assert forall|i: int| 0 <= i < value.len() implies crate::message::is_text_byte(
            #[trigger] value[i],
        ) by {}
    }
}

/// The text of the first field of a name is what its bytes say.
pub proof fn field_is_read(before: Fields, name: Seq<char>, value: Seq<u8>, after: Fields)
    requires
        forall|i: int| 0 <= i < before.len() ==> (#[trigger] before[i]).0 != name,
        forall|i: int| 0 <= i < value.len() ==> 32 <= #[trigger] value[i] <= 126,
    ensures
        ({
            let text = field_text(before + seq![(name, value)] + after, name);
            &&& text is Some
            &&& text->0.len() == value.len()
            &&& forall|i: int| 0 <= i < value.len() ==> #[trigger] text->0[i] as int == value[i]
        }),
{
    first_field_counts(before, name, value, after);
    field_text_is_its_bytes(value);
}

/// Of a parameter, what stands before its first `=` is the name and all behind it is the value,
/// both percent-decoded; without one, the value is empty.
pub proof fn parameter_is_name_and_value(name: Seq<char>, value: Seq<char>)
    requires
        forall|i: int| 0 <= i < name.len() ==> name[i] != '=',
        decoded(name) is Some,
        decoded(value) is Some,
    ensures
        parameter(name + seq!['='] + value) == Some((decoded(name)->0, decoded(value)->0)),
        name.len() > 0 ==> parameter(name) == Some((decoded(name)->0, Seq::<char>::empty())),
        parameter(Seq::empty()) is None,
{
    let pair = name + seq!['='] + value;
    character_is_found_behind(name, '=', value);
    assert(pair.take(name.len() as int) =~= name);
    assert(pair.skip(name.len() as int + 1) =~= value);
}

/// The parameters of two parts of a query with an ampersand between them: those of the second
/// part are set on top of those of the first.
pub proof fn last_parameter_of_a_query_counts(
    before: Seq<char>,
    name: Seq<char>,
    value: Seq<char>,
    other: Seq<char>,
)
    requires
        forall|i: int| 0 <= i < name.len() ==> #[trigger] name[i] != '=' && name[i] != '&',
        forall|i: int| 0 <= i < value.len() ==> value[i] != '&',
        decoded(name) is Some,
        decoded(value) is Some,
    ensures
        ({
            let pair = name + seq!['='] + value;
            let alone = query_parameters(pair);
            let joined = query_parameters(before + seq!['&'] + pair);
            let n = decoded(name)->0;
            let v = decoded(value)->0;
            &&& value_of(alone, n) == Some(v)
            &&& other != n ==> value_of(alone, other) is None
            &&& value_of(joined, n) == Some(v)
            &&& other != n ==> value_of(joined, other) == value_of(
                query_parameters(before),
                other,
            )
        }),
{
    let pair = name + seq!['='] + value;
    let n = decoded(name)->0;
    let v = decoded(value)->0;
    parameter_is_name_and_value(name, value);
    assert forall|i: int| 0 <= i < pair.len() implies pair[i] != '&' by {
        if i < name.len() {
            assert(pair[i] == name[i]);
        } else if i > name.len() {
            assert(pair[i] == value[i - name.len() - 1]);
        }
    }
    text_without_separator_is_one_piece(pair, '&');
    separator_parts_text(before, '&', pair);
    let none = Seq::<(Seq<char>, Seq<char>)>::empty();
    reveal_with_fuel(parameters, 2);
    assert(seq![pair].drop_last() =~= Seq::<Seq<char>>::empty());
    entry_reads_back(none, n, v, other);
    let all = split(before, '&') + seq![pair];
    assert(all.drop_last() =~= split(before, '&'));
    entry_reads_back(parameters(split(before, '&')), n, v, other);
}

/// A name alone in a query is a parameter without a value, and an empty query has none.
pub proof fn name_alone_is_a_parameter(before: Seq<char>, name: Seq<char>, other: Seq<char>)
    requires
        name.len() > 0,
        forall|i: int| 0 <= i < name.len() ==> #[trigger] name[i] != '=' && name[i] != '&',
        decoded(name) is Some,
    ensures
        ({
            let alone = query_parameters(name);
            let joined = query_parameters(before + seq!['&'] + name);
            let n = decoded(name)->0;
            &&& value_of(alone, n) == Some(Seq::<char>::empty())
            &&& other != n ==> value_of(alone, other) is None
            &&& value_of(joined, n) == Some(Seq::<char>::empty())
            &&& other != n ==> value_of(joined, other) == value_of(
                query_parameters(before),
                other,
            )
        }),
        query_parameters(Seq::empty()).len() == 0,
{
    let n = decoded(name)->0;
    let v = Seq::<char>::empty();
    lemma_position(name, '=', 0);
    text_without_separator_is_one_piece(name, '&');
    separator_parts_text(before, '&', name);
    let none = Seq::<(Seq<char>, Seq<char>)>::empty();
    reveal_with_fuel(parameters, 2);
    assert(seq![name].drop_last() =~= Seq::<Seq<char>>::empty());
    entry_reads_back(none, n, v, other);
    let all = split(before, '&') + seq![name];
    assert(all.drop_last() =~= split(before, '&'));
    entry_reads_back(parameters(split(before, '&')), n, v, other);
    assert(seq![v].drop_last() =~= Seq::<Seq<char>>::empty());
}

/// A name has an entry exactly where it has a value.
pub proof fn entry_is_there_with_its_value(entries: Entries, name: Seq<char>)
    ensures
        has_key(entries, name) <==> value_of(entries, name) is Some,
        has_key(entries, name) <==> exists|i: int|
            0 <= i < entries.len() && (#[trigger] entries[i]).0 == name,
{
    lemma_entry_index(entries, name);
}

/// Setting a name that is there keeps the places of all; a new one goes to the end.
pub proof fn entry_keeps_its_place(entries: Entries, name: Seq<char>, value: Seq<char>)
    ensures
        ({
            let after = with_entry(entries, name, value);
            &&& has_key(entries, name) ==> after.len() == entries.len()
            &&& !has_key(entries, name) ==> after == entries.push((name, value))
            &&& forall|i: int|
                0 <= i < entries.len() ==> (#[trigger] after[i]).0 == entries[i].0 && (entries[i].0
                    != name ==> after[i] == entries[i])
        }),
{
    lemma_entry_index(entries, name);
}

/// A field named `x-amz-meta-` and a name is metadata under that name in lower case, with the
/// text of the field; it counts before earlier fields of the name. A field of another name, or
/// one that is no text, is none.
pub proof fn metadata_is_read_from_its_fields(
    before: Fields,
    name: Seq<char>,
    value: Seq<u8>,
    other: Seq<char>,
)
    ensures
        ({
            let joined = metadata_of(before.push((name, value)));
            let lower = lowercase(name);
            if starts_with(lower, "x-amz-meta-"@) && value_text(value) is Some {
                &&& value_of(joined, lower.skip(11)) == value_text(value)
                &&& other != lower.skip(11) ==> value_of(joined, other) == value_of(
                    metadata_of(before),
                    other,
                )
            } else {
                joined == metadata_of(before)
            }
        }),
        metadata_of(Seq::empty()).len() == 0,
{
    let all = before.push((name, value));
    assert(all.drop_last() =~= before);
    if starts_with(lowercase(name), "x-amz-meta-"@) && value_text(value) is Some {
        entry_reads_back(
            metadata_of(before),
            lowercase(name).skip(11),
            value_text(value)->0,
            other,
        );
    }
}

/// Metadata that is given by fields of different names comes in their order, with the names and
/// the texts given.
pub proof fn metadata_keeps_its_order(before: Fields, name: Seq<char>, value: Seq<u8>)
    requires
        value_text(value) is Some,
        !has_key(metadata_of(before), name),
        lowercase("x-amz-meta-"@ + name) == "x-amz-meta-"@ + name,
    ensures
        metadata_of(before.push(("x-amz-meta-"@ + name, value))) == metadata_of(before).push(
            (name, value_text(value)->0),
        ),
{
    reveal_strlit("x-amz-meta-");
    let full = "x-amz-meta-"@ + name;
    let all = before.push((full, value));
    assert(all.drop_last() =~= before);
    prefix_is_read_off_the_front(name, "x-amz-meta-"@);
    assert(full.skip(11) =~= name);
}

/// Whether a segment of the path is two dots: they stand at the front or behind a slash, and at
/// the end or before a slash.
pub open spec fn has_dot_dot(s: Seq<char>) -> bool {
    exists|i: int| #[trigger]
        occurs_at(s, ".."@, i) && (i == 0 || s[i - 1] == '/') && (i + 2 == s.len()
            || s[i + 2] == '/')
}

/// A path climbs exactly where one of its segments is two dots.
pub proof fn dot_dot_climbs(s: Seq<char>)
    ensures
        climbs(s) <==> has_dot_dot(s),
    decreases s.len(),
{
    reveal_strlit("..");
    let two = ".."@;
    lemma_position(s, '/', 0);
    let n = position(s, '/', 0);
    let first = s.take(n);
    text_without_separator_is_one_piece(first, '/');
    if first == two {
        assert(s.subrange(0, 2) =~= two);
        assert(occurs_at(s, two, 0));
    }
    if n == s.len() {
        assert(first =~= s);
        if has_dot_dot(s) {
            let i = choose|i: int| #[trigger]
                occurs_at(s, two, i) && (i == 0 || s[i - 1] == '/') && (i + 2 == s.len() || s[i + 2]
                    == '/');
            if i > 0 {
                assert(s[i - 1] != '/');
            }
            if i + 2 < s.len() {
                assert(s[i + 2] != '/');
            }
            assert(s =~= two);
        }
        if first == two {
            assert(split(s, '/')[0] == two);
        }
    } else {
        let rest = s.skip(n + 1);
        separator_parts_text(first, '/', rest);
        assert(first + seq!['/'] + rest =~= s);
        let pieces = seq![first] + split(rest, '/');
        assert(split(s, '/') == pieces);
        dot_dot_climbs(rest);
        if has_dot_dot(rest) {
            let i = choose|i: int| #[trigger]
                occurs_at(rest, two, i) && (i == 0 || rest[i - 1] == '/') && (i + 2 == rest.len()
                    || rest[i + 2] == '/');
            let j = n + 1 + i;
            assert(s.subrange(j, j + 2) =~= rest.subrange(i, i + 2));
            assert(occurs_at(s, two, j));
            if i > 0 {
                assert(rest[i - 1] == s[j - 1]);
            }
            if i + 2 < rest.len() {
                assert(rest[i + 2] == s[j + 2]);
            }
            assert(has_dot_dot(s));
            let k = choose|k: int| 0 <= k < split(rest, '/').len() && split(rest, '/')[k] == two;
            assert(pieces[k + 1] == two);
        }
        if has_dot_dot(s) {
            let j = choose|i: int| #[trigger]
                occurs_at(s, two, i) && (i == 0 || s[i - 1] == '/') && (i + 2 == s.len() || s[i + 2]
                    == '/');
            assert(s.subrange(j, j + 2)[0] == s[j] && s.subrange(j, j + 2)[1] == s[j + 1]);
            if j > n {
                let i = j - n - 1;
                assert(rest.subrange(i, i + 2) =~= s.subrange(j, j + 2));
                assert(occurs_at(rest, two, i));
                if i > 0 {
                    assert(rest[i - 1] == s[j - 1]);
                }
                if i + 2 < rest.len() {
                    assert(rest[i + 2] == s[j + 2]);
                }
                assert(has_dot_dot(rest));
            } else {
                assert(j == 0);
                assert(n == 2);
                assert(first =~= two);
                assert(pieces[0] == two);
            }
        }
        if climbs(s) {
            let k = choose|k: int| 0 <= k < pieces.len() && pieces[k] == two;
            if k > 0 {
                assert(split(rest, '/')[k - 1] == two);
                assert(climbs(rest));
            }
        }
    }
}

/// A copy source is a bucket and a key with a slash between them and a slash in front or none.
pub proof fn copy_source_is_bucket_and_key(bucket: Seq<char>, key: Seq<char>)
    requires
        bucket.len() > 0,
        forall|i: int| 0 <= i < bucket.len() ==> bucket[i] != '/',
        !has_dot_dot(bucket),
        !has_dot_dot(key),
        forall|i: int| !#[trigger] occurs_at(bucket + seq!['/'] + key, "://"@, i),
    ensures
        copy_source(bucket + seq!['/'] + key) == Ok::<_, ErrorState>((bucket, key)),
        copy_source(seq!['/'] + (bucket + seq!['/'] + key)) == Ok::<_, ErrorState>((bucket, key)),
{
    reveal_strlit("://");
    reveal_strlit("//");
    let scheme = "://"@;
    let path = bucket + seq!['/'] + key;
    let slashed = seq!['/'] + path;
    dot_dot_climbs(bucket);
    dot_dot_climbs(key);
    lemma_find_from(path, scheme, 0);
    lemma_find_from(slashed, scheme, 0);
    character_is_found_behind(bucket, '/', key);
    assert(path.take(bucket.len() as int) =~= bucket);
    assert(path.skip(bucket.len() as int + 1) =~= key);
    assert(slashed.skip(1) =~= path);
    assert(path[0] == bucket[0]);
    assert(slashed[1] == bucket[0]);
    if starts_with(path, "//"@) {
        assert(path.subrange(0, 2)[0] == path[0]);
    }
    if starts_with(slashed, "//"@) {
        assert(slashed.subrange(0, 2)[1] == slashed[1]);
    }
    if find(slashed, scheme) is Some {
        let i = find(slashed, scheme)->0;
        assert(slashed.subrange(i, i + 3)[0] == slashed[i]);
        assert(i > 0);
        assert(path.subrange(i - 1, i + 2) =~= slashed.subrange(i, i + 3));
        assert(occurs_at(path, scheme, i - 1));
    }
}

/// Whether a text is a bucket without slashes, a slash, and more behind it.
pub open spec fn has_bucket_and_slash(path: Seq<char>) -> bool {
    path.len() > 0 && path[0] != '/' && exists|i: int| 0 <= i < path.len() && path[i] == '/'
}

/// A copy source is refused with status 400 where it holds a URL scheme, begins with two
/// slashes, has no slash behind its bucket, or names a bucket or a key that climbs.
pub proof fn bad_copy_source_is_refused(s: Seq<char>)
    requires
        ({
            let path = if s.len() > 0 && s[0] == '/' {
                s.skip(1)
            } else {
                s
            };
            ||| exists|i: int| 0 <= i && #[trigger] occurs_at(s, "://"@, i)
            ||| !has_bucket_and_slash(path)
            ||| has_dot_dot(path)
        }),
    ensures
        copy_source(s) is Err,
        copy_source(s)->Err_0.fault is InvalidArgument,
        copy_source(s)->Err_0.fault->InvalidArgument_argument_name == "x-amz-copy-source"@,
        error_response(copy_source(s)->Err_0).status == 400,
{
    reveal_strlit("://");
    let scheme = "://"@;
    let path = crate::s3::copy_source::source_path(s);
    lemma_find_from(s, scheme, 0);
    lemma_position(path, '/', 0);
    let slash = position(path, '/', 0);
    if !has_bucket_and_slash(path) && slash < path.len() {
        assert(slash == 0);
    }
    if has_dot_dot(path) && 0 < slash < path.len() {
        let bucket = path.take(slash);
        let key = path.skip(slash + 1);
        dot_dot_climbs(path);
        text_without_separator_is_one_piece(bucket, '/');
        separator_parts_text(bucket, '/', key);
        assert(bucket + seq!['/'] + key =~= path);
        let pieces = seq![bucket] + split(key, '/');
        let k = choose|k: int| 0 <= k < pieces.len() && pieces[k] == ".."@;
        if k == 0 {
            assert(split(bucket, '/')[0] == ".."@);
            assert(climbs(bucket));
        } else {
            assert(split(key, '/')[k - 1] == ".."@);
            assert(climbs(key));
        }
    }
}

} // verus!
