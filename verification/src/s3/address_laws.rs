//! Which service, bucket and key a request names, told by how it is written.

use crate::message::{field_text, Fields};
use crate::percent::decoded;
use crate::s3::address::{
    first_with_prefix, host_readable, is_virtual_hosted, place_of, service_in_auth,
    service_in_params, service_of, without_port, Place,
};
use crate::text::{
    is_space, lemma_position, lemma_split_nonempty, lowercase, occurs_at, position, split,
    starts_with, words,
};
use crate::text_laws::{
    character_is_found_behind, leading_characters_are_cut_off, prefix_is_read_off_the_front,
    separator_parts_text, space_parts_words, text_without_separator_is_one_piece,
    text_without_space_is_one_word, word_stands_behind_space,
};
use vstd::prelude::*;
use vstd::string::*;

verus! {

/// Whether a text has neither white space nor a slash in it.
pub open spec fn is_scope_part(s: Seq<char>) -> bool {
    forall|i: int| 0 <= i < s.len() ==> !is_space(#[trigger] s[i]) && s[i] != '/'
}

/// The word that carries the credential scope of a signed request.
pub open spec fn credential(
    key: Seq<char>,
    date: Seq<char>,
    region: Seq<char>,
    service: Seq<char>,
    more: Seq<char>,
) -> Seq<char> {
    "Credential="@ + key + seq!['/'] + date + seq!['/'] + region + seq!['/'] + service + more
}

/// Whether no word of the text begins with `Credential=`.
pub open spec fn has_no_credential(s: Seq<char>) -> bool {
    forall|i: int| #[trigger]
        occurs_at(s, "Credential="@, i) ==> i > 0 && !is_space(s[i - 1])
}

/// Words without a credential among them.
proof fn lemma_no_credential(s: Seq<char>)
    requires
        has_no_credential(s),
    ensures
        forall|k: int|
            0 <= k < words(s).len() ==> !starts_with(#[trigger] words(s)[k], "Credential="@),
{
    assert forall|k: int| 0 <= k < words(s).len() implies !starts_with(
        #[trigger] words(s)[k],
        "Credential="@,
    ) by {
        let w = words(s)[k];
        let c = "Credential="@;
        if starts_with(w, c) {
            word_stands_behind_space(s, k);
            let at = choose|at: int|
                #[trigger] occurs_at(s, words(s)[k], at) && (at == 0 || is_space(s[at - 1]));
            assert(s.subrange(at, at + c.len()) =~= w.subrange(0, c.len() as int)) by {
                assert forall|i: int| 0 <= i < c.len() implies s[at + i] == #[trigger] w[i] by {
                    assert(s.subrange(at, at + w.len())[i] == s[at + i]);
                }
            }
            assert(occurs_at(s, c, at));
        }
    }
}

/// The first of some texts with a prefix, behind texts without it.
proof fn lemma_first_with_prefix(a: Seq<Seq<char>>, b: Seq<Seq<char>>, p: Seq<char>)
    requires
        forall|k: int| 0 <= k < a.len() ==> !starts_with(#[trigger] a[k], p),
    ensures
        b.len() > 0 && starts_with(b[0], p) ==> first_with_prefix(a + b, p) == Some(
            a.len() as int,
        ),
        b.len() == 0 ==> first_with_prefix(a + b, p) is None,
    decreases a.len(),
{
    if a.len() == 0 {
        assert(a + b =~= b);
    } else {
        let rest = a.drop_first();
        assert forall|k: int| 0 <= k < rest.len() implies !starts_with(#[trigger] rest[k], p) by {
            assert(!starts_with(a[k + 1], p));
        }
        lemma_first_with_prefix(rest, b, p);
        assert(!starts_with(a[0], p));
        assert((a + b)[0] == a[0]);
        assert((a + b).drop_first() =~= rest + b);
    }
}

/// The words of a text that white space parts from the text before it.
proof fn lemma_words_apart(a: Seq<char>, b: Seq<char>)
    requires
        a.len() == 0 || b.len() == 0 || is_space(a.last()) || is_space(b[0]),
    ensures
        words(a + b) == words(a) + words(b),
{
    text_without_space_is_one_word(Seq::empty());
    let none = Seq::<char>::empty();
    if a.len() == 0 {
        assert(a =~= none);
        assert(a + b =~= b);
        assert(words(a) + words(b) =~= words(b));
    } else if b.len() == 0 {
        assert(b =~= none);
        assert(a + b =~= a);
        assert(words(a) + words(b) =~= words(a));
    } else if is_space(a.last()) {
        let c = a.last();
        space_parts_words(a.drop_last(), c, b);
        space_parts_words(a.drop_last(), c, none);
        assert(a.drop_last() + seq![c] + b =~= a + b);
        assert(a.drop_last() + seq![c] + none =~= a);
        assert(words(a) =~= words(a.drop_last()));
    } else {
        let c = b[0];
        space_parts_words(a, c, b.drop_first());
        space_parts_words(none, c, b.drop_first());
        assert(a + seq![c] + b.drop_first() =~= a + b);
        assert(none + seq![c] + b.drop_first() =~= b);
        assert(words(b) =~= words(b.drop_first()));
    }
}

/// The fourth segment of a scope.
proof fn lemma_scope(
    key: Seq<char>,
    date: Seq<char>,
    region: Seq<char>,
    service: Seq<char>,
    more: Seq<char>,
)
    requires
        is_scope_part(key),
        is_scope_part(date),
        is_scope_part(region),
        is_scope_part(service),
        more.len() > 0 ==> more[0] == '/',
    ensures
        ({
            let scope = key + seq!['/'] + date + seq!['/'] + region + seq!['/'] + service + more;
            split(scope, '/').len() >= 4 && split(scope, '/')[3] == service
        }),
{
    let scope = key + seq!['/'] + date + seq!['/'] + region + seq!['/'] + service + more;
    let last = service + more;
    let third = region + seq!['/'] + last;
    let second = date + seq!['/'] + third;
    text_without_separator_is_one_piece(key, '/');
    text_without_separator_is_one_piece(date, '/');
    text_without_separator_is_one_piece(region, '/');
    text_without_separator_is_one_piece(service, '/');
    separator_parts_text(key, '/', second);
    separator_parts_text(date, '/', third);
    separator_parts_text(region, '/', last);
    assert(scope =~= key + seq!['/'] + second);
    if more.len() == 0 {
        assert(last =~= service);
    } else {
        separator_parts_text(service, '/', more.drop_first());
        assert(last =~= service + seq!['/'] + more.drop_first());
        lemma_split_nonempty(more.drop_first(), '/');
    }
    assert(split(last, '/')[0] == service);
    assert(split(scope, '/') =~= seq![key] + (seq![date] + (seq![region] + split(last, '/'))));
}

/// The credential of a signed request names the service, in lower case, whatever other words
/// stand in the `Authorization` header: behind words that do not begin with `Credential=`, and
/// before any words whatever.
pub proof fn credential_names_the_service(
    before: Seq<char>,
    key: Seq<char>,
    date: Seq<char>,
    region: Seq<char>,
    service: Seq<char>,
    more: Seq<char>,
    after: Seq<char>,
)
    requires
        before.len() > 0 ==> is_space(before.last()),
        has_no_credential(before),
        is_scope_part(key),
        is_scope_part(date),
        is_scope_part(region),
        is_scope_part(service),
        more.len() > 0 ==> more[0] == '/',
        forall|i: int| 0 <= i < more.len() ==> !is_space(#[trigger] more[i]),
        after.len() > 0 ==> is_space(after[0]),
    ensures
        service_in_auth(before + credential(key, date, region, service, more) + after) == Some(
            lowercase(service),
        ),
{
    reveal_strlit("Credential=");
    let c = "Credential="@;
    let word = credential(key, date, region, service, more);
    let scope = key + seq!['/'] + date + seq!['/'] + region + seq!['/'] + service + more;
    let auth = before + word + after;
    assert(word =~= c + scope);
    assert forall|i: int| 0 <= i < word.len() implies !is_space(#[trigger] word[i]) by {
        if i < 11 {
            assert(word[i] == c[i]);
        } else {
            lemma_scope_char(key, date, region, service, more, i - 11);
            assert(word[i] == scope[i - 11]);
        }
    }
    text_without_space_is_one_word(word);
    lemma_words_apart(before, word);
    lemma_words_apart(before + word, after);
    lemma_no_credential(before);
    prefix_is_read_off_the_front(scope, c);
    let tail = seq![word] + words(after);
    lemma_first_with_prefix(words(before), tail, c);
    assert(words(auth) =~= words(before) + tail);
    assert(words(auth)[words(before).len() as int] == word);
    assert(word.skip(11) =~= scope);
    lemma_scope(key, date, region, service, more);
}

/// No character of a scope is white space.
proof fn lemma_scope_char(
    key: Seq<char>,
    date: Seq<char>,
    region: Seq<char>,
    service: Seq<char>,
    more: Seq<char>,
    i: int,
)
    requires
        is_scope_part(key),
        is_scope_part(date),
        is_scope_part(region),
        is_scope_part(service),
        forall|i: int| 0 <= i < more.len() ==> !is_space(#[trigger] more[i]),
        0 <= i < (key + seq!['/'] + date + seq!['/'] + region + seq!['/'] + service + more).len(),
    ensures
        !is_space(
            (key + seq!['/'] + date + seq!['/'] + region + seq!['/'] + service + more)[i],
        ),
{
    let a = key + seq!['/'];
    let b = a + date + seq!['/'];
    let c = b + region + seq!['/'];
    let d = c + service;
    let scope = d + more;
    if i < key.len() {
        assert(scope[i] == key[i]);
    } else if i < a.len() {
        assert(scope[i] == '/');
    } else if i < a.len() + date.len() {
        assert(scope[i] == date[i - a.len()]);
    } else if i < b.len() {
        assert(scope[i] == '/');
    } else if i < b.len() + region.len() {
        assert(scope[i] == region[i - b.len()]);
    } else if i < c.len() {
        assert(scope[i] == '/');
    } else if i < d.len() {
        assert(scope[i] == service[i - c.len()]);
    } else {
        assert(scope[i] == more[i - d.len()]);
    }
}

/// An `Authorization` header without a credential names no service.
pub proof fn no_credential_names_no_service(auth: Seq<char>)
    requires
        has_no_credential(auth),
    ensures
        service_in_auth(auth) is None,
{
    lemma_no_credential(auth);
    lemma_first_with_prefix(words(auth), Seq::empty(), "Credential="@);
    assert(words(auth) + Seq::<Seq<char>>::empty() =~= words(auth));
}

/// A request with a credential is for the service that it names, whatever else the request
/// holds.
pub proof fn signed_request_is_for_its_service(
    fields: Fields,
    query: Option<Seq<char>>,
    before: Seq<char>,
    key: Seq<char>,
    date: Seq<char>,
    region: Seq<char>,
    service: Seq<char>,
    more: Seq<char>,
    after: Seq<char>,
)
    requires
        before.len() > 0 ==> is_space(before.last()),
        has_no_credential(before),
        is_scope_part(key),
        is_scope_part(date),
        is_scope_part(region),
        is_scope_part(service),
        more.len() > 0 ==> more[0] == '/',
        forall|i: int| 0 <= i < more.len() ==> !is_space(#[trigger] more[i]),
        after.len() > 0 ==> is_space(after[0]),
        field_text(fields, "authorization"@) == Some(
            before + credential(key, date, region, service, more) + after,
        ),
    ensures
        service_of(fields, query) == lowercase(service),
{
    credential_names_the_service(before, key, date, region, service, more, after);
}

/// Whether the `Authorization` header of a request names no service: there is none, or it holds
/// no credential.
pub open spec fn is_unsigned(fields: Fields) -> bool {
    match field_text(fields, "authorization"@) {
        Some(auth) => has_no_credential(auth),
        None => true,
    }
}

/// The target of an unsigned request names its service, in lower case: what stands before the
/// first dot and before the first underscore.
pub proof fn target_names_the_service(
    fields: Fields,
    query: Option<Seq<char>>,
    service: Seq<char>,
    rest: Seq<char>,
)
    requires
        is_unsigned(fields),
        service.len() > 0,
        forall|i: int| 0 <= i < service.len() ==> #[trigger] service[i] != '.' && service[i] != '_',
        rest.len() > 0 ==> rest[0] == '.' || rest[0] == '_',
        field_text(fields, "x-amz-target"@) == Some(service + rest),
    ensures
        service_of(fields, query) == lowercase(service),
{
    match field_text(fields, "authorization"@) {
        Some(auth) => no_credential_names_no_service(auth),
        None => {},
    }
    let target = service + rest;
    lemma_position(target, '.', 0);
    let dot = position(target, '.', 0);
    let prefix = target.take(dot);
    lemma_position(prefix, '_', 0);
    let end = position(prefix, '_', 0);
    assert forall|i: int| 0 <= i < service.len() implies #[trigger] target[i] == service[i] by {}
    if dot < service.len() {
        assert(target[dot] == service[dot]);
    }
    if end < service.len() {
        assert(prefix[end] == service[end]);
    }
    if end > service.len() {
        let n = service.len() as int;
        assert(prefix[n] == rest[0]);
        assert(target[n] == rest[0]);
    }
    assert(prefix.take(end) =~= service);
}

/// Whether no parameter of the query gives `Service` a value.
pub open spec fn has_no_service(query: Seq<char>) -> bool {
    forall|i: int| #[trigger]
        occurs_at(query, "Service="@, i) ==> (i > 0 && query[i - 1] != '&') || i + 8
            == query.len() || query[i + 8] == '&'
}

/// Pieces of a query, none of which gives `Service` a value.
proof fn lemma_no_service(query: Seq<char>, tail: Seq<Seq<char>>)
    requires
        has_no_service(query),
    ensures
        service_in_params(split(query, '&') + tail) == service_in_params(tail),
    decreases query.len(),
{
    reveal_strlit("Service=");
    let p = "Service="@;
    lemma_position(query, '&', 0);
    let n = position(query, '&', 0);
    let first = query.take(n);
    let gives = starts_with(first, p) && first.len() > 8;
    if gives {
        assert(query.subrange(0, 8) =~= first.subrange(0, 8));
        assert(occurs_at(query, p, 0));
        assert(query[8] == first[8]);
    }
    text_without_separator_is_one_piece(first, '&');
    if n == query.len() {
        assert(first =~= query);
        assert((seq![query] + tail).drop_first() =~= tail);
    } else {
        let rest = query.skip(n + 1);
        separator_parts_text(first, '&', rest);
        assert(first + seq!['&'] + rest =~= query);
        assert forall|i: int| #[trigger] occurs_at(rest, p, i) implies (i > 0 && rest[i - 1] != '&')
            || i + 8 == rest.len() || rest[i + 8] == '&' by {
            let j = n + 1 + i;
            assert(query.subrange(j, j + 8) =~= rest.subrange(i, i + 8));
            assert(occurs_at(query, p, j));
            if i > 0 {
                assert(rest[i - 1] == query[j - 1]);
            }
            if i + 8 < rest.len() {
                assert(rest[i + 8] == query[j + 8]);
            }
        }
        lemma_no_service(rest, tail);
        let all = split(query, '&') + tail;
        assert(all =~= seq![first] + (split(rest, '&') + tail));
        assert(all.drop_first() =~= split(rest, '&') + tail);
    }
}

/// The parameter `Service` of a request with neither credential nor target names its service,
/// in lower case, wherever in the query it stands.
pub proof fn parameter_names_the_service(
    fields: Fields,
    before: Seq<char>,
    service: Seq<char>,
    after: Seq<char>,
)
    requires
        is_unsigned(fields),
        field_text(fields, "x-amz-target"@) is None,
        has_no_service(before),
        service.len() > 0,
        forall|i: int| 0 <= i < service.len() ==> service[i] != '&',
    ensures
        service_of(fields, Some("Service="@ + service)) == lowercase(service),
        service_of(fields, Some(before + seq!['&'] + ("Service="@ + service)))
            == lowercase(service),
        service_of(fields, Some(before + seq!['&'] + ("Service="@ + service) + seq!['&'] + after))
            == lowercase(service),
{
    match field_text(fields, "authorization"@) {
        Some(auth) => no_credential_names_no_service(auth),
        None => {},
    }
    reveal_strlit("Service=");
    let p = "Service="@;
    let param = p + service;
    prefix_is_read_off_the_front(service, p);
    assert(param.skip(8) =~= service);
    text_without_separator_is_one_piece(param, '&');
    let one = seq![param];
    assert(service_in_params(one) == Some(lowercase(service)));
    separator_parts_text(before, '&', param);
    lemma_no_service(before, one);
    separator_parts_text(before + seq!['&'] + param, '&', after);
    let more = one + split(after, '&');
    assert(more[0] == param);
    lemma_no_service(before, more);
    assert(split(before, '&') + one + split(after, '&') =~= split(before, '&') + more);
}

/// A request that names no service is for S3.
pub proof fn unnamed_service_is_s3(fields: Fields, query: Option<Seq<char>>)
    requires
        is_unsigned(fields),
        field_text(fields, "x-amz-target"@) is None,
        query is None || has_no_service(query->0),
    ensures
        service_of(fields, query) == "s3"@,
{
    match field_text(fields, "authorization"@) {
        Some(auth) => no_credential_names_no_service(auth),
        None => {},
    }
    if let Some(q) = query {
        lemma_no_service(q, Seq::empty());
        assert(split(q, '&') + Seq::<Seq<char>>::empty() =~= split(q, '&'));
    }
}

/// The number of dots in a text.
pub open spec fn dots(s: Seq<char>) -> nat
    decreases s.len(),
{
    if s.len() == 0 {
        0
    } else {
        dots(s.drop_last()) + if s.last() == '.' {
            1nat
        } else {
            0
        }
    }
}

/// There is one label more than there are dots.
proof fn lemma_labels(s: Seq<char>)
    ensures
        split(s, '.').len() == dots(s) + 1,
    decreases s.len(),
{
    if s.len() > 0 {
        lemma_labels(s.drop_last());
    }
}

/// Whether the text is what may follow the name of a host: nothing, or a port.
pub open spec fn is_port(s: Seq<char>) -> bool {
    (s.len() > 0 ==> s[0] == ':') && forall|i: int| 0 <= i < s.len() ==> s[i] != ']'
}

/// A port is not part of the host, and neither are the brackets of an IPv6 address. Both can be
/// taken off.
pub proof fn port_comes_off(name: Seq<char>, port: Seq<char>)
    requires
        is_port(port),
        forall|i: int| 0 <= i < name.len() ==> #[trigger] name[i] != ']',
    ensures
        host_readable(name + port),
        host_readable(seq!['['] + name + seq![']'] + port),
        without_port(seq!['['] + name + seq![']'] + port) == name,
        (forall|i: int| 0 <= i < name.len() ==> #[trigger] name[i] != ':') ==> without_port(
            name + port,
        ) == name,
{
    let bracketed = seq!['['] + name + seq![']'] + port;
    let front = seq!['['] + name;
    character_is_found_behind(front, ']', port);
    assert(bracketed =~= front + seq![']'] + port);
    assert(bracketed.subrange(1, front.len() as int) =~= name);
    let host = name + port;
    lemma_position(host, ']', 0);
    let b = position(host, ']', 0);
    if b < host.len() {
        if b < name.len() {
            assert(host[b] == name[b]);
        } else {
            assert(host[b] == port[b - name.len()]);
        }
    }
    if forall|i: int| 0 <= i < name.len() ==> #[trigger] name[i] != ':' {
        lemma_position(host, ':', 0);
        let c = position(host, ':', 0);
        if c < name.len() {
            assert(host[c] == name[c]);
        }
        if c > name.len() {
            assert(host[name.len() as int] == port[0]);
        }
        assert(host.take(c) =~= name);
    }
}

/// A host of two labels or fewer, and one that begins with `s3`, names no bucket.
pub proof fn endpoint_is_no_bucket(name: Seq<char>)
    requires
        dots(name) <= 1 || starts_with(name, "s3"@),
    ensures
        !is_virtual_hosted(split(name, '.')),
{
    lemma_labels(name);
    if starts_with(name, "s3"@) {
        reveal_strlit("s3");
        lemma_position(name, '.', 0);
        let n = position(name, '.', 0);
        let first = name.take(n);
        text_without_separator_is_one_piece(first, '.');
        assert(name.subrange(0, 2)[0] == name[0] && name.subrange(0, 2)[1] == name[1]);
        assert(name[0] == 's' && name[1] == '3');
        assert(n >= 2);
        assert(first.subrange(0, 2) =~= name.subrange(0, 2));
        if n < name.len() {
            separator_parts_text(first, '.', name.skip(n + 1));
            assert(first + seq!['.'] + name.skip(n + 1) =~= name);
        } else {
            assert(first =~= name);
        }
    }
}

/// Behind an endpoint, with a port or without, the first segment of the path is the bucket, and
/// all behind the slash that follows it is the key, both percent-decoded. Slashes at the front
/// do not count.
pub proof fn path_names_bucket_and_key(
    name: Seq<char>,
    port: Seq<char>,
    slashes: nat,
    bucket: Seq<char>,
    key: Seq<char>,
)
    requires
        name.len() + port.len() > 0,
        is_port(port),
        forall|i: int| 0 <= i < name.len() ==> #[trigger] name[i] != ']' && name[i] != ':',
        dots(name) <= 1 || starts_with(name, "s3"@),
        bucket.len() > 0,
        forall|i: int| 0 <= i < bucket.len() ==> bucket[i] != '/',
        decoded(bucket) is Some,
    ensures
        ({
            let lead = Seq::new(slashes, |i: int| '/');
            &&& decoded(key) is Some ==> place_of(
                name + port,
                lead + (bucket + seq!['/'] + key),
            ) == (Place::At { bucket: decoded(bucket)->0, key: decoded(key)->0 })
            &&& decoded(key) is None ==> place_of(
                name + port,
                lead + (bucket + seq!['/'] + key),
            ) == Place::Undecodable
            &&& decoded(Seq::empty()) is Some ==> place_of(name + port, lead + bucket) == (
            Place::At { bucket: decoded(bucket)->0, key: decoded(Seq::empty())->0 })
            &&& place_of(name + port, lead) == Place::NoBucket
        }),
{
    let lead = Seq::new(slashes, |i: int| '/');
    let rest = bucket + seq!['/'] + key;
    port_comes_off(name, port);
    endpoint_is_no_bucket(name);
    assert(rest[0] == bucket[0]);
    leading_characters_are_cut_off(slashes, '/', rest);
    leading_characters_are_cut_off(slashes, '/', bucket);
    leading_characters_are_cut_off(slashes, '/', Seq::empty());
    assert(lead + Seq::<char>::empty() =~= lead);
    character_is_found_behind(bucket, '/', key);
    assert(rest.take(bucket.len() as int) =~= bucket);
    assert(rest.skip(bucket.len() as int + 1) =~= key);
    assert(bucket.take(bucket.len() as int) =~= bucket);
}

/// A host of three labels or more that does not begin with `s3` names the bucket in its first
/// label, with a port or without; the path behind its slashes is the key.
pub proof fn host_names_the_bucket(
    bucket: Seq<char>,
    endpoint: Seq<char>,
    port: Seq<char>,
    slashes: nat,
    key: Seq<char>,
)
    requires
        is_port(port),
        dots(endpoint) >= 1,
        !starts_with(bucket, "s3"@),
        forall|i: int|
            0 <= i < bucket.len() ==> #[trigger] bucket[i] != '.' && bucket[i] != ':' && bucket[i]
                != ']',
        forall|i: int|
            0 <= i < endpoint.len() ==> #[trigger] endpoint[i] != ':' && endpoint[i] != ']',
        key.len() > 0 ==> key[0] != '/',
        decoded(bucket) is Some,
        decoded(key) is Some,
    ensures
        place_of(
            bucket + seq!['.'] + endpoint + port,
            Seq::new(slashes, |i: int| '/') + key,
        ) == (Place::At { bucket: decoded(bucket)->0, key: decoded(key)->0 }),
{
    let name = bucket + seq!['.'] + endpoint;
    assert forall|i: int| 0 <= i < name.len() implies #[trigger] name[i] != ']' && name[i]
        != ':' by {
        if i < bucket.len() {
            assert(name[i] == bucket[i]);
        } else if i > bucket.len() {
            assert(name[i] == endpoint[i - bucket.len() - 1]);
        }
    }
    port_comes_off(name, port);
    text_without_separator_is_one_piece(bucket, '.');
    separator_parts_text(bucket, '.', endpoint);
    lemma_labels(endpoint);
    assert(split(name, '.')[0] == bucket);
    leading_characters_are_cut_off(slashes, '/', key);
}

/// A request without a host leads nowhere.
pub proof fn no_host_leads_nowhere(path: Seq<char>)
    ensures
        place_of(Seq::empty(), path) == Place::NoHost,
{
}

} // verus!
