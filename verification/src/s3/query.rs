//! Query strings, and metadata in header fields.

use crate::message::{value_text, text_of_value, Fields, Headers};
use crate::percent::{decoded, url_decode};
use crate::string_map::{with_entry, Entries, StringMap};
use crate::text::{
    chars_of, has_prefix, lowercase, position, position_of, split, split_text, starts_with,
    string_of, texts,
};
use vstd::prelude::*;
use vstd::string::*;

verus! {

/// The name and value that a part of a query denotes: percent-encoded text on both sides of
/// the first `=`, or a name alone. `None` for an empty part and one that cannot be decoded.
pub open spec fn parameter(pair: Seq<char>) -> Option<(Seq<char>, Seq<char>)> {
    let eq = position(pair, '=', 0);
    if eq < pair.len() {
        match (decoded(pair.take(eq)), decoded(pair.skip(eq + 1))) {
            (Some(name), Some(value)) => Some((name, value)),
            _ => None,
        }
    } else if pair.len() == 0 {
        None
    } else {
        match decoded(pair) {
            Some(name) => Some((name, Seq::empty())),
            None => None,
        }
    }
}

/// The parameters that the parts of a query denote. The last one of a name counts.
pub open spec fn parameters(pairs: Seq<Seq<char>>) -> Entries
    decreases pairs.len(),
{
    if pairs.len() == 0 {
        Seq::empty()
    } else {
        let entries = parameters(pairs.drop_last());
        match parameter(pairs.last()) {
            Some((name, value)) => with_entry(entries, name, value),
            None => entries,
        }
    }
}

/// The parameters of a query.
pub open spec fn query_parameters(query: Seq<char>) -> Entries {
    parameters(split(query, '&'))
}

/// The name and value that a part of a query denotes.
fn parse_parameter(pair: &str) -> (r: Option<(String, String)>)
    ensures
        match r {
            Some((name, value)) => parameter(pair@) == Some((name@, value@)),
            None => parameter(pair@) is None,
        },
{
    let chars = chars_of(pair);
    let eq: usize = position_of(&chars, '=', 0);
    if eq < chars.len() {
        let name = string_of(&chars, 0, eq);
        let value = string_of(&chars, eq + 1, chars.len());
        assert(name@ =~= pair@.take(eq as int));
        assert(value@ =~= pair@.skip(eq + 1));
        match (url_decode(name.as_str()), url_decode(value.as_str())) {
            (Ok(name), Ok(value)) => Some((name, value)),
            _ => None,
        }
    } else if chars.len() == 0 {
        None
    } else {
        match url_decode(pair) {
            Ok(name) => {
                let value = String::new();
                assert(value@ =~= Seq::empty());
                Some((name, value))
            },
            Err(_) => None,
        }
    }
}

/// Reads the parameters of a query. The last one of a name counts.
pub fn parse_query(query: &str) -> (m: StringMap)
    ensures
        m@ == query_parameters(query@),
{
    let pairs = split_text(query, '&');
    let ghost all = texts(pairs@);
    let mut m = StringMap::new();
    let mut i: usize = 0;
    assert(all.take(0) =~= Seq::empty());
    while i < pairs.len()
        invariant
            i <= pairs.len(),
            all == texts(pairs@),
            m@ == parameters(all.take(i as int)),
        decreases pairs.len() - i,
    {
        assert(all.take(i as int + 1).drop_last() =~= all.take(i as int));
        assert(all.take(i as int + 1).last() == pairs@[i as int]@);
        if let Some((name, value)) = parse_parameter(pairs[i].as_str()) {
            m.insert(name, value);
        }
        i += 1;
    }
    assert(all.take(all.len() as int) =~= all);
    m
}

/// The metadata that a header field gives: its name behind `x-amz-meta-`, and its text.
pub open spec fn metadata_entry(name: Seq<char>, value: Seq<u8>) -> Option<
    (Seq<char>, Seq<char>),
> {
    let lower = lowercase(name);
    if !starts_with(lower, "x-amz-meta-"@) {
        None
    } else {
        match value_text(value) {
            Some(text) => Some((lower.skip(11), text)),
            None => None,
        }
    }
}

/// The metadata that header fields give. The last field of a name counts.
pub open spec fn metadata_of(fields: Fields) -> Entries
    decreases fields.len(),
{
    if fields.len() == 0 {
        Seq::empty()
    } else {
        let entries = metadata_of(fields.drop_last());
        match metadata_entry(fields.last().0, fields.last().1) {
            Some((name, text)) => with_entry(entries, name, text),
            None => entries,
        }
    }
}

/// Reads the metadata out of header fields.
pub fn parse_metadata(headers: &Headers) -> (m: StringMap)
    ensures
        m@ == metadata_of(headers@),
{
    let mut m = StringMap::new();
    let mut i: usize = 0;
    assert(headers@.take(0) =~= Seq::empty());
    proof {
        reveal_strlit("x-amz-meta-");
    }
    while i < headers.fields.len()
        invariant
            i <= headers.fields.len(),
            "x-amz-meta-"@.len() == 11,
            m@ == metadata_of(headers@.take(i as int)),
        decreases headers.fields.len() - i,
    {
        let field = &headers.fields[i];
        assert(headers@.take(i as int + 1).drop_last() =~= headers@.take(i as int));
        assert(headers@.take(i as int + 1).last() == (field.name@, field.value@));
        let lower = field.name.to_lowercase();
        assert(lower@ == lowercase(field.name@));
        if has_prefix(lower.as_str(), "x-amz-meta-") {
            if let Some(text) = text_of_value(&field.value) {
                let chars = chars_of(lower.as_str());
                let name = string_of(&chars, 11, chars.len());
                assert(name@ =~= lower@.skip(11));
                m.insert(name, text);
            }
        }
        i += 1;
    }
    assert(headers@.take(headers@.len() as int) =~= headers@);
    m
}

/// Of two parameters of one name in a query, the last one counts.
pub proof fn last_parameter_counts(
    pairs: Seq<Seq<char>>,
    name: Seq<char>,
    value: Seq<char>,
)
    requires
        pairs.len() > 0,
        parameter(pairs.last()) == Some((name, value)),
    ensures
        crate::string_map::value_of(parameters(pairs), name) == Some(value),
{
    crate::string_map::entry_reads_back(parameters(pairs.drop_last()), name, value, name);
}

} // verus!
