//! Checks of what clients name: paths, and the source of a copy.

use crate::protocol::error::{plain_error, AwsError, AwsErrorKind, ErrorState, Fault};
use crate::text::{
    chars_of, contains, has_infix, has_prefix, position, position_of, split, split_text,
    starts_with, text_eq, texts,
};
use vstd::prelude::*;
use vstd::string::*;

verus! {

/// Whether a segment of the path is `..`.
pub open spec fn climbs(value: Seq<char>) -> bool {
    split(value, '/').contains(".."@)
}

/// The error for an argument.
pub open spec fn invalid_argument(name: Seq<char>, value: Seq<char>) -> ErrorState {
    plain_error(Fault::InvalidArgument { argument_name: name, value })
}

/// The error for an argument.
pub fn invalid_argument_error(name: &str, value: &str) -> (e: AwsError)
    ensures
        e@ == invalid_argument(name@, value@),
{
    AwsError::new(
        AwsErrorKind::InvalidArgument {
            argument_name: name.to_string(),
            value: value.to_string(),
        },
    )
}

/// Refuses a bucket or key with a segment `..` in it.
pub fn validate_no_path_traversal(value: &str, argument_name: &str) -> (r: Result<(), AwsError>)
    ensures
        match r {
            Ok(_) => !climbs(value@),
            Err(e) => climbs(value@) && e@ == invalid_argument(argument_name@, value@),
        },
{
    let segments = split_text(value, '/');
    let ghost all = texts(segments@);
    let mut i: usize = 0;
    while i < segments.len()
        invariant
            i <= segments.len(),
            all == texts(segments@),
            all == split(value@, '/'),
            forall|j: int| 0 <= j < i ==> all[j] != ".."@,
        decreases segments.len() - i,
    {
        assert(all[i as int] == segments@[i as int]@);
        if text_eq(segments[i].as_str(), "..") {
            return Err(invalid_argument_error(argument_name, value));
        }
        i += 1;
    }
    Ok(())
}

/// The name of the header field that gives the source of a copy.
pub open spec fn copy_source_name() -> Seq<char> {
    "x-amz-copy-source"@
}

/// A copy source without the slash that it may begin with.
pub open spec fn source_path(s: Seq<char>) -> Seq<char> {
    if s.len() > 0 && s[0] == '/' {
        s.skip(1)
    } else {
        s
    }
}

/// The bucket and key that a copy source names. It is refused where it holds a URL scheme,
/// begins with two slashes, has no slash between bucket and key, no bucket, or a segment `..`.
pub open spec fn copy_source(s: Seq<char>) -> Result<(Seq<char>, Seq<char>), ErrorState> {
    let path = source_path(s);
    let slash = position(path, '/', 0);
    let bucket = path.take(slash);
    let key = path.skip(slash + 1);
    if contains(s, "://"@) || starts_with(s, "//"@) || slash == path.len() || slash == 0 {
        Err(invalid_argument(copy_source_name(), s))
    } else if climbs(bucket) {
        Err(invalid_argument(copy_source_name(), bucket))
    } else if climbs(key) {
        Err(invalid_argument(copy_source_name(), key))
    } else {
        Ok((bucket, key))
    }
}

/// Reads a copy source: its bucket and key, or the error for it.
pub fn validate_copy_source(source: &str) -> (r: Result<(&str, &str), AwsError>)
    ensures
        match r {
            Ok(place) => copy_source(source@) == Ok::<_, ErrorState>((place.0@, place.1@)),
            Err(e) => copy_source(source@) == Err::<(Seq<char>, Seq<char>), _>(e@),
        },
{
    if has_infix(source, "://") {
        return Err(invalid_argument_error("x-amz-copy-source", source));
    }
    if has_prefix(source, "//") {
        return Err(invalid_argument_error("x-amz-copy-source", source));
    }
    let all = chars_of(source);
    let from: usize = if all.len() > 0 && all[0] == '/' {
        1
    } else {
        0
    };
    let path = source.substring_char(from, all.len());
    assert(path@ =~= source_path(source@));
    let chars = chars_of(path);
    let slash: usize = position_of(&chars, '/', 0);
    if slash == chars.len() || slash == 0 {
        return Err(invalid_argument_error("x-amz-copy-source", source));
    }
    let bucket = path.substring_char(0, slash);
    let key = path.substring_char(slash + 1, chars.len());
    assert(bucket@ =~= path@.take(slash as int));
    assert(key@ =~= path@.skip(slash + 1));
    match validate_no_path_traversal(bucket, "x-amz-copy-source") {
        Ok(_) => {},
        Err(e) => {
            return Err(e);
        },
    }
    match validate_no_path_traversal(key, "x-amz-copy-source") {
        Ok(_) => {},
        Err(e) => {
            return Err(e);
        },
    }
    Ok((bucket, key))
}

/// A copy source that is accepted names a bucket, and climbs nowhere.
pub proof fn accepted_source_is_contained(s: Seq<char>)
    requires
        copy_source(s) is Ok,
    ensures
        ({
            let (bucket, key) = copy_source(s)->Ok_0;
            bucket.len() > 0 && !climbs(bucket) && !climbs(key) && !contains(s, "://"@)
        }),
{
    crate::text::lemma_position(source_path(s), '/', 0);
}

} // verus!
