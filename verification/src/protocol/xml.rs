//! XML text of responses: escaping, and the namespace on the root element.

use crate::digest::{etag_of, md5_digest};
use crate::numbers::hex_text;
use crate::protocol::error::{plain_error, AwsError, Fault};
use crate::protocol::markup::{expand_empty_tags, expanded};
use crate::protocol::types::to_xml_string;
use crate::text::{
    chars_of, find, find_chars, find_space_before, lemma_find_from, occurs, position, position_of,
    push_range, space_before, starts_with,
};
use vstd::prelude::*;
use vstd::string::*;

verus! {

/// The namespace that the root element of every response carries.
pub const S3_XML_NAMESPACE: &'static str = "http://s3.amazonaws.com/doc/2006-03-01/";

/// What a character is written as in XML text.
pub open spec fn entity(c: char) -> Seq<char> {
    if c == '&' {
        seq!['&', 'a', 'm', 'p', ';']
    } else if c == '<' {
        seq!['&', 'l', 't', ';']
    } else if c == '>' {
        seq!['&', 'g', 't', ';']
    } else if c == '"' {
        seq!['&', 'q', 'u', 'o', 't', ';']
    } else if c == '\'' {
        seq!['&', 'a', 'p', 'o', 's', ';']
    } else {
        seq![c]
    }
}

/// Text with the five XML entities in place of the characters that they stand for.
pub open spec fn escaped(s: Seq<char>) -> Seq<char>
    decreases s.len(),
{
    if s.len() == 0 {
        Seq::empty()
    } else {
        escaped(s.drop_last()) + entity(s.last())
    }
}

/// Escapes the characters `&`, `<`, `>`, `"` and `'`.
pub fn xml_escape(input: &str) -> (r: String)
    ensures
        r@ == escaped(input@),
{
    let s = chars_of(input);
    let mut r = String::new();
    let mut i: usize = 0;
    assert(r@ =~= escaped(s@.take(0)));
    while i < s.len()
        invariant
            i <= s.len(),
            r@ == escaped(s@.take(i as int)),
        decreases s.len() - i,
    {
        let c = s[i];
        let ghost before = r@;
        if c == '&' {
            r.append("&amp;");
            proof {
                reveal_strlit("&amp;");
            }
        } else if c == '<' {
            r.append("&lt;");
            proof {
                reveal_strlit("&lt;");
            }
        } else if c == '>' {
            r.append("&gt;");
            proof {
                reveal_strlit("&gt;");
            }
        } else if c == '"' {
            r.append("&quot;");
            proof {
                reveal_strlit("&quot;");
            }
        } else if c == '\'' {
            r.append("&apos;");
            proof {
                reveal_strlit("&apos;");
            }
        } else {
            r.push(c);
        }
        assert(r@ =~= before + entity(c));
        i += 1;
        assert(s@.take(i as int).drop_last() =~= s@.take(i as int - 1));
    }
    assert(s@.take(s@.len() as int) =~= s@);
    r
}

/// Escaping text piece by piece is escaping it as a whole.
pub proof fn escaping_joins(a: Seq<char>, b: Seq<char>)
    ensures
        escaped(a + b) == escaped(a) + escaped(b),
    decreases b.len(),
{
    if b.len() == 0 {
        assert(a + b =~= a);
        assert(escaped(a) + escaped(b) =~= escaped(a));
    } else {
        assert((a + b).drop_last() =~= a + b.drop_last());
        escaping_joins(a, b.drop_last());
        assert(escaped(a) + escaped(b.drop_last()) + entity(b.last()) =~= escaped(a) + (escaped(
            b.drop_last(),
        ) + entity(b.last())));
    }
}

/// Escaped text has none of the characters `<`, `>`, `"` and `'` in it.
pub proof fn escaped_text_is_inert(s: Seq<char>)
    ensures
        forall|i: int|
            0 <= i < escaped(s).len() ==> {
                let c = #[trigger] escaped(s)[i];
                c != '<' && c != '>' && c != '"' && c != '\''
            },
    decreases s.len(),
{
    if s.len() > 0 {
        escaped_text_is_inert(s.drop_last());
        let init = escaped(s.drop_last());
        let last = entity(s.last());
        assert forall|i: int| 0 <= i < escaped(s).len() implies {
            let c = #[trigger] escaped(s)[i];
            c != '<' && c != '>' && c != '"' && c != '\''
        } by {
            if i < init.len() {
                assert(escaped(s)[i] == init[i]);
            } else {
                assert(escaped(s)[i] == last[i - init.len()]);
            }
        }
    }
}

/// Escaped text begins with what its first character is written as.
pub proof fn lemma_escaped_first(s: Seq<char>)
    requires
        s.len() > 0,
    ensures
        escaped(s) == entity(s[0]) + escaped(s.drop_first()),
{
    assert(s =~= seq![s[0]] + s.drop_first());
    escaping_joins(seq![s[0]], s.drop_first());
    reveal_with_fuel(escaped, 2);
    assert(seq![s[0]].drop_last() =~= Seq::empty());
    assert(Seq::<char>::empty() + entity(s[0]) =~= entity(s[0]));
}

/// Escaping loses nothing: different texts are escaped differently.
pub proof fn escaping_is_injective(a: Seq<char>, b: Seq<char>)
    requires
        escaped(a) == escaped(b),
    ensures
        a == b,
    decreases a.len(),
{
    if a.len() == 0 {
        if b.len() > 0 {
            lemma_escaped_first(b);
            assert(escaped(b).len() > 0);
        }
        assert(a =~= b);
    } else if b.len() == 0 {
        lemma_escaped_first(a);
        assert(escaped(a).len() > 0);
    } else {
        lemma_escaped_first(a);
        lemma_escaped_first(b);
        let e = escaped(a);
        let x = entity(a[0]);
        let y = entity(b[0]);
        assert(e[0] == x[0] && e[0] == y[0]);
        if x.len() > 1 && y.len() > 1 {
            assert(e[1] == x[1] && e[1] == y[1]);
            assert(e[2] == x[2] && e[2] == y[2]);
        }
        assert(a[0] == b[0]);
        assert(e.skip(x.len() as int) =~= escaped(a.drop_first()));
        assert(e.skip(x.len() as int) =~= escaped(b.drop_first()));
        escaping_is_injective(a.drop_first(), b.drop_first());
        assert(a =~= seq![a[0]] + a.drop_first());
        assert(b =~= seq![b[0]] + b.drop_first());
    }
}

/// Text that needs no escaping stays as it is.
pub proof fn plain_text_is_kept(s: Seq<char>)
    requires
        forall|i: int| 0 <= i < s.len() ==> entity(#[trigger] s[i]) == seq![s[i]],
    ensures
        escaped(s) == s,
    decreases s.len(),
{
    if s.len() > 0 {
        assert forall|i: int| 0 <= i < s.len() - 1 implies entity(
            #[trigger] s.drop_last()[i],
        ) == seq![s.drop_last()[i]] by {
            assert(entity(s[i]) == seq![s[i]]);
        }
        plain_text_is_kept(s.drop_last());
        assert(entity(s[s.len() - 1]) == seq![s[s.len() - 1]]);
        assert(s.drop_last() + seq![s.last()] =~= s);
    }
}

/// The attribute that names the namespace, with the space before it.
pub open spec fn namespace_attribute() -> Seq<char> {
    " xmlns=\""@ + S3_XML_NAMESPACE@ + "\""@
}

/// Where the opening tag whose name ends at `from` ends: at the first `>` or `/>`.
pub open spec fn tag_end(s: Seq<char>, from: int) -> int
    decreases s.len() - from,
{
    if from < 0 || from >= s.len() {
        s.len() as int
    } else if s[from] == '>' || (s[from] == '/' && from + 1 < s.len() && s[from + 1] == '>') {
        from
    } else {
        tag_end(s, from + 1)
    }
}

/// Text put in at an index.
pub open spec fn put_in(s: Seq<char>, at: int, t: Seq<char>) -> Seq<char> {
    s.take(at) + t + s.skip(at)
}

/// XML text with the namespace on the opening tag of its root element.
///
/// A self-closing root tag at the front becomes a pair. The value of an `xmlns` attribute that
/// is there is replaced; else the attribute is put in behind the name of the element. Where the
/// tag does not end, or its `xmlns` value does not, the attribute is put in behind the root
/// name.
pub open spec fn namespaced(xml: Seq<char>, root: Seq<char>) -> Seq<char> {
    let open = seq!['<'] + root;
    let self_closing = open + seq!['/', '>'];
    if starts_with(xml, self_closing) {
        open + namespace_attribute() + seq!['>', '<', '/'] + root + seq!['>'] + xml.skip(
            self_closing.len() as int,
        )
    } else {
        match find(xml, open) {
            None => xml,
            Some(at) => {
                let name_end = at + open.len();
                let end = tag_end(xml, name_end);
                let tag = xml.subrange(at, end);
                if end >= xml.len() {
                    put_in(xml, name_end, namespace_attribute())
                } else {
                    match find(tag, "xmlns=\""@) {
                        None => put_in(
                            xml,
                            space_before(xml, name_end, end),
                            namespace_attribute(),
                        ),
                        Some(attribute) => {
                            let value = attribute + 7;
                            let quote = position(tag, '"', value);
                            if quote < tag.len() {
                                xml.take(at + value) + S3_XML_NAMESPACE@ + xml.skip(at + quote)
                            } else {
                                put_in(xml, name_end, namespace_attribute())
                            }
                        },
                    }
                }
            },
        }
    }
}

/// Whether all characters from `from` on and before `to` are ASCII.
pub open spec fn ascii_between(s: Seq<char>, from: int, to: int) -> bool {
    forall|i: int| from <= i < to && 0 <= i < s.len() ==> #[trigger] s[i] <= '\u{7f}'
}

/// Whether the opening tag of the root element can be scanned: it holds ASCII characters only,
/// from the end of the root name to the end of the tag, and in the value of `xmlns`.
pub open spec fn scannable(xml: Seq<char>, root: Seq<char>) -> bool {
    let open = seq!['<'] + root;
    starts_with(xml, open + seq!['/', '>']) || match find(xml, open) {
        None => true,
        Some(at) => {
            let name_end = at + open.len();
            let end = tag_end(xml, name_end);
            let tag = xml.subrange(at, end);
            ascii_between(xml, name_end, end) && (end < xml.len() ==> match find(
                tag,
                "xmlns=\""@,
            ) {
                None => true,
                Some(attribute) => ascii_between(
                    tag,
                    attribute + 7,
                    position(tag, '"', attribute + 7),
                ),
            })
        },
    }
}

/// Finds where the opening tag whose name ends at `from` ends.
fn find_tag_end(s: &Vec<char>, from: usize) -> (end: usize)
    requires
        from <= s.len(),
    ensures
        end == tag_end(s@, from as int),
        from <= end <= s.len(),
{
    let mut i: usize = from;
    while i < s.len() && !(s[i] == '>' || (s[i] == '/' && i + 1 < s.len() && s[i + 1] == '>'))
        invariant
            from <= i <= s.len(),
            tag_end(s@, from as int) == tag_end(s@, i as int),
        decreases s.len() - i,
    {
        i += 1;
    }
    i
}

/// The attribute that names the namespace, with the space before it.
fn namespace_text() -> (s: String)
    ensures
        s@ == namespace_attribute(),
{
    let mut s = " xmlns=\"".to_string();
    s.append(S3_XML_NAMESPACE);
    s.append("\"");
    s
}

/// The text with the attribute put in at an index.
fn with_attribute(s: &Vec<char>, at: usize) -> (r: String)
    requires
        at <= s.len(),
    ensures
        r@ == put_in(s@, at as int, namespace_attribute()),
{
    let mut r = String::new();
    push_range(&mut r, s, 0, at);
    r.append(namespace_text().as_str());
    push_range(&mut r, s, at, s.len());
    assert(r@ =~= put_in(s@, at as int, namespace_attribute()));
    r
}

/// The characters of the opening of a tag.
fn opening_of(root: &str) -> (v: Vec<char>)
    ensures
        v@ == seq!['<'] + root@,
{
    let name = chars_of(root);
    let mut v: Vec<char> = Vec::new();
    v.push('<');
    let mut i: usize = 0;
    while i < name.len()
        invariant
            i <= name.len(),
            v@ == seq!['<'] + name@.take(i as int),
        decreases name.len() - i,
    {
        v.push(name[i]);
        i += 1;
        assert(v@ =~= seq!['<'] + name@.take(i as int));
    }
    assert(name@.take(name@.len() as int) =~= name@);
    assert(v@ =~= seq!['<'] + name@);
    v
}

/// The part of a text from `from` up to `to`.
fn part_of(s: &Vec<char>, from: usize, to: usize) -> (v: Vec<char>)
    requires
        from <= to <= s.len(),
    ensures
        v@ == s@.subrange(from as int, to as int),
{
    let mut v: Vec<char> = Vec::new();
    let mut i: usize = from;
    while i < to
        invariant
            from <= i <= to <= s.len(),
            v@ == s@.subrange(from as int, i as int),
        decreases to - i,
    {
        v.push(s[i]);
        i += 1;
        assert(v@ =~= s@.subrange(from as int, i as int));
    }
    v
}

/// Puts the namespace on the opening tag of the root element.
///
/// - `<Foo>` becomes `<Foo xmlns="...">`.
/// - `<Foo bar="x">` becomes `<Foo xmlns="..." bar="x">`.
/// - `<Foo/>` becomes `<Foo xmlns="..."></Foo>`.
/// - `<Foo xmlns="old">` becomes `<Foo xmlns="...">`.
pub fn inject_xmlns(xml: &str, root_name: &str) -> (r: String)
    requires
        scannable(xml@, root_name@),
    ensures
        r@ == namespaced(xml@, root_name@),
{
    let s = chars_of(xml);
    let open = opening_of(root_name);
    let ghost opening = seq!['<'] + root_name@;
    let ghost self_closing = opening + seq!['/', '>'];
    proof {
        lemma_find_from(s@, open@, 0);
    }
    let at: usize = match find_chars(&s, &open, 0) {
        Some(at) => at,
        None => {
            proof {
                if starts_with(s@, self_closing) {
                    assert(s@.subrange(0, opening.len() as int) =~= s@.subrange(
                        0,
                        self_closing.len() as int,
                    ).subrange(0, opening.len() as int));
                    assert(crate::text::occurs_at(s@, opening, 0));
                }
            }
            return xml.to_string();
        },
    };
    let name_end: usize = at + open.len();
    if at == 0 && s.len() - name_end >= 2 && s[name_end] == '/' && s[name_end + 1] == '>' {
        let ghost front = s@.subrange(0, self_closing.len() as int);
        assert(front.subrange(0, opening.len() as int) =~= s@.subrange(0, opening.len() as int));
        assert(front =~= self_closing);
        let mut r = String::new();
        push_range(&mut r, &s, 0, name_end);
        r.append(namespace_text().as_str());
        r.push('>');
        r.push('<');
        r.push('/');
        r.append(root_name);
        r.push('>');
        push_range(&mut r, &s, name_end + 2, s.len());
        assert(s@.subrange(0, name_end as int) =~= opening);
        assert(s@.subrange(name_end + 2, s@.len() as int) =~= s@.skip(self_closing.len() as int));
        assert(r@ =~= namespaced(xml@, root_name@));
        return r;
    }
    proof {
        if starts_with(s@, self_closing) {
            let front = s@.subrange(0, self_closing.len() as int);
            assert(front.subrange(0, opening.len() as int) =~= s@.subrange(
                0,
                opening.len() as int,
            ));
            assert(self_closing.subrange(0, opening.len() as int) =~= opening);
            assert(crate::text::occurs_at(s@, opening, 0));
            assert(at == 0);
            assert(front[opening.len() as int] == '/');
            assert(front[opening.len() as int + 1] == '>');
        }
    }
    let end: usize = find_tag_end(&s, name_end);
    if end >= s.len() {
        return with_attribute(&s, name_end);
    }
    let tag = part_of(&s, at, end);
    let attribute = chars_of("xmlns=\"");
    proof {
        reveal_strlit("xmlns=\"");
        lemma_find_from(tag@, attribute@, 0);
    }
    match find_chars(&tag, &attribute, 0) {
        None => with_attribute(&s, find_space_before(&s, name_end, end)),
        Some(found) => {
            let value: usize = found + 7;
            let quote: usize = position_of(&tag, '"', value);
            if quote < tag.len() {
                let mut r = String::new();
                push_range(&mut r, &s, 0, at + value);
                r.append(S3_XML_NAMESPACE);
                push_range(&mut r, &s, at + quote, s.len());
                assert(s@.subrange(0, at + value) =~= s@.take(at + value));
                assert(s@.subrange(at + quote, s@.len() as int) =~= s@.skip(at + quote));
                assert(r@ =~= namespaced(xml@, root_name@));
                r
            } else {
                with_attribute(&s, name_end)
            }
        },
    }
}

/// Whether all characters from `from` on and before `to` are ASCII.
fn is_ascii_between(s: &Vec<char>, from: usize, to: usize) -> (b: bool)
    requires
        from <= to <= s.len(),
    ensures
        b == ascii_between(s@, from as int, to as int),
{
    let mut i: usize = from;
    while i < to
        invariant
            from <= i <= to <= s.len(),
            ascii_between(s@, from as int, i as int),
        decreases to - i,
    {
        if s[i] > '\u{7f}' {
            return false;
        }
        i += 1;
    }
    true
}

/// Tells whether the opening tag of the root element can be scanned.
pub fn can_scan(xml: &str, root_name: &str) -> (b: bool)
    ensures
        b == scannable(xml@, root_name@),
{
    let s = chars_of(xml);
    let open = opening_of(root_name);
    let mut closing: Vec<char> = opening_of(root_name);
    closing.push('/');
    closing.push('>');
    assert(closing@ =~= seq!['<'] + root_name@ + seq!['/', '>']);
    if occurs(&s, &closing, 0) {
        return true;
    }
    let at: usize = match find_chars(&s, &open, 0) {
        Some(at) => at,
        None => {
            return true;
        },
    };
    let name_end: usize = at + open.len();
    let end: usize = find_tag_end(&s, name_end);
    if !is_ascii_between(&s, name_end, end) {
        return false;
    }
    if end >= s.len() {
        return true;
    }
    let tag = part_of(&s, at, end);
    let attribute = chars_of("xmlns=\"");
    proof {
        reveal_strlit("xmlns=\"");
    }
    match find_chars(&tag, &attribute, 0) {
        None => true,
        Some(found) => {
            let quote: usize = position_of(&tag, '"', found + 7);
            is_ascii_between(&tag, found + 7, quote)
        },
    }
}

/// Whether what a serializer wrote can be sent under a root element: its root tag can be
/// scanned once self-closing tags are expanded.
pub open spec fn sendable(body: Result<String, String>, root: Seq<char>) -> bool {
    match body {
        Ok(xml) => scannable(expanded(xml@), root),
        Err(_) => true,
    }
}

/// Tells whether what a serializer wrote can be sent under a root element.
pub fn can_send(body: &Result<String, String>, root_name: &str) -> (b: bool)
    ensures
        b == sendable(*body, root_name@),
{
    match body {
        Ok(xml) => can_scan(expand_empty_tags(xml.as_str()).as_str(), root_name),
        Err(_) => true,
    }
}

/// The XML text of a response: what a serializer wrote, with self-closing tags expanded and
/// the namespace on the root element.
pub fn serialize(body: Result<String, String>, root_name: &str) -> (r: Result<String, AwsError>)
    requires
        sendable(body, root_name@),
    ensures
        match (body, r) {
            (Ok(xml), Ok(text)) => text@ == namespaced(expanded(xml@), root_name@),
            (Err(details), Err(e)) => e@ == plain_error(
                Fault::XmlSerializationError { details: details@ },
            ),
            _ => false,
        },
{
    match to_xml_string(body) {
        Ok(text) => Ok(inject_xmlns(text.as_str(), root_name)),
        Err(e) => Err(e),
    }
}

/// The entity tag of data: hexadecimal MD5 in quotes.
pub fn format_etag(data: &[u8]) -> (s: String)
    ensures
        s@ == etag_of(data@),
{
    let sum = md5_digest(data);
    let mut s = String::new();
    s.push('"');
    s.append(hex_text(sum.as_slice()).as_str());
    s.push('"');
    assert(s@ =~= etag_of(data@));
    s
}

} // verus!
