//! What becomes of XML text, told by how it is written.

use crate::protocol::markup::{
    close_at, comment_close, comment_open, construct_len, element_name, expanded, is_clear,
    is_quote, is_tag, is_verbatim, lemma_clear_both, lemma_clear_front, lemma_text_before,
    self_closing_tag_is_expanded,
};
use crate::protocol::xml::{namespaced, scannable, tag_end};
use crate::protocol::xml_laws::lemma_find_is;
use crate::text::{
    find, find_from, is_space, lemma_find_from, lemma_position, lemma_space_before, occurs_at,
    position, space_before, starts_with,
};
use vstd::prelude::*;
use vstd::string::*;

verus! {

/// Whether `close` stands at the end of `text` and `close` together, and nowhere before.
pub open spec fn closes_first(text: Seq<char>, close: Seq<char>) -> bool {
    forall|i: int| 0 <= i < text.len() ==> !#[trigger] occurs_at(text + close, close, i)
}

/// The first place behind `from` where a text stands is what is found.
proof fn lemma_found(s: Seq<char>, p: Seq<char>, from: int, at: int)
    requires
        0 <= from <= at,
        occurs_at(s, p, at),
        forall|j: int| from <= j < at ==> !#[trigger] occurs_at(s, p, j),
    ensures
        find_from(s, p, from) == Some(at),
{
    lemma_find_from(s, p, from);
}

/// What closes a construct is found behind its text.
proof fn lemma_closed_by(open: Seq<char>, text: Seq<char>, close: Seq<char>, b: Seq<char>)
    requires
        closes_first(text, close),
    ensures
        find_from(open + text + close + b, close, open.len() as int) == Some(
            (open.len() + text.len()) as int,
        ),
{
    let s = open + text + close + b;
    let u = text + close;
    let n = open.len() as int;
    let m = close.len() as int;
    let at = n + text.len();
    assert(s.subrange(at, at + m) =~= close);
    assert(s.skip(n) =~= u + b);
    assert forall|j: int| n <= j < at implies !#[trigger] occurs_at(s, close, j) by {
        assert(!occurs_at(u, close, j - n));
        assert(u.subrange(j - n, j - n + m) =~= s.subrange(j, j + m));
    }
    lemma_found(s, close, n, at);
}

/// A comment stays as it is, whatever stands in it, and so do a CDATA section and a processing
/// instruction; what follows is expanded in turn.
pub proof fn verbatim_text_is_kept(a: Seq<char>, text: Seq<char>, b: Seq<char>)
    requires
        forall|i: int| 0 <= i < a.len() ==> a[i] != '<',
    ensures
        closes_first(text, "-->"@) ==> expanded(a + ("<!--"@ + text + "-->"@ + b)) == a + ("<!--"@
            + text + "-->"@ + expanded(b)),
        closes_first(text, "]]>"@) ==> expanded(a + ("<![CDATA["@ + text + "]]>"@ + b)) == a + (
        "<![CDATA["@ + text + "]]>"@ + expanded(b)),
        closes_first(text, "?>"@) ==> expanded(a + ("<?"@ + text + "?>"@ + b)) == a + ("<?"@ + text
            + "?>"@ + expanded(b)),
{
    reveal_strlit("<!--");
    reveal_strlit("-->");
    reveal_strlit("<![CDATA[");
    reveal_strlit("]]>");
    reveal_strlit("<?");
    reveal_strlit("?>");
    assert("<!--"@ =~= comment_open());
    assert("-->"@ =~= comment_close());
    assert("<![CDATA["@ =~= crate::protocol::markup::cdata_open());
    assert("]]>"@ =~= crate::protocol::markup::cdata_close());
    assert("<?"@ =~= crate::protocol::markup::instruction_open());
    assert("?>"@ =~= crate::protocol::markup::instruction_close());
    if closes_first(text, "-->"@) {
        lemma_verbatim(a, "<!--"@, text, "-->"@, b);
    }
    if closes_first(text, "]]>"@) {
        lemma_verbatim(a, "<![CDATA["@, text, "]]>"@, b);
    }
    if closes_first(text, "?>"@) {
        lemma_verbatim(a, "<?"@, text, "?>"@, b);
    }
}

/// What one of the three kinds of construct opens and closes with stays as it is.
proof fn lemma_verbatim(
    a: Seq<char>,
    open: Seq<char>,
    text: Seq<char>,
    close: Seq<char>,
    b: Seq<char>,
)
    requires
        forall|i: int| 0 <= i < a.len() ==> a[i] != '<',
        closes_first(text, close),
        (open == comment_open() && close == comment_close()) || (open
            == crate::protocol::markup::cdata_open() && close
            == crate::protocol::markup::cdata_close()) || (open
            == crate::protocol::markup::instruction_open() && close
            == crate::protocol::markup::instruction_close()),
    ensures
        expanded(a + (open + text + close + b)) == a + (open + text + close + expanded(b)),
{
    let s = open + text + close + b;
    let c = open + text + close;
    lemma_text_before(a, s);
    lemma_closed_by(open, text, close, b);
    assert(s.subrange(0, open.len() as int) =~= open);
    assert(c.subrange(0, open.len() as int) =~= open);
    if open != comment_open() && starts_with(s, comment_open()) {
        assert(s.subrange(0, 4)[2] == s[2] && s.subrange(0, 4)[1] == s[1]);
        assert(open[1] == s[1]);
        if open == crate::protocol::markup::cdata_open() {
            assert(open[2] == s[2]);
        }
    }
    if open == crate::protocol::markup::instruction_open() && starts_with(
        s,
        crate::protocol::markup::cdata_open(),
    ) {
        assert(s.subrange(0, 9)[1] == s[1]);
        assert(open[1] == s[1]);
    }
    assert(construct_len(s) == c.len());
    assert(s.take(c.len() as int) =~= c);
    assert(s.skip(c.len() as int) =~= b);
    assert(is_verbatim(c));
    assert(s[0] == '<');
}

/// A value in quotes is passed over, whatever `>` stands in it.
proof fn lemma_value(value: Seq<char>, quote: char, rest: Seq<char>)
    requires
        is_quote(quote),
        forall|i: int| 0 <= i < value.len() ==> #[trigger] value[i] != quote && value[i] != '<',
    ensures
        close_at(value + seq![quote] + rest, Some(quote)) == (match close_at(rest, None) {
            Some(i) => Some(i + value.len() + 1),
            None => None::<int>,
        }),
    decreases value.len(),
{
    let s = value + seq![quote] + rest;
    if value.len() == 0 {
        assert(s.drop_first() =~= rest);
        assert(s[0] == quote);
    } else {
        let less = value.drop_first();
        assert(s.drop_first() =~= less + seq![quote] + rest);
        assert(s[0] == value[0]);
        assert forall|i: int| 0 <= i < less.len() implies #[trigger] less[i] != quote && less[i]
            != '<' by {
            assert(less[i] == value[i + 1]);
        }
        lemma_value(less, quote, rest);
    }
}

/// A self-closing tag with an attribute becomes a pair: the opening tag keeps the attribute,
/// whatever its value, and the closing tag has the name of the element alone.
pub proof fn attribute_is_kept(
    a: Seq<char>,
    name: Seq<char>,
    attribute: Seq<char>,
    quote: char,
    value: Seq<char>,
    b: Seq<char>,
)
    requires
        forall|i: int| 0 <= i < a.len() ==> a[i] != '<',
        name.len() > 0,
        name[0] != '/',
        name[0] != '!',
        name[0] != '?',
        is_clear(name),
        forall|i: int| 0 <= i < name.len() ==> !is_space(#[trigger] name[i]),
        is_clear(attribute),
        quote == '"' || quote == '\'',
        forall|i: int| 0 <= i < value.len() ==> #[trigger] value[i] != quote && value[i] != '<',
    ensures
        ({
            let text = name + seq![' '] + attribute + seq!['=', quote] + value + seq![quote];
            expanded(a + seq!['<'] + text + seq!['/', '>'] + b) == a + seq!['<'] + text + seq![
                '>',
                '<',
                '/',
            ] + name + seq!['>'] + expanded(b)
        }),
{
    let text = name + seq![' '] + attribute + seq!['=', quote] + value + seq![quote];
    let tag = seq!['<'] + text + seq!['/', '>'];
    let front = name + seq![' '] + attribute + seq!['='];
    let tail = seq!['/', '>'];
    lemma_clear_both(name, seq![' ']);
    lemma_clear_both(name + seq![' '], attribute);
    lemma_clear_both(name + seq![' '] + attribute, seq!['=']);
    let quoted = seq![quote] + (value + seq![quote] + tail);
    lemma_clear_front(front, quoted);
    assert(tag.drop_first() =~= front + quoted);
    lemma_value(value, quote, tail);
    assert(quoted.drop_first() =~= value + seq![quote] + tail);
    assert(quoted[0] == quote);
    reveal_with_fuel(close_at, 3);
    assert(tail.drop_first() =~= seq!['>']);
    assert(close_at(tail, None) == Some(1int));
    assert(is_tag(tag));
    lemma_space_before(text, 0, text.len() as int);
    let n = space_before(text, 0, text.len() as int);
    assert(text[name.len() as int] == ' ');
    assert(is_space(' '));
    if n < name.len() {
        assert(text[n] == name[n]);
    }
    if n > name.len() {
        assert(!is_space(text[name.len() as int]));
    }
    assert(element_name(text) =~= name);
    assert(text[0] == name[0]);
    assert(text.last() == quote);
    assert(!is_space(quote));
    self_closing_tag_is_expanded(a, text, b);
}

/// The namespace goes on the tag that opens the root element, in front of its attributes; what
/// stands before and behind stays as it is. A root element that closes itself becomes a pair.
pub proof fn namespace_goes_on_the_root(
    before: Seq<char>,
    root: Seq<char>,
    attributes: Seq<char>,
    rest: Seq<char>,
)
    requires
        forall|i: int|
            0 <= i < root.len() ==> #[trigger] root[i] != '"' && root[i] != '>' && root[i] != '/',
        root.len() > 0,
        forall|i: int|
            0 <= i < before.len() ==> !#[trigger] occurs_at(
                before + (seq!['<'] + root),
                seq!['<'] + root,
                i,
            ),
        attributes.len() > 0 ==> is_space(attributes[0]),
        forall|i: int| 0 <= i < attributes.len() ==> #[trigger] attributes[i] != '>',
        !attributes.contains('/'),
        forall|i: int| 0 <= i ==> !#[trigger] occurs_at(attributes, "xmlns=\""@, i),
    ensures
        namespaced(before + (seq!['<'] + root) + attributes + seq!['>'] + rest, root) == before + (
        seq!['<'] + root) + " xmlns=\"http://s3.amazonaws.com/doc/2006-03-01/\""@ + attributes
            + seq!['>'] + rest,
        namespaced((seq!['<'] + root) + seq!['/', '>'] + rest, root) == (seq!['<'] + root)
            + " xmlns=\"http://s3.amazonaws.com/doc/2006-03-01/\""@ + seq!['>', '<', '/'] + root
            + seq!['>'] + rest,
{
    let open = seq!['<'] + root;
    lemma_namespace_text();
    let attr = crate::protocol::xml::namespace_attribute();
    let x = before + open + attributes + seq!['>'] + rest;
    let at = before.len() as int;
    let name_end = at + open.len();
    let end = name_end + attributes.len();
    assert(x =~= before + open + (attributes + seq!['>'] + rest));
    lemma_root_found(before, open, attributes + seq!['>'] + rest);
    lemma_attributes_in_tag(before + open, attributes, rest);
    lemma_tag_end_found(x, name_end, end);
    let tag = x.subrange(at, end);
    assert(tag =~= open + attributes);
    lemma_no_mark(root, attributes);
    lemma_no_self_closing(before, open, attributes, rest);
    lemma_space_before(x, name_end, end);
    assert(attributes.len() > 0 ==> x[name_end] == attributes[0]);
    assert(space_before(x, name_end, end) == name_end);
    assert(crate::protocol::xml::put_in(x, name_end, attr) =~= before + open + attr + attributes
        + seq!['>'] + rest);
    let closing = open + seq!['/', '>'];
    let y = closing + rest;
    assert(open + seq!['/', '>'] + rest =~= y);
    assert(y.subrange(0, closing.len() as int) =~= closing);
    assert(y.skip(closing.len() as int) =~= rest);
}

/// What opens the root element is found behind text that it does not stand in.
proof fn lemma_root_found(before: Seq<char>, open: Seq<char>, tail: Seq<char>)
    requires
        forall|i: int|
            0 <= i < before.len() ==> !#[trigger] occurs_at(before + open, open, i),
    ensures
        find(before + open + tail, open) == Some(before.len() as int),
{
    let x = before + open + tail;
    let at = before.len() as int;
    assert(x.subrange(at, at + open.len()) =~= open);
    assert forall|j: int| 0 <= j < at implies !#[trigger] occurs_at(x, open, j) by {
        assert(!occurs_at(before + open, open, j));
        assert((before + open).subrange(j, j + open.len()) =~= x.subrange(j, j + open.len()));
    }
    lemma_find_is(x, open, at);
}

/// Attributes without slashes and `>` do not end the tag that they stand in.
proof fn lemma_attributes_in_tag(front: Seq<char>, attributes: Seq<char>, rest: Seq<char>)
    requires
        forall|i: int| 0 <= i < attributes.len() ==> #[trigger] attributes[i] != '>',
        !attributes.contains('/'),
    ensures
        ({
            let x = front + attributes + seq!['>'] + rest;
            let n = front.len() as int;
            let end = n + attributes.len();
            &&& x[end] == '>'
            &&& forall|j: int| n <= j < end ==> #[trigger] x[j] != '>' && x[j] != '/'
        }),
{
    let x = front + attributes + seq!['>'] + rest;
    let n = front.len() as int;
    let end = n + attributes.len();
    assert(x[end] == '>');
    assert forall|j: int| n <= j < end implies #[trigger] x[j] != '>' && x[j] != '/' by {
        assert(x[j] == attributes[j - n]);
        assert(attributes.contains(attributes[j - n]));
    }
}

/// A root tag has no `xmlns` attribute where none opens in its attributes.
proof fn lemma_no_mark(root: Seq<char>, attributes: Seq<char>)
    requires
        forall|i: int| 0 <= i < root.len() ==> #[trigger] root[i] != '"',
        attributes.len() > 0 ==> is_space(attributes[0]),
        forall|i: int| 0 <= i ==> !#[trigger] occurs_at(attributes, "xmlns=\""@, i),
    ensures
        find(seq!['<'] + root + attributes, "xmlns=\""@) is None,
{
    reveal_strlit("xmlns=\"");
    let mark = "xmlns=\""@;
    let open = seq!['<'] + root;
    let tag = open + attributes;
    lemma_find_from(tag, mark, 0);
    if find(tag, mark) is Some {
        let k = find(tag, mark)->0;
        let n = open.len() as int;
        if k >= n {
            assert(!occurs_at(attributes, mark, k - n));
            assert(attributes.subrange(k - n, k - n + 7) =~= tag.subrange(k, k + 7));
        } else {
            lemma_mark_needs_quote(open, root, attributes, tag, k);
        }
    }
}

/// The value of an `xmlns` attribute that the root element has is replaced by the namespace; all
/// else stays as it is.
pub proof fn other_namespace_is_replaced(
    root: Seq<char>,
    value: Seq<char>,
    attributes: Seq<char>,
    rest: Seq<char>,
)
    requires
        forall|i: int| 0 <= i < root.len() ==> #[trigger] root[i] != '"',
        forall|i: int| 0 <= i < value.len() ==> #[trigger] value[i] != '"' && value[i] != '>',
        forall|i: int| 0 <= i < attributes.len() ==> #[trigger] attributes[i] != '>',
        attributes.len() > 0 ==> attributes.last() != '/',
    ensures
        ({
            let front = seq!['<'] + root + " xmlns=\""@;
            let back = seq!['"'] + attributes + seq!['>'] + rest;
            namespaced(front + value + back, root) == front
                + "http://s3.amazonaws.com/doc/2006-03-01/"@ + back
        }),
{
    reveal_strlit(" xmlns=\"");
    reveal_strlit("xmlns=\"");
    let open = seq!['<'] + root;
    let mark = "xmlns=\""@;
    let front = open + " xmlns=\""@;
    let back = seq!['"'] + attributes + seq!['>'] + rest;
    let x = front + value + back;
    let n = open.len() as int;
    let from = n + 8;
    let quote = from + value.len();
    let end = quote + 1 + attributes.len();
    assert(x.subrange(0, n) =~= open);
    lemma_find_is(x, open, 0);
    lemma_not_closed_at_once(x, open);
    lemma_value_in_tag(open, value, attributes, rest);
    lemma_tag_end_reached(x, n, end);
    let tag = x.subrange(0, end);
    lemma_value_in_tag_found(root, value, attributes, tag);
    assert(x.take(from) =~= front);
    assert(x.skip(quote) =~= back);
}

/// A root tag that goes on with a space does not close itself at the front.
proof fn lemma_not_closed_at_once(x: Seq<char>, open: Seq<char>)
    requires
        x.len() > open.len(),
        x[open.len() as int] == ' ',
    ensures
        !starts_with(x, open + seq!['/', '>']),
{
    let n = open.len() as int;
    if starts_with(x, open + seq!['/', '>']) {
        assert(x.subrange(0, n + 2)[n] == (open + seq!['/', '>'])[n]);
    }
}

/// A root tag with a value of `xmlns` in it does not end before its attributes do.
proof fn lemma_value_in_tag(
    open: Seq<char>,
    value: Seq<char>,
    attributes: Seq<char>,
    rest: Seq<char>,
)
    requires
        forall|i: int| 0 <= i < value.len() ==> #[trigger] value[i] != '"' && value[i] != '>',
        forall|i: int| 0 <= i < attributes.len() ==> #[trigger] attributes[i] != '>',
        attributes.len() > 0 ==> attributes.last() != '/',
    ensures
        ({
            let x = open + " xmlns=\""@ + value + (seq!['"'] + attributes + seq!['>'] + rest);
            let n = open.len() as int;
            let end = n + 8 + value.len() + 1 + attributes.len();
            &&& 0 <= n <= end < x.len()
            &&& x[n] == ' '
            &&& x[end] == '>'
            &&& forall|j: int|
                n <= j < end ==> #[trigger] x[j] != '>' && !(x[j] == '/' && x[j + 1] == '>')
        }),
{
    reveal_strlit(" xmlns=\"");
    let m = " xmlns=\""@;
    let x = open + m + value + (seq!['"'] + attributes + seq!['>'] + rest);
    let n = open.len() as int;
    let from = n + 8;
    let quote = from + value.len();
    let end = quote + 1 + attributes.len();
    assert(x[n] == m[0]);
    assert(x[end] == '>');
    assert(x[quote] == '"');
    assert forall|j: int| n <= j < end implies #[trigger] x[j] != '>' && !(x[j] == '/' && x[j + 1]
        == '>') by {
        if j < from {
            assert(x[j] == m[j - n]);
        } else if j < quote {
            assert(x[j] == value[j - from]);
            if j + 1 < quote {
                assert(x[j + 1] == value[j + 1 - from]);
            }
        } else if j > quote {
            let k = j - quote - 1;
            assert(x[j] == attributes[k]);
            if j + 1 < end {
                assert(x[j + 1] == attributes[k + 1]);
            }
        }
    }
}

/// The value of `xmlns` in a root tag is found between its quotes.
proof fn lemma_value_in_tag_found(
    root: Seq<char>,
    value: Seq<char>,
    attributes: Seq<char>,
    tag: Seq<char>,
)
    requires
        forall|i: int| 0 <= i < root.len() ==> #[trigger] root[i] != '"',
        forall|i: int| 0 <= i < value.len() ==> #[trigger] value[i] != '"',
        tag =~= seq!['<'] + root + " xmlns=\""@ + value + seq!['"'] + attributes,
    ensures
        find(tag, "xmlns=\""@) == Some((root.len() + 2) as int),
        position(tag, '"', (root.len() + 9) as int) == root.len() + 9 + value.len(),
        root.len() + 9 + value.len() < tag.len(),
{
    reveal_strlit(" xmlns=\"");
    let front = seq!['<'] + root + " xmlns=\""@;
    let back = value + seq!['"'] + attributes;
    assert(tag =~= front + back);
    assert(tag =~= front + value + seq!['"'] + attributes);
    lemma_mark_found(root, back);
    lemma_quote_found(front, value, attributes);
}

/// An `xmlns` attribute that follows the name of the root element is found there.
proof fn lemma_mark_found(root: Seq<char>, back: Seq<char>)
    requires
        forall|i: int| 0 <= i < root.len() ==> #[trigger] root[i] != '"',
    ensures
        find(seq!['<'] + root + " xmlns=\""@ + back, "xmlns=\""@) == Some(
            (root.len() + 2) as int,
        ),
{
    reveal_strlit(" xmlns=\"");
    reveal_strlit("xmlns=\"");
    let open = seq!['<'] + root;
    let mark = "xmlns=\""@;
    let tag = open + " xmlns=\""@ + back;
    let n = open.len() as int;
    let tail = " xmlns=\""@ + back;
    assert(tag =~= open + tail);
    assert(tail[0] == ' ');
    assert(is_space(' '));
    assert(" xmlns=\""@.skip(1) =~= mark);
    assert(tag.subrange(n + 1, n + 8) =~= " xmlns=\""@.skip(1));
    assert forall|j: int| 0 <= j < n + 1 implies !#[trigger] occurs_at(tag, mark, j) by {
        if j < n {
            lemma_mark_needs_quote(open, root, tail, tag, j);
        } else if occurs_at(tag, mark, n) {
            assert(tag.subrange(n, n + 7)[0] == tag[n]);
            assert(tag[n] == tail[0]);
        }
    }
    lemma_find_is(tag, mark, n + 1);
}

/// A value ends at the first quote behind it.
proof fn lemma_quote_found(front: Seq<char>, value: Seq<char>, rest: Seq<char>)
    requires
        forall|i: int| 0 <= i < value.len() ==> #[trigger] value[i] != '"',
    ensures
        position(front + value + seq!['"'] + rest, '"', front.len() as int) == front.len()
            + value.len(),
{
    let s = front + value + seq!['"'] + rest;
    let from = front.len() as int;
    let quote = from + value.len();
    lemma_position(s, '"', from);
    assert(s[quote] == '"');
    let p = position(s, '"', from);
    if p < quote {
        assert(s[p] == value[p - from]);
    }
}

/// A tag ends at a `>`, where none and no slash with one behind it stands before.
proof fn lemma_tag_end_reached(x: Seq<char>, from: int, end: int)
    requires
        0 <= from <= end < x.len(),
        x[end] == '>',
        forall|j: int|
            from <= j < end ==> #[trigger] x[j] != '>' && !(x[j] == '/' && x[j + 1] == '>'),
    ensures
        tag_end(x, from) == end,
    decreases end - from,
{
    if from < end {
        assert(x[from] != '>' && !(x[from] == '/' && x[from + 1] == '>'));
        lemma_tag_end_reached(x, from + 1, end);
    }
}

/// The root tag of a text with ASCII characters only can be scanned.
pub proof fn ascii_text_can_be_scanned(xml: Seq<char>, root: Seq<char>)
    requires
        forall|i: int| 0 <= i < xml.len() ==> #[trigger] xml[i] as int <= 127,
    ensures
        scannable(xml, root),
{
    let open = seq!['<'] + root;
    lemma_find_from(xml, open, 0);
    if let Some(at) = find(xml, open) {
        let name_end = at + open.len();
        let end = tag_end(xml, name_end);
        if end < xml.len() {
            lemma_tag_end_bounds(xml, name_end);
            let tag = xml.subrange(at, end);
            assert forall|i: int| 0 <= i < tag.len() implies #[trigger] tag[i] <= '\u{7f}' by {
                assert(tag[i] == xml[at + i]);
            }
        }
    }
}

/// A tag does not end before its name does.
proof fn lemma_tag_end_bounds(x: Seq<char>, from: int)
    requires
        0 <= from <= x.len(),
    ensures
        from <= tag_end(x, from) <= x.len(),
    decreases x.len() - from,
{
    if from < x.len() && !(x[from] == '>' || (x[from] == '/' && from + 1 < x.len() && x[from + 1]
        == '>')) {
        lemma_tag_end_bounds(x, from + 1);
    }
}

/// The text of the attribute that names the namespace.
proof fn lemma_namespace_text()
    ensures
        crate::protocol::xml::namespace_attribute()
            == " xmlns=\"http://s3.amazonaws.com/doc/2006-03-01/\""@,
{
    reveal_strlit(" xmlns=\"");
    reveal_strlit("http://s3.amazonaws.com/doc/2006-03-01/");
    reveal_strlit("\"");
    reveal_strlit(" xmlns=\"http://s3.amazonaws.com/doc/2006-03-01/\"");
    assert(crate::protocol::xml::namespace_attribute()
        =~= " xmlns=\"http://s3.amazonaws.com/doc/2006-03-01/\""@);
}

/// A tag ends at its first `>`, where no slash stands before it.
proof fn lemma_tag_end_found(x: Seq<char>, from: int, end: int)
    requires
        0 <= from <= end < x.len(),
        x[end] == '>',
        forall|j: int| from <= j < end ==> #[trigger] x[j] != '>' && x[j] != '/',
    ensures
        tag_end(x, from) == end,
    decreases end - from,
{
    if from < end {
        assert(x[from] != '>' && x[from] != '/');
        lemma_tag_end_found(x, from + 1, end);
    }
}

/// The quote of an `xmlns` attribute is not in the name of the root element, and what opens the
/// attribute is not parted by the white space behind the name.
proof fn lemma_mark_needs_quote(
    open: Seq<char>,
    root: Seq<char>,
    attributes: Seq<char>,
    tag: Seq<char>,
    k: int,
)
    requires
        open == seq!['<'] + root,
        forall|i: int| 0 <= i < root.len() ==> #[trigger] root[i] != '"',
        attributes.len() > 0 ==> is_space(attributes[0]),
        tag =~= open + attributes,
        0 <= k < open.len(),
    ensures
        !occurs_at(tag, "xmlns=\""@, k),
{
    reveal_strlit("xmlns=\"");
    let mark = "xmlns=\""@;
    if occurs_at(tag, mark, k) {
        assert(tag.subrange(k, k + 7) =~= mark);
        assert forall|i: int| 0 <= i < 7 implies tag[k + i] == #[trigger] mark[i] by {
            assert(tag.subrange(k, k + 7)[i] == tag[k + i]);
        }
        let q = k + 6;
        assert(tag[q] == mark[6]);
        if q < open.len() {
            if q > 0 {
                assert(tag[q] == root[q - 1]);
            }
        } else {
            let n = open.len() as int;
            assert(tag[n] == attributes[0]);
            assert(tag[k + (n - k)] == mark[n - k]);
            assert(!is_space(mark[n - k]));
        }
    }
}

/// A root tag that goes on with attributes or a `>` does not close itself at the front.
proof fn lemma_no_self_closing(
    before: Seq<char>,
    open: Seq<char>,
    attributes: Seq<char>,
    rest: Seq<char>,
)
    requires
        open.len() > 0,
        forall|i: int|
            0 <= i < before.len() ==> !#[trigger] occurs_at(before + open, open, i),
        attributes.len() > 0 ==> is_space(attributes[0]),
    ensures
        !starts_with(
            before + open + attributes + seq!['>'] + rest,
            open + seq!['/', '>'],
        ),
{
    let x = before + open + attributes + seq!['>'] + rest;
    let closing = open + seq!['/', '>'];
    let n = open.len() as int;
    if starts_with(x, closing) {
        assert(x.subrange(0, n + 2)[n] == closing[n]);
        assert(x[n] == '/');
        if before.len() > 0 {
            assert((before + open).subrange(0, n) =~= open) by {
                assert forall|i: int| 0 <= i < n implies (before + open)[i] == open[i] by {
                    assert(x.subrange(0, n + 2)[i] == closing[i]);
                    assert((before + open)[i] == x[i]);
                }
            }
            assert(occurs_at(before + open, open, 0));
        } else if attributes.len() > 0 {
            assert(x[n] == attributes[0]);
        } else {
            assert(x[n] == '>');
        }
    }
}

} // verus!
