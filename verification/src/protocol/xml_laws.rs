//! What holds of the namespace on root elements.

use crate::protocol::xml::{
    namespace_attribute, namespaced, put_in, tag_end, S3_XML_NAMESPACE,
};
use crate::text::{
    contains, find, lemma_find_from, lemma_position, lemma_space_before, occurs_at, position,
    space_before, starts_with,
};
use vstd::prelude::*;

verus! {

/// Whether an opening tag can end at an index.
spec fn is_close(s: Seq<char>, i: int) -> bool {
    s[i] == '>' || (s[i] == '/' && i + 1 < s.len() && s[i + 1] == '>')
}

/// A tag ends at the first place where it can.
proof fn lemma_tag_end(s: Seq<char>, from: int)
    requires
        0 <= from <= s.len(),
    ensures
        from <= tag_end(s, from) <= s.len(),
        tag_end(s, from) < s.len() ==> is_close(s, tag_end(s, from)),
        forall|i: int| from <= i < tag_end(s, from) ==> !#[trigger] is_close(s, i),
    decreases s.len() - from,
{
    if from < s.len() && !is_close(s, from) {
        lemma_tag_end(s, from + 1);
    }
}

/// The first place where a tag can end is where it ends.
proof fn lemma_tag_end_is(s: Seq<char>, from: int, end: int)
    requires
        0 <= from <= end < s.len(),
        is_close(s, end),
        forall|i: int| from <= i < end ==> !#[trigger] is_close(s, i),
    ensures
        tag_end(s, from) == end,
{
    lemma_tag_end(s, from);
    let e = tag_end(s, from);
    if e < end {
        assert(!is_close(s, e));
    }
    if e > end {
        assert(!is_close(s, end));
    }
}

/// The first occurrence is what is found.
pub proof fn lemma_find_is(s: Seq<char>, p: Seq<char>, i: int)
    requires
        occurs_at(s, p, i),
        forall|j: int| 0 <= j < i ==> !#[trigger] occurs_at(s, p, j),
    ensures
        find(s, p) == Some(i),
{
    lemma_find_from(s, p, 0);
}

/// Two texts that agree up to an index hold the same where a pattern ends before it.
proof fn lemma_agree(s: Seq<char>, t: Seq<char>, n: int, p: Seq<char>, i: int)
    requires
        0 <= n <= s.len(),
        n <= t.len(),
        s.take(n) == t.take(n),
        0 <= i,
        i + p.len() <= n,
    ensures
        occurs_at(s, p, i) == occurs_at(t, p, i),
{
    assert(s.subrange(i, i + p.len()) =~= s.take(n).subrange(i, i + p.len()));
    assert(t.subrange(i, i + p.len()) =~= t.take(n).subrange(i, i + p.len()));
}

/// The text that opens the value of an `xmlns` attribute.
spec fn mark() -> Seq<char> {
    seq!['x', 'm', 'l', 'n', 's', '=', '"']
}

/// The characters of the namespace: no quote is among them, and nothing that ends a tag.
proof fn lemma_namespace()
    ensures
        "xmlns=\""@ == mark(),
        S3_XML_NAMESPACE@.len() == 39,
        S3_XML_NAMESPACE@[0] == 'h',
        forall|i: int|
            0 <= i < 39 ==> #[trigger] S3_XML_NAMESPACE@[i] != '"' && S3_XML_NAMESPACE@[i] != '>',
{
    reveal_strlit("xmlns=\"");
    reveal_strlit("http://s3.amazonaws.com/doc/2006-03-01/");
    assert("xmlns=\""@ =~= mark());
    let ns = seq![
        'h', 't', 't', 'p', ':', '/', '/', 's', '3', '.', 'a', 'm', 'a', 'z', 'o', 'n', 'a', 'w',
        's', '.', 'c', 'o', 'm', '/', 'd', 'o', 'c', '/', '2', '0', '0', '6', '-', '0', '3', '-',
        '0', '1', '/'
    ];
    assert(S3_XML_NAMESPACE@ =~= ns);
}

/// The characters of the attribute.
proof fn lemma_attribute()
    ensures
        namespace_attribute().len() == 48,
        namespace_attribute()[0] == ' ',
        namespace_attribute()[47] == '"',
        forall|i: int| 0 <= i < 48 ==> #[trigger] namespace_attribute()[i] != '>',
        forall|i: int| 0 <= i < 7 ==> #[trigger] namespace_attribute()[i + 1] == mark()[i],
        forall|i: int|
            0 <= i < 39 ==> #[trigger] namespace_attribute()[i + 8] == S3_XML_NAMESPACE@[i],
{
    lemma_namespace();
    reveal_strlit(" xmlns=\"");
    reveal_strlit("\"");
    let attr = namespace_attribute();
    assert(" xmlns=\""@ =~= seq![' '] + mark());
    assert forall|i: int| 0 <= i < 48 implies #[trigger] attr[i] != '>' by {
        if 8 <= i < 47 {
            assert(attr[i] == S3_XML_NAMESPACE@[i - 8]);
        }
    }
    assert forall|i: int| 0 <= i < 7 implies #[trigger] attr[i + 1] == mark()[i] by {
        assert(attr[i + 1] == " xmlns=\""@[i + 1]);
        assert((seq![' '] + mark())[i + 1] == mark()[i]);
    }
    assert(attr[0] == " xmlns=\""@[0]);
}

/// A text whose root tag carries the namespace already stays as it is.
proof fn lemma_marked(y: Seq<char>, root: Seq<char>, at: int, a: int)
    requires
        ({
            let open = seq!['<'] + root;
            let end = tag_end(y, at + open.len());
            let tag = y.subrange(at, end);
            let value = a + 7;
            let ns = S3_XML_NAMESPACE@;
            &&& !starts_with(y, open + seq!['/', '>'])
            &&& find(y, open) == Some(at)
            &&& 0 <= at
            &&& at + open.len() <= end < y.len()
            &&& find(tag, mark()) == Some(a)
            &&& 0 <= a
            &&& at + value + ns.len() < end
            &&& y.subrange(at + value, at + value + ns.len()) == ns
            &&& y[at + value + ns.len()] == '"'
        }),
    ensures
        namespaced(y, root) == y,
{
    lemma_namespace();
    let open = seq!['<'] + root;
    let end = tag_end(y, at + open.len());
    let tag = y.subrange(at, end);
    let value = a + 7;
    let ns = S3_XML_NAMESPACE@;
    let quote = value + ns.len();
    lemma_position(tag, '"', value);
    assert(tag[quote] == '"');
    assert forall|j: int| value <= j < quote implies tag[j] != '"' by {
        assert(tag[j] == y.subrange(at + value, at + quote)[j - value]);
        assert(ns[j - value] != '"');
    }
    assert(position(tag, '"', value) == quote);
    assert(y.take(at + value) + ns + y.skip(at + quote) =~= y);
}

/// A text with a part replaced: what stands from `k` up to `m` by `t`.
spec fn spliced(x: Seq<char>, k: int, m: int, t: Seq<char>) -> Seq<char> {
    x.take(k) + t + x.skip(m)
}

/// The root tag is found at the same place in a text that is changed behind its name only.
proof fn lemma_same_root(x: Seq<char>, y: Seq<char>, open: Seq<char>, at: int, k: int)
    requires
        find(x, open) == Some(at),
        0 <= at,
        at + open.len() <= k <= x.len(),
        k <= y.len(),
        x.take(k) == y.take(k),
    ensures
        find(y, open) == Some(at),
{
    lemma_find_from(x, open, 0);
    lemma_agree(x, y, k, open, at);
    assert forall|j: int| 0 <= j < at implies !#[trigger] occurs_at(y, open, j) by {
        lemma_agree(x, y, k, open, j);
        assert(!occurs_at(x, open, j));
    }
    lemma_find_is(y, open, at);
}

/// A text does not begin with a self-closing root tag where its root tag is found further
/// back, or goes on otherwise.
proof fn lemma_not_self_closing(y: Seq<char>, open: Seq<char>, at: int)
    requires
        find(y, open) == Some(at),
        at == 0 ==> !(open.len() + 2 <= y.len() && y[open.len() as int] == '/'
            && y[open.len() as int + 1] == '>'),
    ensures
        !starts_with(y, open + seq!['/', '>']),
{
    let closing = open + seq!['/', '>'];
    lemma_find_from(y, open, 0);
    if starts_with(y, closing) {
        let front = y.subrange(0, closing.len() as int);
        assert(front.subrange(0, open.len() as int) =~= y.subrange(0, open.len() as int));
        assert(closing.subrange(0, open.len() as int) =~= open);
        assert(occurs_at(y, open, 0));
        assert(front[open.len() as int] == closing[open.len() as int]);
        assert(front[open.len() as int + 1] == closing[open.len() as int + 1]);
    }
}

/// A text that does not begin with a self-closing root tag goes on otherwise.
proof fn lemma_goes_on(x: Seq<char>, open: Seq<char>)
    requires
        find(x, open) == Some(0int),
        !starts_with(x, open + seq!['/', '>']),
    ensures
        !(open.len() + 2 <= x.len() && x[open.len() as int] == '/' && x[open.len() as int + 1]
            == '>'),
{
    let closing = open + seq!['/', '>'];
    lemma_find_from(x, open, 0);
    if open.len() + 2 <= x.len() && x[open.len() as int] == '/' && x[open.len() as int + 1]
        == '>' {
        let front = x.subrange(0, closing.len() as int);
        assert(x.subrange(0, open.len() as int) =~= open);
        assert forall|i: int| 0 <= i < closing.len() implies front[i] == closing[i] by {
            if i < open.len() {
                assert(x.subrange(0, open.len() as int)[i] == open[i]);
            }
        }
        assert(front =~= closing);
    }
}

/// The opening tag of a text that is changed within it ends where it did, as far as that was
/// moved.
proof fn lemma_moved_end(x: Seq<char>, from: int, k: int, m: int, t: Seq<char>)
    requires
        0 <= from <= k <= m <= tag_end(x, from) < x.len(),
        t.len() > 0,
        forall|i: int| 0 <= i < t.len() ==> #[trigger] t[i] != '>',
        t.last() != '/' || x[m] != '>',
    ensures
        tag_end(spliced(x, k, m, t), from) == tag_end(x, from) - m + k + t.len(),
{
    let y = spliced(x, k, m, t);
    let end = tag_end(x, from);
    let shift = k + t.len() - m;
    let later = end + shift;
    lemma_tag_end(x, from);
    assert forall|i: int| 0 <= i < k implies y[i] == x[i] by {}
    assert forall|i: int| k <= i < k + t.len() implies y[i] == t[i - k] by {}
    assert forall|i: int| k + t.len() <= i < y.len() implies y[i] == x[i - shift] by {}
    assert forall|i: int| from <= i < later implies !#[trigger] is_close(y, i) by {
        if i < k {
            assert(!is_close(x, i));
            if i + 1 == k {
                assert(y[i + 1] == t[0]);
            }
        } else if i < k + t.len() {
            if i + 1 < k + t.len() {
                assert(y[i + 1] == t[i + 1 - k]);
            } else {
                assert(y[i + 1] == x[m]);
            }
        } else {
            assert(!is_close(x, i - shift));
        }
    }
    assert(is_close(x, end));
    assert(is_close(y, later));
    lemma_tag_end_is(y, from, later);
}

/// The attribute that is put in is the first of its name, where there is none before it.
proof fn lemma_first_attribute(tag: Seq<char>, c: int)
    requires
        0 <= c <= tag.len(),
        forall|j: int| 0 <= j && j + 7 <= c ==> !#[trigger] occurs_at(tag, mark(), j),
    ensures
        find(spliced(tag, c, c, namespace_attribute()), mark()) == Some(c + 1),
{
    lemma_attribute();
    let attr = namespace_attribute();
    let y = spliced(tag, c, c, attr);
    assert(y.take(c) =~= tag.take(c));
    assert(y.subrange(c + 1, c + 8) =~= mark()) by {
        assert forall|i: int| 0 <= i < 7 implies y[c + 1 + i] == mark()[i] by {
            assert(y[c + 1 + i] == attr[i + 1]);
        }
    }
    assert forall|j: int| 0 <= j < c + 1 implies !#[trigger] occurs_at(y, mark(), j) by {
        if j + 7 <= c {
            lemma_agree(tag, y, c, mark(), j);
        } else if occurs_at(y, mark(), j) {
            assert(y[c] == attr[0]);
            assert(y.subrange(j, j + 7)[c - j] == mark()[c - j]);
        }
    }
    lemma_find_is(y, mark(), c + 1);
}

/// Where the attribute is put in, its characters stand.
proof fn lemma_attribute_stands(x: Seq<char>, k: int)
    requires
        0 <= k <= x.len(),
    ensures
        ({
            let y = spliced(x, k, k, namespace_attribute());
            &&& y.len() == x.len() + 48
            &&& y.take(k) == x.take(k)
            &&& y[k] == ' '
            &&& y.subrange(k + 8, k + 47) == S3_XML_NAMESPACE@
            &&& y[k + 47] == '"'
        }),
{
    lemma_attribute();
    lemma_namespace();
    let attr = namespace_attribute();
    let ns = S3_XML_NAMESPACE@;
    let y = spliced(x, k, k, attr);
    assert(y.take(k) =~= x.take(k));
    assert(y[k] == attr[0]);
    assert(y[k + 47] == attr[47]);
    assert forall|i: int| 0 <= i < 39 implies y.subrange(k + 8, k + 47)[i] == ns[i] by {
        assert(y[k + 8 + i] == attr[i + 8]);
    }
    assert(y.subrange(k + 8, k + 47) =~= ns);
}

/// A part of a text that a splice lies in is spliced itself.
proof fn lemma_spliced_part(x: Seq<char>, k: int, t: Seq<char>, at: int, end: int)
    requires
        0 <= at <= k <= end <= x.len(),
    ensures
        spliced(x, k, k, t).subrange(at, end + t.len()) == spliced(
            x.subrange(at, end),
            k - at,
            k - at,
            t,
        ),
{
    assert(spliced(x, k, k, t).subrange(at, end + t.len()) =~= spliced(
        x.subrange(at, end),
        k - at,
        k - at,
        t,
    ));
}

/// A text that had the attribute put in behind the name of its root element, or further back
/// in its opening tag, carries the namespace.
proof fn lemma_put_in(x: Seq<char>, root: Seq<char>, at: int, k: int)
    requires
        ({
            let open = seq!['<'] + root;
            let end = tag_end(x, at + open.len());
            &&& find(x, open) == Some(at)
            &&& 0 <= at
            &&& at + open.len() <= k <= end < x.len()
            &&& !starts_with(x, open + seq!['/', '>'])
            &&& forall|j: int|
                0 <= j && j + 7 <= k - at ==> !#[trigger] occurs_at(
                    x.subrange(at, end),
                    mark(),
                    j,
                )
        }),
    ensures
        namespaced(put_in(x, k, namespace_attribute()), root) == put_in(
            x,
            k,
            namespace_attribute(),
        ),
{
    let open = seq!['<'] + root;
    let name_end = at + open.len();
    let end = tag_end(x, name_end);
    let attr = namespace_attribute();
    let y = put_in(x, k, attr);
    assert(y == spliced(x, k, k, attr));
    lemma_attribute_stands(x, k);
    lemma_same_root(x, y, open, at, k);
    if at == 0 {
        lemma_goes_on(x, open);
        assert forall|i: int| 0 <= i < k implies y[i] == x[i] by {
            assert(y.take(k)[i] == x.take(k)[i]);
        }
    }
    lemma_not_self_closing(y, open, at);
    lemma_attribute();
    lemma_moved_end(x, name_end, k, k, attr);
    lemma_spliced_part(x, k, attr, at, end);
    lemma_first_attribute(x.subrange(at, end), k - at);
    lemma_namespace();
    lemma_marked(y, root, at, k - at + 1);
}

/// A text whose `xmlns` value was replaced carries the namespace.
proof fn lemma_replaced(x: Seq<char>, root: Seq<char>, at: int, a: int, quote: int)
    requires
        ({
            let open = seq!['<'] + root;
            let end = tag_end(x, at + open.len());
            let tag = x.subrange(at, end);
            &&& find(x, open) == Some(at)
            &&& 0 <= at
            &&& at + open.len() <= end < x.len()
            &&& !starts_with(x, open + seq!['/', '>'])
            &&& find(tag, mark()) == Some(a)
            &&& 0 <= a
            &&& a + 7 >= open.len()
            &&& a + 7 <= quote < tag.len()
            &&& tag[quote] == '"'
        }),
    ensures
        ({
            let y = spliced(x, at + a + 7, at + quote, S3_XML_NAMESPACE@);
            namespaced(y, root) == y
        }),
{
    lemma_namespace();
    let open = seq!['<'] + root;
    let name_end = at + open.len();
    let end = tag_end(x, name_end);
    let tag = x.subrange(at, end);
    let ns = S3_XML_NAMESPACE@;
    let k = at + a + 7;
    let m = at + quote;
    let y = spliced(x, k, m, ns);
    lemma_find_from(tag, mark(), 0);
    assert(x[k - 1] == '"') by {
        assert(tag.subrange(a, a + 7)[6] == mark()[6]);
        assert(tag[a + 6] == x[at + a + 6]);
    }
    assert(x[m] == '"');
    assert(y.take(k) =~= x.take(k));
    lemma_same_root(x, y, open, at, k);
    if at == 0 {
        lemma_goes_on(x, open);
        assert(y[k] == ns[0]);
        assert forall|i: int| 0 <= i < k implies y[i] == x[i] by {}
    }
    lemma_not_self_closing(y, open, at);
    lemma_moved_end(x, name_end, k, m, ns);
    let later = end - m + k + ns.len();
    let tag_y = y.subrange(at, later);
    assert(tag_y.take(a + 7) =~= tag.take(a + 7));
    lemma_agree(tag, tag_y, a + 7, mark(), a);
    assert forall|j: int| 0 <= j < a implies !#[trigger] occurs_at(tag_y, mark(), j) by {
        lemma_agree(tag, tag_y, a + 7, mark(), j);
        assert(!occurs_at(tag, mark(), j));
    }
    lemma_find_is(tag_y, mark(), a);
    assert(y.subrange(k, k + ns.len()) =~= ns);
    assert(y[k + ns.len()] == x[m]);
    lemma_marked(y, root, at, a);
}

/// A text that begins with a self-closing root tag, once that is a pair, carries the
/// namespace.
proof fn lemma_self_closing(x: Seq<char>, root: Seq<char>)
    requires
        starts_with(x, seq!['<'] + root + seq!['/', '>']),
        forall|j: int|
            0 <= j && j + 7 <= root.len() + 1 ==> !#[trigger] occurs_at(
                seq!['<'] + root,
                mark(),
                j,
            ),
    ensures
        namespaced(namespaced(x, root), root) == namespaced(x, root),
{
    let open = seq!['<'] + root;
    let closing = open + seq!['/', '>'];
    let rest = x.skip(closing.len() as int);
    let plain = open + seq!['>', '<', '/'] + root + seq!['>'] + rest;
    let n = open.len() as int;
    let attr = namespace_attribute();
    assert(plain.take(n) =~= open);
    assert(plain.skip(n) =~= seq!['>', '<', '/'] + root + seq!['>'] + rest);
    assert(namespaced(x, root) =~= put_in(plain, n, attr));
    assert(plain.subrange(0, n) =~= open);
    lemma_find_is(plain, open, 0);
    assert(plain[n] == '>');
    lemma_tag_end_is(plain, n, n);
    lemma_not_self_closing(plain, open, 0);
    lemma_put_in(plain, root, 0, n);
}

/// No `xmlns` attribute opens within a root name that does not hold one.
proof fn lemma_plain_root(root: Seq<char>)
    requires
        !contains(root, "xmlns=\""@),
    ensures
        forall|j: int|
            0 <= j && j + 7 <= root.len() + 1 ==> !#[trigger] occurs_at(
                seq!['<'] + root,
                mark(),
                j,
            ),
{
    lemma_namespace();
    lemma_find_from(root, mark(), 0);
    let open = seq!['<'] + root;
    assert forall|j: int| 0 <= j && j + 7 <= root.len() + 1 implies !#[trigger] occurs_at(
        open,
        mark(),
        j,
    ) by {
        if occurs_at(open, mark(), j) {
            assert(open.subrange(j, j + 7)[0] == mark()[0]);
            assert(j > 0);
            assert(root.subrange(j - 1, j + 6) =~= open.subrange(j, j + 7));
            assert(occurs_at(root, mark(), j - 1));
        }
    }
}

/// What the namespace is put on, where the root tag ends and does not close itself at the
/// front.
proof fn lemma_open_tag(x: Seq<char>, root: Seq<char>, at: int)
    requires
        ({
            let open = seq!['<'] + root;
            let end = tag_end(x, at + open.len());
            &&& find(x, open) == Some(at)
            &&& 0 <= at
            &&& at + open.len() <= end < x.len()
            &&& !starts_with(x, open + seq!['/', '>'])
            &&& forall|j: int|
                0 <= j && j + 7 <= open.len() ==> !#[trigger] occurs_at(open, mark(), j)
        }),
    ensures
        namespaced(namespaced(x, root), root) == namespaced(x, root),
{
    lemma_namespace();
    let open = seq!['<'] + root;
    let name_end = at + open.len();
    let end = tag_end(x, name_end);
    let tag = x.subrange(at, end);
    lemma_find_from(x, open, 0);
    lemma_find_from(tag, mark(), 0);
    assert(tag.take(open.len() as int) =~= x.subrange(at, at + open.len()));
    assert(open.take(open.len() as int) =~= open);
    assert forall|j: int| 0 <= j && j + 7 <= open.len() implies !#[trigger] occurs_at(
        tag,
        mark(),
        j,
    ) by {
        lemma_agree(tag, open, open.len() as int, mark(), j);
        assert(!occurs_at(open, mark(), j));
    }
    if find(tag, mark()) is None {
        lemma_space_before(x, name_end, end);
        lemma_put_in(x, root, at, space_before(x, name_end, end));
    } else {
        let a = find(tag, mark())->0;
        let quote = position(tag, '"', a + 7);
        lemma_position(tag, '"', a + 7);
        if quote < tag.len() {
            lemma_replaced(x, root, at, a, quote);
        } else {
            lemma_put_in(x, root, at, name_end);
        }
    }
}

/// The namespace is put on a root tag once: a text that has it stays as it is. This holds of
/// every text whose root tag ends, and of every root name that does not itself open an `xmlns`
/// attribute.
pub proof fn namespace_is_put_on_once(x: Seq<char>, root: Seq<char>)
    requires
        !contains(root, "xmlns=\""@),
        match find(x, seq!['<'] + root) {
            Some(at) => tag_end(x, at + 1 + root.len()) < x.len(),
            None => true,
        },
    ensures
        namespaced(namespaced(x, root), root) == namespaced(x, root),
{
    let open = seq!['<'] + root;
    let closing = open + seq!['/', '>'];
    lemma_plain_root(root);
    lemma_find_from(x, open, 0);
    if starts_with(x, closing) {
        lemma_self_closing(x, root);
    } else if find(x, open) is Some {
        let at = find(x, open)->0;
        lemma_tag_end(x, at + open.len());
        lemma_open_tag(x, root, at);
    }
}

} // verus!
