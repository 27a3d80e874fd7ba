//! Rewriting of XML text: self-closing tags become open/close pairs.

use crate::text::{
    chars_of, find_chars, find_from, find_space_before, is_space, lemma_find_from,
    lemma_find_in_suffix, lemma_space_before, lemma_space_in_part, lemma_trim, lemma_trimmed,
    occurs, occurs_at, push_range, space_before, starts_with, trim, trimmed,
};
use vstd::prelude::*;

verus! {

/// The text that opens a comment.
pub open spec fn comment_open() -> Seq<char> {
    seq!['<', '!', '-', '-']
}

/// The text that closes a comment.
pub open spec fn comment_close() -> Seq<char> {
    seq!['-', '-', '>']
}

/// The text that opens a CDATA section.
pub open spec fn cdata_open() -> Seq<char> {
    seq!['<', '!', '[', 'C', 'D', 'A', 'T', 'A', '[']
}

/// The text that closes a CDATA section.
pub open spec fn cdata_close() -> Seq<char> {
    seq![']', ']', '>']
}

/// The text that opens a processing instruction.
pub open spec fn instruction_open() -> Seq<char> {
    seq!['<', '?']
}

/// The text that closes a processing instruction.
pub open spec fn instruction_close() -> Seq<char> {
    seq!['?', '>']
}

/// The text that closes a tag.
pub open spec fn tag_close() -> Seq<char> {
    seq!['>']
}

/// The number of characters up to and with the first `close` at or after `from`; all of them
/// where nothing closes.
pub open spec fn through(s: Seq<char>, close: Seq<char>, from: int) -> int {
    match find_from(s, close, from) {
        Some(i) => i + close.len(),
        None => s.len() as int,
    }
}

/// Whether `s` opens with a construct whose content is never rewritten.
pub open spec fn is_verbatim(s: Seq<char>) -> bool {
    starts_with(s, comment_open()) || starts_with(s, cdata_open()) || starts_with(
        s,
        instruction_open(),
    )
}

/// Whether the character opens or closes the value of an attribute.
pub open spec fn is_quote(c: char) -> bool {
    c == '"' || c == '\''
}

/// The quote that is open past the character `c`, where `quote` was open before it.
pub open spec fn quote_past(quote: Option<char>, c: char) -> Option<char> {
    match quote {
        Some(q) => if c == q {
            None
        } else {
            quote
        },
        None => if is_quote(c) {
            Some(c)
        } else {
            None
        },
    }
}

/// Where the tag closes whose text goes on with `s`: at the first `>` outside quotes. A tag has
/// no `<` in it.
pub open spec fn close_at(s: Seq<char>, quote: Option<char>) -> Option<int>
    decreases s.len(),
{
    if s.len() == 0 || s[0] == '<' {
        None
    } else if quote is None && s[0] == '>' {
        Some(0)
    } else {
        match close_at(s.drop_first(), quote_past(quote, s[0])) {
            Some(i) => Some(i + 1),
            None => None,
        }
    }
}

/// Whether the text is one tag: it opens with `<`, and closes with its last character.
pub open spec fn is_tag(tag: Seq<char>) -> bool {
    tag.len() > 0 && tag[0] == '<' && close_at(tag.drop_first(), None) == Some(tag.len() - 2)
}

/// The length of the construct that begins with the `<` at the front of `s`. What closes as no
/// tag does goes up to the first `>`.
pub open spec fn construct_len(s: Seq<char>) -> int {
    if starts_with(s, comment_open()) {
        through(s, comment_close(), 4)
    } else if starts_with(s, cdata_open()) {
        through(s, cdata_close(), 9)
    } else if starts_with(s, instruction_open()) {
        through(s, instruction_close(), 2)
    } else {
        match close_at(s.drop_first(), None) {
            Some(i) => i + 2,
            None => through(s, tag_close(), 1),
        }
    }
}

/// Whether a text can stand in a self-closing tag, before its slash: it begins with the name of
/// an element. A closing tag and what begins with `<!` or `<?` are no such tag, nor is one with
/// a second slash.
pub open spec fn names_element(t: Seq<char>) -> bool {
    &&& t.len() > 0
    &&& t[0] != '/'
    &&& t[0] != '!'
    &&& t[0] != '?'
    &&& t.last() != '/'
    &&& forall|i: int| 0 <= i < element_name(t).len() ==> !is_quote(#[trigger] element_name(t)[i])
}

/// What stands in the tag `<t/>`, white space around it aside; `None` for all else.
pub open spec fn self_closing_text(tag: Seq<char>) -> Option<Seq<char>> {
    if tag.len() >= 3 && is_tag(tag) && tag[tag.len() - 2] == '/' {
        let t = trim(tag.subrange(1, tag.len() - 2));
        if names_element(t) {
            Some(t)
        } else {
            None
        }
    } else {
        None
    }
}

/// The name of the element in the text of a tag: what stands before the first white space.
pub open spec fn element_name(t: Seq<char>) -> Seq<char> {
    t.take(space_before(t, 0, t.len() as int))
}

/// The open/close pair for the text of a tag.
pub open spec fn pair(t: Seq<char>) -> Seq<char> {
    seq!['<'] + t + seq!['>', '<', '/'] + element_name(t) + seq!['>']
}

/// What a construct is replaced by.
pub open spec fn rewritten(construct: Seq<char>) -> Seq<char> {
    if is_verbatim(construct) {
        construct
    } else {
        match self_closing_text(construct) {
            Some(t) => pair(t),
            None => construct,
        }
    }
}

/// XML text with every self-closing tag expanded.
pub open spec fn expanded(s: Seq<char>) -> Seq<char>
    decreases s.len(),
    via expanded_decreases
{
    if s.len() == 0 {
        s
    } else if s[0] != '<' {
        seq![s[0]] + expanded(s.drop_first())
    } else {
        rewritten(s.take(construct_len(s))) + expanded(s.skip(construct_len(s)))
    }
}

#[via_fn]
proof fn expanded_decreases(s: Seq<char>) {
    if s.len() > 0 && s[0] == '<' {
        lemma_construct_len(s);
    }
}

/// A construct has at least one character.
proof fn lemma_construct_len(s: Seq<char>)
    requires
        s.len() > 0,
    ensures
        1 <= construct_len(s) <= s.len(),
{
    lemma_find_from(s, comment_close(), 4);
    lemma_find_from(s, cdata_close(), 9);
    lemma_find_from(s, instruction_close(), 2);
    lemma_find_from(s, tag_close(), 1);
    lemma_close(s.drop_first(), None);
}

/// A tag closes with a `>`, and has no `<` before it.
proof fn lemma_close(s: Seq<char>, quote: Option<char>)
    ensures
        close_at(s, quote) is Some ==> ({
            let i = close_at(s, quote)->0;
            &&& 0 <= i < s.len()
            &&& s[i] == '>'
            &&& forall|k: int| 0 <= k < i ==> s[k] != '<'
        }),
    decreases s.len(),
{
    if s.len() > 0 && s[0] != '<' && !(quote is None && s[0] == '>') {
        lemma_close(s.drop_first(), quote_past(quote, s[0]));
        if close_at(s, quote) is Some {
            let i = close_at(s, quote)->0;
            assert(s[i] == s.drop_first()[i - 1]);
            assert forall|k: int| 0 <= k < i implies s[k] != '<' by {
                if k > 0 {
                    assert(s[k] == s.drop_first()[k - 1]);
                }
            }
        }
    }
}

/// Where the tag closes whose text goes on from `from`, with `end` as the end of the text.
fn find_close(s: &Vec<char>, from: usize, end: usize) -> (r: Option<usize>)
    requires
        from <= end <= s.len(),
    ensures
        match close_at(s@.subrange(from as int, end as int), None) {
            Some(i) => r is Some && r->0 == from + i,
            None => r is None,
        },
{
    let ghost whole = s@.subrange(from as int, end as int);
    let mut quote: Option<char> = None;
    let mut i: usize = from;
    proof {
        lemma_close(whole, None);
    }
    while i < end
        invariant
            from <= i <= end <= s.len(),
            whole == s@.subrange(from as int, end as int),
            close_at(whole, None) == (match close_at(s@.subrange(i as int, end as int), quote) {
                Some(k) => Some(i - from + k),
                None => None::<int>,
            }),
            close_at(whole, None) is Some ==> close_at(whole, None)->0 < whole.len(),
        decreases end - i,
    {
        let c = s[i];
        assert(s@.subrange(i as int, end as int).drop_first() =~= s@.subrange(i + 1, end as int));
        if c == '<' {
            return None;
        }
        match quote {
            Some(q) => {
                if c == q {
                    quote = None;
                }
            },
            None => {
                if c == '>' {
                    return Some(i);
                }
                if c == '"' || c == '\'' {
                    quote = Some(c);
                }
            },
        }
        i += 1;
    }
    None
}

/// Whether there is a quote from `from` on and before `end`.
fn has_quote(s: &Vec<char>, from: usize, end: usize) -> (b: bool)
    requires
        from <= end <= s.len(),
    ensures
        b == exists|i: int| from <= i < end && is_quote(#[trigger] s@[i]),
{
    let mut i: usize = from;
    while i < end
        invariant
            from <= i <= end <= s.len(),
            forall|k: int| from <= k < i ==> !is_quote(#[trigger] s@[k]),
        decreases end - i,
    {
        if s[i] == '"' || s[i] == '\'' {
            assert(is_quote(s@[i as int]));
            return true;
        }
        i += 1;
    }
    false
}

/// Where the construct that begins at `start` ends, given what opens and closes it.
fn construct_end(s: &Vec<char>, start: usize, close: &Vec<char>, opening: usize) -> (end: usize)
    requires
        start + opening <= s.len(),
    ensures
        end == start + through(s@.skip(start as int), close@, opening as int),
        end <= s.len(),
{
    proof {
        lemma_find_in_suffix(s@, close@, start as int, opening as int);
    }
    match find_chars(s, close, start + opening) {
        Some(i) => i + close.len(),
        None => s.len(),
    }
}

/// Whether the text that opens at `start` begins with `p`.
fn opens_with(s: &Vec<char>, start: usize, p: &Vec<char>) -> (b: bool)
    requires
        start <= s.len(),
    ensures
        b == starts_with(s@.skip(start as int), p@),
        b ==> start + p.len() <= s.len(),
{
    assert(start + p.len() <= s.len() ==> s@.skip(start as int).subrange(0, p.len() as int)
        =~= s@.subrange(start as int, start + p.len()));
    occurs(s, p, start)
}

/// Where the construct that begins with the `<` at `start` ends, and whether it is verbatim.
fn construct_at(s: &Vec<char>, start: usize) -> (r: (usize, bool))
    requires
        start < s.len(),
    ensures
        r.0 == start + construct_len(s@.skip(start as int)),
        start < r.0 <= s.len(),
        r.1 == is_verbatim(s@.skip(start as int)),
{
    proof {
        lemma_construct_len(s@.skip(start as int));
    }
    let comment: Vec<char> = vec!['<', '!', '-', '-'];
    assert(comment@ =~= comment_open());
    if opens_with(s, start, &comment) {
        let close: Vec<char> = vec!['-', '-', '>'];
        assert(close@ =~= comment_close());
        return (construct_end(s, start, &close, 4), true);
    }
    let cdata: Vec<char> = vec!['<', '!', '[', 'C', 'D', 'A', 'T', 'A', '['];
    assert(cdata@ =~= cdata_open());
    if opens_with(s, start, &cdata) {
        let close: Vec<char> = vec![']', ']', '>'];
        assert(close@ =~= cdata_close());
        return (construct_end(s, start, &close, 9), true);
    }
    let instruction: Vec<char> = vec!['<', '?'];
    assert(instruction@ =~= instruction_open());
    if opens_with(s, start, &instruction) {
        let close: Vec<char> = vec!['?', '>'];
        assert(close@ =~= instruction_close());
        return (construct_end(s, start, &close, 2), true);
    }
    assert(s@.skip(start as int).drop_first() =~= s@.subrange(start + 1, s.len() as int));
    if let Some(i) = find_close(s, start + 1, s.len()) {
        return (i + 1, false);
    }
    let close: Vec<char> = vec!['>'];
    assert(close@ =~= tag_close());
    (construct_end(s, start, &close, 1), false)
}

/// Appends what the construct from `start` up to `end` is replaced by.
fn push_rewritten(result: &mut String, s: &Vec<char>, start: usize, end: usize, verbatim: bool)
    requires
        start < end <= s.len(),
        s@[start as int] == '<',
        verbatim == is_verbatim(s@.subrange(start as int, end as int)),
    ensures
        final(result)@ == old(result)@ + rewritten(s@.subrange(start as int, end as int)),
{
    let ghost construct = s@.subrange(start as int, end as int);
    let ghost before = result@;
    assert(construct.drop_first() =~= s@.subrange(start + 1, end as int));
    let closes = match find_close(s, start + 1, end) {
        Some(i) => i == end - 1,
        None => false,
    };
    if !verbatim && closes && end - start >= 3 && s[end - 2] == '/' {
        let (lo, hi) = trimmed(s, start + 1, end - 2);
        assert(construct.subrange(1, construct.len() - 2) =~= s@.subrange(start + 1, end - 2));
        if lo < hi && s[lo] != '/' && s[lo] != '!' && s[lo] != '?' && s[hi - 1] != '/' {
            let ghost t = s@.subrange(lo as int, hi as int);
            let name_end: usize = find_space_before(s, lo, hi);
            proof {
                lemma_space_in_part(s@, lo as int, hi as int);
                assert(s@.subrange(lo as int, name_end as int) =~= element_name(t));
                assert forall|i: int| lo <= i < name_end implies s@[i] == #[trigger] element_name(
                    t,
                )[i - lo] by {}
            }
            if !has_quote(s, lo, name_end) {
                assert(names_element(t)) by {
                    assert forall|i: int| 0 <= i < element_name(t).len() implies !is_quote(
                        #[trigger] element_name(t)[i],
                    ) by {
                        assert(s@[lo + i] == element_name(t)[i]);
                    }
                }
                result.push('<');
                push_range(result, s, lo, hi);
                result.push('>');
                result.push('<');
                result.push('/');
                push_range(result, s, lo, name_end);
                result.push('>');
                assert(result@ =~= before + pair(t));
                return ;
            }
            proof {
                let i = choose|i: int| lo <= i < name_end && is_quote(#[trigger] s@[i]);
                assert(is_quote(element_name(t)[i - lo]));
            }
        }
    }
    push_range(result, s, start, end);
}

/// Expands self-closing tags to open/close pairs: `<Tag/>` becomes `<Tag></Tag>`, and
/// `<Tag a="b"/>` becomes `<Tag a="b"></Tag>`.
///
/// Comments, CDATA sections and processing instructions pass through as they are, and so does
/// what is no tag.
pub fn expand_empty_tags(xml: &str) -> (result: String)
    ensures
        result@ == expanded(xml@),
{
    let s = chars_of(xml);
    let mut result = String::new();
    let mut i: usize = 0;
    assert(s@.skip(0) =~= s@);
    assert(result@ + expanded(s@.skip(0)) =~= expanded(s@));
    while i < s.len()
        invariant
            i <= s.len(),
            result@ + expanded(s@.skip(i as int)) == expanded(s@),
        decreases s.len() - i,
    {
        let ghost rest = s@.skip(i as int);
        let ghost before = result@;
        if s[i] != '<' {
            let c = s[i];
            result.push(c);
            i += 1;
            proof {
                assert(rest.drop_first() =~= s@.skip(i as int));
                assert(result@ + expanded(s@.skip(i as int)) =~= before + (seq![c] + expanded(
                    s@.skip(i as int),
                )));
            }
        } else {
            let (end, verbatim) = construct_at(&s, i);
            let ghost construct = rest.take(construct_len(rest));
            proof {
                assert(construct =~= s@.subrange(i as int, end as int));
                lemma_verbatim_of_construct(rest);
            }
            push_rewritten(&mut result, &s, i, end, verbatim);
            i = end;
            proof {
                assert(rest.skip(construct_len(rest)) =~= s@.skip(i as int));
                assert(result@ + expanded(s@.skip(i as int)) =~= before + (rewritten(construct)
                    + expanded(s@.skip(i as int))));
            }
        }
    }
    assert(s@.skip(i as int).len() == 0);
    assert(result@ =~= expanded(s@));
    result
}

/// The construct at the front of a text is verbatim where the text opens with one that is.
proof fn lemma_verbatim_of_construct(s: Seq<char>)
    requires
        s.len() > 0,
    ensures
        is_verbatim(s.take(construct_len(s))) == is_verbatim(s),
{
    lemma_construct_len(s);
    let n = construct_len(s);
    lemma_find_from(s, comment_close(), 4);
    lemma_find_from(s, cdata_close(), 9);
    lemma_find_from(s, instruction_close(), 2);
    lemma_opening_of_prefix(s, comment_open(), n);
    lemma_opening_of_prefix(s, cdata_open(), n);
    lemma_opening_of_prefix(s, instruction_open(), n);
}

/// A prefix of a text that is long enough opens as the text does.
proof fn lemma_opening_of_prefix(s: Seq<char>, p: Seq<char>, n: int)
    requires
        0 <= n <= s.len(),
    ensures
        starts_with(s.take(n), p) ==> starts_with(s, p),
        starts_with(s, p) && p.len() <= n ==> starts_with(s.take(n), p),
{
    if p.len() <= n {
        assert(s.take(n).subrange(0, p.len() as int) =~= s.subrange(0, p.len() as int));
    }
}

/// What the construct at the front of `s` is closed by, and how long its opening is.
spec fn closing(s: Seq<char>) -> (Seq<char>, int) {
    if starts_with(s, comment_open()) {
        (comment_close(), 4)
    } else if starts_with(s, cdata_open()) {
        (cdata_close(), 9)
    } else if starts_with(s, instruction_open()) {
        (instruction_close(), 2)
    } else {
        (tag_close(), 1)
    }
}

/// A tag closes at the same place whatever follows it.
proof fn lemma_close_in_front(a: Seq<char>, b: Seq<char>, quote: Option<char>)
    ensures
        close_at(a, quote) is Some ==> close_at(a + b, quote) == close_at(a, quote),
        close_at(a + b, quote) is Some && close_at(a + b, quote)->0 < a.len() ==> close_at(a, quote)
            == close_at(a + b, quote),
    decreases a.len(),
{
    if a.len() > 0 {
        lemma_close_in_front(a.drop_first(), b, quote_past(quote, a[0]));
        assert((a + b).drop_first() =~= a.drop_first() + b);
    } else {
        lemma_close(a + b, quote);
    }
}

/// A construct is replaced by text that begins with `<` too.
proof fn lemma_rewritten_opens(construct: Seq<char>)
    requires
        construct.len() > 0,
        construct[0] == '<',
    ensures
        rewritten(construct).len() > 0,
        rewritten(construct)[0] == '<',
{
}

/// What does not close as a tag does not after the text behind it is expanded.
proof fn lemma_stays_open(a: Seq<char>, b: Seq<char>, quote: Option<char>)
    requires
        close_at(a + b, quote) is None,
    ensures
        close_at(a + expanded(b), quote) is None,
    decreases a.len() + b.len(),
{
    let c = a + b;
    let d = a + expanded(b);
    if a.len() > 0 {
        assert(c.drop_first() =~= a.drop_first() + b);
        assert(d.drop_first() =~= a.drop_first() + expanded(b));
        if a[0] != '<' {
            lemma_stays_open(a.drop_first(), b, quote_past(quote, a[0]));
        }
    } else {
        assert(c =~= b);
        assert(d =~= expanded(b));
        if b.len() > 0 && b[0] == '<' {
            lemma_construct_len(b);
            lemma_rewritten_opens(b.take(construct_len(b)));
        } else if b.len() > 0 {
            let rest = b.drop_first();
            assert(a + rest =~= rest);
            assert(a + expanded(rest) =~= expanded(rest));
            lemma_stays_open(a, rest, quote_past(quote, b[0]));
            assert(d.drop_first() =~= expanded(rest));
        }
    }
}

/// A closed construct is the same construct after the text behind it is expanded.
proof fn lemma_closed_construct(s: Seq<char>)
    requires
        s.len() > 0,
        s[0] == '<',
        find_from(s, closing(s).0, closing(s).1) is Some,
    ensures
        ({
            let n = construct_len(s);
            construct_len(s.take(n) + expanded(s.skip(n))) == n
        }),
{
    let (close, opening) = closing(s);
    let n = construct_len(s);
    let t = expanded(s.skip(n));
    let u = s.take(n) + t;
    lemma_construct_len(s);
    lemma_find_from(s, close, opening);
    lemma_find_from(u, close, opening);
    lemma_close(s.drop_first(), None);
    let i = find_from(s, close, opening)->0;
    assert(s.subrange(i, i + close.len()) =~= close);
    assert(s[i + close.len() - 1] == s.subrange(i, i + close.len())[close.len() - 1]);
    assert(s[n - 1] == '>');
    assert(s.take(n) =~= u.take(n));
    lemma_same_opening(s, u, comment_open(), n);
    lemma_same_opening(s, u, cdata_open(), n);
    lemma_same_opening(s, u, instruction_open(), n);
    let front = s.take(n).drop_first();
    assert(s.drop_first() =~= front + s.skip(n));
    assert(u.drop_first() =~= front + t);
    lemma_close_in_front(front, s.skip(n), None);
    lemma_close_in_front(front, t, None);
    if is_verbatim(s) || close_at(s.drop_first(), None) is None {
        if !is_verbatim(s) {
            lemma_stays_open(front, s.skip(n), None);
        }
        assert(u.subrange(i, i + close.len()) =~= close);
        assert(occurs_at(u, close, i));
        let j = find_from(u, close, opening)->0;
        assert(s.subrange(j, j + close.len()) =~= u.subrange(j, j + close.len()));
        assert(occurs_at(s, close, j));
    }
}

/// Two texts that agree up to a `>` open alike, where the opening has no `>` in it.
proof fn lemma_same_opening(s: Seq<char>, u: Seq<char>, p: Seq<char>, n: int)
    requires
        1 <= n <= s.len(),
        n <= u.len(),
        s.take(n) == u.take(n),
        s[n - 1] == '>',
        forall|k: int| 0 <= k < p.len() ==> p[k] != '>',
    ensures
        starts_with(s, p) == starts_with(u, p),
{
    assert(s.take(n)[n - 1] == u.take(n)[n - 1]);
    if p.len() <= n {
        assert(s.subrange(0, p.len() as int) =~= s.take(n).subrange(0, p.len() as int));
        assert(u.subrange(0, p.len() as int) =~= u.take(n).subrange(0, p.len() as int));
    } else {
        if starts_with(s, p) {
            assert(s.subrange(0, p.len() as int)[n - 1] == p[n - 1]);
        }
        if starts_with(u, p) {
            assert(u.subrange(0, p.len() as int)[n - 1] == p[n - 1]);
        }
    }
}

/// A tag that does not begin with `<!` or `<?` is one construct.
pub proof fn lemma_tag(tag: Seq<char>, t: Seq<char>)
    requires
        is_tag(tag),
        tag[1] != '!',
        tag[1] != '?',
    ensures
        !is_verbatim(tag),
        expanded(tag + t) == rewritten(tag) + expanded(t),
{
    let u = tag + t;
    let n = tag.len() as int;
    lemma_close(tag.drop_first(), None);
    assert(u[0] == '<' && u[1] == tag[1]);
    if starts_with(u, comment_open()) {
        assert(u.subrange(0, 4)[1] == comment_open()[1]);
    }
    if starts_with(u, cdata_open()) {
        assert(u.subrange(0, 9)[1] == cdata_open()[1]);
    }
    if starts_with(u, instruction_open()) {
        assert(u.subrange(0, 2)[1] == instruction_open()[1]);
    }
    lemma_close_in_front(tag.drop_first(), t, None);
    assert(u.drop_first() =~= tag.drop_first() + t);
    assert(construct_len(u) == n);
    assert(u.take(n) =~= tag);
    assert(u.skip(n) =~= t);
    lemma_verbatim_of_construct(u);
}

/// Whether a text has nothing in it that could open, close or quote.
pub open spec fn is_clear(s: Seq<char>) -> bool {
    forall|i: int| 0 <= i < s.len() ==> #[trigger] s[i] != '<' && s[i] != '>' && !is_quote(s[i])
}

/// Two clear texts are clear together.
pub proof fn lemma_clear_both(a: Seq<char>, b: Seq<char>)
    requires
        is_clear(a),
        is_clear(b),
    ensures
        is_clear(a + b),
{
    assert forall|i: int| 0 <= i < (a + b).len() implies #[trigger] (a + b)[i] != '<' && (a + b)[i]
        != '>' && !is_quote((a + b)[i]) by {
        if i < a.len() {
            assert((a + b)[i] == a[i]);
        } else {
            assert((a + b)[i] == b[i - a.len()]);
        }
    }
}

/// A clear text is clear without its first character.
proof fn lemma_clear_rest(a: Seq<char>)
    requires
        is_clear(a),
        a.len() > 0,
    ensures
        is_clear(a.drop_first()),
{
    let rest = a.drop_first();
    assert forall|i: int| 0 <= i < rest.len() implies #[trigger] rest[i] != '<' && rest[i] != '>'
        && !is_quote(rest[i]) by {
        assert(rest[i] == a[i + 1]);
    }
}

/// A clear text in front moves the place where a tag closes.
pub proof fn lemma_clear_front(a: Seq<char>, b: Seq<char>)
    requires
        is_clear(a),
    ensures
        close_at(a + b, None) == (match close_at(b, None) {
            Some(i) => Some(i + a.len()),
            None => None::<int>,
        }),
    decreases a.len(),
{
    if a.len() == 0 {
        assert(a + b =~= b);
    } else {
        let rest = a.drop_first();
        lemma_clear_rest(a);
        lemma_clear_front(rest, b);
        assert((a + b).drop_first() =~= rest + b);
    }
}

/// In a quote that nothing closes, no tag closes.
proof fn lemma_quote_stays_open(a: Seq<char>, quote: char)
    requires
        is_clear(a),
        is_quote(quote),
    ensures
        close_at(a + seq!['>'], Some(quote)) is None,
    decreases a.len(),
{
    let s = a + seq!['>'];
    if a.len() == 0 {
        assert(s.drop_first().len() == 0);
        assert(quote_past(Some(quote), s[0]) == Some(quote));
        assert(close_at(s.drop_first(), Some(quote)) is None);
    } else {
        let rest = a.drop_first();
        lemma_clear_rest(a);
        lemma_quote_stays_open(rest, quote);
        assert(s.drop_first() =~= rest + seq!['>']);
        assert(a[0] != quote);
    }
}

/// A tag closes without the clear text at its end, too.
proof fn lemma_clear_end(a: Seq<char>, b: Seq<char>, quote: Option<char>)
    requires
        is_clear(b),
        quote is Some ==> is_quote(quote->0),
        close_at(a + b + seq!['>'], quote) == Some((a.len() + b.len()) as int),
    ensures
        close_at(a + seq!['>'], quote) == Some(a.len() as int),
    decreases a.len(),
{
    let s = a + b + seq!['>'];
    let t = a + seq!['>'];
    if a.len() == 0 {
        assert(s =~= b + seq!['>']);
        if quote is Some {
            lemma_quote_stays_open(b, quote->0);
        }
    } else {
        assert(s.drop_first() =~= a.drop_first() + b + seq!['>']);
        assert(t.drop_first() =~= a.drop_first() + seq!['>']);
        assert(s[0] == a[0]);
        assert(s.len() > 1);
        lemma_clear_end(a.drop_first(), b, quote_past(quote, a[0]));
    }
}

/// White space is clear.
proof fn lemma_space_is_clear(s: Seq<char>)
    requires
        forall|i: int| 0 <= i < s.len() ==> is_space(#[trigger] s[i]),
    ensures
        is_clear(s),
{
    assert forall|i: int| 0 <= i < s.len() implies #[trigger] s[i] != '<' && s[i] != '>'
        && !is_quote(s[i]) by {
        assert(is_space(s[i]));
    }
}

/// What stands in a self-closing tag stands in an opening tag as well.
proof fn lemma_opening_tag(tag: Seq<char>)
    requires
        tag.len() >= 3,
        is_tag(tag),
        tag[tag.len() - 2] == '/',
    ensures
        is_tag(seq!['<'] + trim(tag.subrange(1, tag.len() - 2)) + seq!['>']),
{
    let inner = tag.subrange(1, tag.len() - 2);
    let r = lemma_trim(inner);
    let t = trim(inner);
    let left = inner.take(r.0);
    let right = inner.skip(r.1) + seq!['/'];
    lemma_close(tag.drop_first(), None);
    lemma_space_is_clear(left);
    lemma_space_is_clear(inner.skip(r.1));
    lemma_clear_both(inner.skip(r.1), seq!['/']);
    assert(tag.drop_first() =~= left + (t + right + seq!['>']));
    lemma_clear_front(left, t + right + seq!['>']);
    lemma_clear_end(t, right, None);
    assert((seq!['<'] + t + seq!['>']).drop_first() =~= t + seq!['>']);
}

/// Before the first quote of a tag there is no `>`.
proof fn lemma_name_is_clear(a: Seq<char>, b: Seq<char>)
    requires
        close_at(a + b, None) is Some,
        close_at(a + b, None)->0 >= a.len(),
        forall|i: int| 0 <= i < a.len() ==> !is_quote(#[trigger] a[i]),
    ensures
        is_clear(a),
    decreases a.len(),
{
    if a.len() > 0 {
        let rest = a.drop_first();
        assert((a + b).drop_first() =~= rest + b);
        assert((a + b)[0] == a[0]);
        assert(!is_quote(a[0]));
        assert forall|i: int| 0 <= i < rest.len() implies !is_quote(#[trigger] rest[i]) by {
            assert(rest[i] == a[i + 1]);
        }
        lemma_name_is_clear(rest, b);
        lemma_clear_both(seq![a[0]], rest);
        assert(seq![a[0]] + rest =~= a);
    }
}

/// A closing tag stays as it is.
proof fn lemma_closing_tag(name: Seq<char>, t: Seq<char>)
    requires
        name.len() > 0,
        is_clear(name),
    ensures
        expanded(seq!['<', '/'] + name + seq!['>'] + t) == seq!['<', '/'] + name + seq!['>']
            + expanded(t),
{
    let tag = seq!['<', '/'] + name + seq!['>'];
    let text = seq!['/'] + name;
    lemma_clear_both(seq!['/'], name);
    lemma_clear_front(text, seq!['>']);
    assert(tag.drop_first() =~= text + seq!['>']);
    lemma_tag(tag, t);
    let inner = tag.subrange(1, tag.len() - 2);
    assert(inner[0] == '/');
    let r = lemma_trim(inner);
    assert(trim(inner)[0] == inner[0]);
}

/// An open/close pair stays as it is.
proof fn lemma_pair_kept(x: Seq<char>, t: Seq<char>)
    requires
        names_element(x),
        !is_space(x[0]),
        is_tag(seq!['<'] + x + seq!['>']),
    ensures
        expanded(pair(x) + t) == pair(x) + expanded(t),
{
    let name = element_name(x);
    lemma_space_before(x, 0, x.len() as int);
    assert(name.len() > 0);
    let opening = seq!['<'] + x + seq!['>'];
    let ending = seq!['<', '/'] + name + seq!['>'];
    let past = x.skip(name.len() as int) + seq!['>'];
    assert(opening.drop_first() =~= name + past);
    lemma_name_is_clear(name, past);
    assert(opening[1] == x[0]);
    assert(opening[opening.len() - 2] == x.last());
    lemma_closing_tag(name, t);
    lemma_tag(opening, ending + t);
    assert(rewritten(opening) == opening);
    assert(pair(x) + t =~= opening + (ending + t));
    assert(pair(x) + expanded(t) =~= opening + (ending + expanded(t)));
}

/// Expanding an expanded text changes nothing: no tag is left to expand.
pub proof fn expansion_is_idempotent(s: Seq<char>)
    ensures
        expanded(expanded(s)) == expanded(s),
    decreases s.len(),
{
    if s.len() == 0 {
    } else if s[0] != '<' {
        let rest = expanded(s.drop_first());
        expansion_is_idempotent(s.drop_first());
        assert((seq![s[0]] + rest).drop_first() =~= rest);
    } else {
        lemma_construct_len(s);
        let n = construct_len(s);
        let c = s.take(n);
        let t = expanded(s.skip(n));
        let (close, opening) = closing(s);
        lemma_find_from(s, close, opening);
        lemma_verbatim_of_construct(s);
        lemma_close(s.drop_first(), None);
        if find_from(s, close, opening) is Some {
            expansion_is_idempotent(s.skip(n));
            if is_verbatim(c) || self_closing_text(c) is None {
                let u = c + t;
                lemma_closed_construct(s);
                assert(u.take(n) =~= c);
                assert(u.skip(n) =~= t);
                assert(u[0] == '<');
                assert(expanded(u) == u);
            } else {
                let r = lemma_trim(c.subrange(1, c.len() - 2));
                lemma_opening_tag(c);
                lemma_pair_kept(self_closing_text(c)->0, t);
            }
        } else {
            if close_at(s.drop_first(), None) is Some && !is_verbatim(s) {
                let i = close_at(s.drop_first(), None)->0;
                assert(s.subrange(i + 1, i + 2) =~= tag_close());
                assert(occurs_at(s, tag_close(), i + 1));
            }
            assert(n == s.len());
            assert(c =~= s);
            assert(s.skip(n).len() == 0);
            assert(s + t =~= s);
        }
    }
}

/// Text before the first tag is left as it is.
pub proof fn lemma_text_before(a: Seq<char>, rest: Seq<char>)
    requires
        forall|i: int| 0 <= i < a.len() ==> a[i] != '<',
    ensures
        expanded(a + rest) == a + expanded(rest),
    decreases a.len(),
{
    if a.len() == 0 {
        assert(a + rest =~= rest);
        assert(a + expanded(rest) =~= expanded(rest));
    } else {
        lemma_text_before(a.drop_first(), rest);
        assert((a + rest).drop_first() =~= a.drop_first() + rest);
        assert(seq![a[0]] + (a.drop_first() + expanded(rest)) =~= a + expanded(rest));
    }
}

/// A self-closing tag becomes a pair: the text before it and all of its own text are kept, the
/// name of its element closes it, and what follows is expanded in turn.
pub proof fn self_closing_tag_is_expanded(a: Seq<char>, t: Seq<char>, b: Seq<char>)
    requires
        forall|i: int| 0 <= i < a.len() ==> a[i] != '<',
        is_tag(seq!['<'] + t + seq!['/', '>']),
        names_element(t),
        !is_space(t[0]),
        !is_space(t.last()),
    ensures
        expanded(a + seq!['<'] + t + seq!['/', '>'] + b) == a + seq!['<'] + t + seq![
            '>',
            '<',
            '/',
        ] + element_name(t) + seq!['>'] + expanded(b),
{
    let tag = seq!['<'] + t + seq!['/', '>'];
    assert(tag[1] == t[0]);
    lemma_tag(tag, b);
    assert(tag.subrange(1, tag.len() - 2) =~= t);
    lemma_trimmed(t);
    lemma_text_before(a, tag + b);
    assert(a + seq!['<'] + t + seq!['/', '>'] + b =~= a + (tag + b));
    assert(a + (pair(t) + expanded(b)) =~= a + seq!['<'] + t + seq!['>', '<', '/'] + element_name(t)
        + seq!['>'] + expanded(b));
}

/// A self-closing tag that is a name alone becomes the pair of that name.
pub proof fn plain_tag_is_expanded(a: Seq<char>, name: Seq<char>, b: Seq<char>)
    requires
        forall|i: int| 0 <= i < a.len() ==> a[i] != '<',
        name.len() > 0,
        name[0] != '!',
        name[0] != '?',
        is_clear(name),
        forall|i: int| 0 <= i < name.len() ==> !is_space(#[trigger] name[i]) && name[i] != '/',
    ensures
        expanded(a + seq!['<'] + name + seq!['/', '>'] + b) == a + seq!['<'] + name + seq![
            '>',
            '<',
            '/',
        ] + name + seq!['>'] + expanded(b),
{
    lemma_space_before(name, 0, name.len() as int);
    assert(element_name(name) =~= name);
    let tag = seq!['<'] + name + seq!['/', '>'];
    let text = name + seq!['/'];
    lemma_clear_both(name, seq!['/']);
    lemma_clear_front(text, seq!['>']);
    assert(tag.drop_first() =~= text + seq!['>']);
    self_closing_tag_is_expanded(a, name, b);
}

/// Text without a tag in it is left as it is.
pub proof fn expansion_keeps_plain_text(s: Seq<char>)
    requires
        forall|i: int| 0 <= i < s.len() ==> s[i] != '<',
    ensures
        expanded(s) == s,
    decreases s.len(),
{
    if s.len() > 0 {
        expansion_keeps_plain_text(s.drop_first());
        assert(seq![s[0]] + s.drop_first() =~= s);
    }
}

} // verus!
