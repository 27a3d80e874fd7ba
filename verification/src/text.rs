//! Text as sequences of characters: searching, splitting, trimming and comparing.
//!
//! Every function here states its result over the character sequences that
//! strings denote; the specification functions are what the contracts of the
//! other modules speak of.

use vstd::prelude::*;

verus! {

/// `String::push` appends one character.
pub assume_specification[ String::push ](s: &mut String, c: char)
    ensures
        final(s)@ == old(s)@.push(c),
;

/// Whether the character is white space: the characters with the Unicode property `White_Space`.
pub open spec fn is_space(c: char) -> bool {
    ||| '\u{9}' <= c <= '\u{d}'
    ||| c == ' '
    ||| c == '\u{85}'
    ||| c == '\u{a0}'
    ||| c == '\u{1680}'
    ||| '\u{2000}' <= c <= '\u{200a}'
    ||| c == '\u{2028}'
    ||| c == '\u{2029}'
    ||| c == '\u{202f}'
    ||| c == '\u{205f}'
    ||| c == '\u{3000}'
}

/// `char::is_whitespace` tells whether a character has the Unicode property `White_Space`.
pub assume_specification[ char::is_whitespace ](c: char) -> (b: bool)
    ensures
        b == is_space(c),
;

/// A character in lower case, where it is an ASCII capital.
pub open spec fn ascii_lower_char(c: char) -> char {
    if 'A' <= c <= 'Z' {
        (c as int + 32) as char
    } else {
        c
    }
}

/// Text with its ASCII capitals in lower case.
pub open spec fn ascii_lower(s: Seq<char>) -> Seq<char> {
    s.map_values(|c: char| ascii_lower_char(c))
}

/// Whether all characters are ASCII.
pub open spec fn all_ascii(s: Seq<char>) -> bool {
    forall|i: int| 0 <= i < s.len() ==> #[trigger] s[i] <= '\u{7f}'
}

/// The lower-case form of a text that is not all ASCII, by the Unicode character database.
pub uninterp spec fn unicode_lower(s: Seq<char>) -> Seq<char>;

/// The lower-case form of a text.
pub open spec fn lowercase(s: Seq<char>) -> Seq<char> {
    if all_ascii(s) {
        ascii_lower(s)
    } else {
        unicode_lower(s)
    }
}

/// `str::to_lowercase` depends on the text alone. On ASCII text it puts the capitals in lower
/// case; what it does on other text is left unsaid.
pub assume_specification[ str::to_lowercase ](s: &str) -> (r: String)
    ensures
        r@ == (if all_ascii(s@) {
            ascii_lower(s@)
        } else {
            unicode_lower(s@)
        }),
;

/// The character sequences that a sequence of strings denotes.
pub open spec fn texts(strings: Seq<String>) -> Seq<Seq<char>> {
    strings.map_values(|s: String| s@)
}

/// Whether the pattern `p` stands in `s` at index `i`.
pub open spec fn occurs_at(s: Seq<char>, p: Seq<char>, i: int) -> bool {
    &&& 0 <= i
    &&& i + p.len() <= s.len()
    &&& s.subrange(i, i + p.len()) =~= p
}

/// Whether `s` begins with `p`.
pub open spec fn starts_with(s: Seq<char>, p: Seq<char>) -> bool {
    occurs_at(s, p, 0)
}

/// The index of the first occurrence of `p` in `s` at or after `from`.
pub open spec fn find_from(s: Seq<char>, p: Seq<char>, from: int) -> Option<int>
    decreases s.len() - from,
{
    if from < 0 || from + p.len() > s.len() {
        None
    } else if occurs_at(s, p, from) {
        Some(from)
    } else {
        find_from(s, p, from + 1)
    }
}

/// The index of the first occurrence of `p` in `s`.
pub open spec fn find(s: Seq<char>, p: Seq<char>) -> Option<int> {
    find_from(s, p, 0)
}

/// Whether `p` occurs somewhere in `s`.
pub open spec fn contains(s: Seq<char>, p: Seq<char>) -> bool {
    find(s, p) is Some
}

/// The index of the first `c` in `s` at or after `from`, or the length of `s`.
pub open spec fn position(s: Seq<char>, c: char, from: int) -> int
    decreases s.len() - from,
{
    if from < 0 || from >= s.len() {
        s.len() as int
    } else if s[from] == c {
        from
    } else {
        position(s, c, from + 1)
    }
}

/// The pieces of `s` between the separators `sep`; one more than there are separators.
pub open spec fn split(s: Seq<char>, sep: char) -> Seq<Seq<char>>
    decreases s.len(),
{
    if s.len() == 0 {
        seq![Seq::empty()]
    } else {
        let pieces = split(s.drop_last(), sep);
        if s.last() == sep {
            pieces.push(Seq::empty())
        } else {
            pieces.drop_last().push(pieces.last().push(s.last()))
        }
    }
}

/// The pieces of `s` between white space; one more than there are white-space characters.
pub open spec fn spaced(s: Seq<char>) -> Seq<Seq<char>>
    decreases s.len(),
{
    if s.len() == 0 {
        seq![Seq::empty()]
    } else {
        let pieces = spaced(s.drop_last());
        if is_space(s.last()) {
            pieces.push(Seq::empty())
        } else {
            pieces.drop_last().push(pieces.last().push(s.last()))
        }
    }
}

/// The pieces that are not empty.
pub open spec fn nonempty(pieces: Seq<Seq<char>>) -> Seq<Seq<char>>
    decreases pieces.len(),
{
    if pieces.len() == 0 {
        pieces
    } else if pieces.last().len() == 0 {
        nonempty(pieces.drop_last())
    } else {
        nonempty(pieces.drop_last()).push(pieces.last())
    }
}

/// The words of `s`: what stands between any amount of white space.
pub open spec fn words(s: Seq<char>) -> Seq<Seq<char>> {
    nonempty(spaced(s))
}

/// `s` without its leading `c` characters.
pub open spec fn trim_start(s: Seq<char>, c: char) -> Seq<char>
    decreases s.len(),
{
    if s.len() > 0 && s[0] == c {
        trim_start(s.drop_first(), c)
    } else {
        s
    }
}

/// `s` without its leading white space.
pub open spec fn trim_left(s: Seq<char>) -> Seq<char>
    decreases s.len(),
{
    if s.len() > 0 && is_space(s[0]) {
        trim_left(s.drop_first())
    } else {
        s
    }
}

/// `s` without its trailing white space.
pub open spec fn trim_right(s: Seq<char>) -> Seq<char>
    decreases s.len(),
{
    if s.len() > 0 && is_space(s.last()) {
        trim_right(s.drop_last())
    } else {
        s
    }
}

/// `s` without the white space around it.
pub open spec fn trim(s: Seq<char>) -> Seq<char> {
    trim_right(trim_left(s))
}

/// The index of the first white space from `from` on and before `end`, else `end`.
pub open spec fn space_before(s: Seq<char>, from: int, end: int) -> int
    decreases end - from,
{
    if from >= end {
        end
    } else if is_space(s[from]) {
        from
    } else {
        space_before(s, from + 1, end)
    }
}

/// What is found is an occurrence, and there is none before it.
pub proof fn lemma_find_from(s: Seq<char>, p: Seq<char>, from: int)
    requires
        0 <= from,
    ensures
        match find_from(s, p, from) {
            Some(i) => from <= i && occurs_at(s, p, i) && forall|j: int|
                from <= j < i ==> !#[trigger] occurs_at(s, p, j),
            None => forall|j: int| from <= j ==> !#[trigger] occurs_at(s, p, j),
        },
    decreases s.len() - from,
{
    if from + p.len() > s.len() {
    } else if occurs_at(s, p, from) {
    } else {
        lemma_find_from(s, p, from + 1);
    }
}

/// Searching in a suffix is searching from the place where the suffix begins.
pub proof fn lemma_find_in_suffix(s: Seq<char>, p: Seq<char>, start: int, from: int)
    requires
        0 <= start <= s.len(),
        0 <= from,
    ensures
        find_from(s, p, start + from) == (match find_from(s.skip(start), p, from) {
            Some(i) => Some(start + i),
            None => None,
        }),
    decreases s.len() - start - from,
{
    let t = s.skip(start);
    if start + from + p.len() <= s.len() {
        assert(t.subrange(from, from + p.len()) =~= s.subrange(
            start + from,
            start + from + p.len(),
        ));
        if !occurs_at(t, p, from) {
            lemma_find_in_suffix(s, p, start, from + 1);
        }
    }
}

/// The position of a character holds it, and none before does.
pub proof fn lemma_position(s: Seq<char>, c: char, from: int)
    requires
        0 <= from <= s.len(),
    ensures
        from <= position(s, c, from) <= s.len(),
        position(s, c, from) < s.len() ==> s[position(s, c, from)] == c,
        forall|j: int| from <= j < position(s, c, from) ==> s[j] != c,
    decreases s.len() - from,
{
    if from < s.len() && s[from] != c {
        lemma_position(s, c, from + 1);
    }
}

/// White space is looked for between the two bounds, and there is none before what is found.
pub proof fn lemma_space_before(s: Seq<char>, from: int, end: int)
    requires
        0 <= from <= end <= s.len(),
    ensures
        from <= space_before(s, from, end) <= end,
        forall|i: int| from <= i < space_before(s, from, end) ==> !is_space(#[trigger] s[i]),
        space_before(s, from, end) < end ==> is_space(s[space_before(s, from, end)]),
    decreases end - from,
{
    if from < end && !is_space(s[from]) {
        lemma_space_before(s, from + 1, end);
    }
}

/// White space is found in a part of a text where it is found in the text.
pub proof fn lemma_space_in_part(s: Seq<char>, from: int, end: int)
    requires
        0 <= from <= end <= s.len(),
    ensures
        space_before(s, from, end) == from + space_before(
            s.subrange(from, end),
            0,
            end - from,
        ),
{
    let t = s.subrange(from, end);
    lemma_space_before(s, from, end);
    lemma_space_before(t, 0, end - from);
    let i = space_before(s, from, end);
    let j = space_before(t, 0, end - from);
    if from + j < i {
        assert(s[from + j] == t[j]);
    }
    if i < from + j {
        assert(t[i - from] == s[i]);
    }
}

/// Trimmed text neither begins nor ends with white space, and stands in the text.
pub proof fn lemma_trim(s: Seq<char>) -> (r: (int, int))
    ensures
        0 <= r.0 <= r.1 <= s.len(),
        trim(s) == s.subrange(r.0, r.1),
        trim(s).len() > 0 ==> !is_space(trim(s)[0]) && !is_space(trim(s).last()),
        s.len() > 0 && !is_space(s[0]) ==> r.0 == 0 && trim(s).len() > 0,
        forall|i: int| 0 <= i < r.0 || r.1 <= i < s.len() ==> is_space(#[trigger] s[i]),
{
    let lo = lemma_trim_left(s);
    let left = trim_left(s);
    let n = lemma_trim_right(left);
    assert(trim(s) =~= s.subrange(lo, lo + n));
    assert forall|i: int| lo + n <= i < s.len() implies is_space(#[trigger] s[i]) by {
        assert(left[i - lo] == s[i]);
    }
    (lo, lo + n)
}

/// What is cut off the front of a text.
proof fn lemma_trim_left(s: Seq<char>) -> (lo: int)
    ensures
        0 <= lo <= s.len(),
        trim_left(s) == s.skip(lo),
        trim_left(s).len() > 0 ==> !is_space(trim_left(s)[0]),
        s.len() > 0 && !is_space(s[0]) ==> lo == 0,
        forall|i: int| 0 <= i < lo ==> is_space(#[trigger] s[i]),
    decreases s.len(),
{
    if s.len() > 0 && is_space(s[0]) {
        let lo = lemma_trim_left(s.drop_first());
        assert forall|i: int| 0 <= i < lo + 1 implies is_space(#[trigger] s[i]) by {
            if i > 0 {
                assert(s.drop_first()[i - 1] == s[i]);
            }
        }
        assert(s.drop_first().skip(lo) =~= s.skip(lo + 1));
        lo + 1
    } else {
        assert(s.skip(0) =~= s);
        0
    }
}

/// What is left of a text whose end is cut off.
proof fn lemma_trim_right(s: Seq<char>) -> (n: int)
    ensures
        0 <= n <= s.len(),
        trim_right(s) == s.take(n),
        n > 0 ==> !is_space(s[n - 1]),
        s.len() > 0 && !is_space(s[0]) ==> n > 0,
        forall|i: int| n <= i < s.len() ==> is_space(#[trigger] s[i]),
    decreases s.len(),
{
    if s.len() > 0 && is_space(s.last()) {
        let n = lemma_trim_right(s.drop_last());
        assert forall|i: int| n <= i < s.len() implies is_space(#[trigger] s[i]) by {
            if i < s.len() - 1 {
                assert(s.drop_last()[i] == s[i]);
            }
        }
        assert(s.drop_last().take(n) =~= s.take(n));
        n
    } else {
        assert(s.take(s.len() as int) =~= s);
        s.len() as int
    }
}

/// Text that neither begins nor ends with white space is trimmed already.
pub proof fn lemma_trimmed(s: Seq<char>)
    requires
        s.len() > 0 ==> !is_space(s[0]) && !is_space(s.last()),
    ensures
        trim(s) == s,
{
}

/// There is at least one piece.
pub proof fn lemma_split_nonempty(s: Seq<char>, sep: char)
    ensures
        split(s, sep).len() >= 1,
    decreases s.len(),
{
    if s.len() > 0 {
        lemma_split_nonempty(s.drop_last(), sep);
    }
}

/// The characters of a string, as a vector.
pub fn chars_of(s: &str) -> (v: Vec<char>)
    ensures
        v@ == s@,
{
    let mut v: Vec<char> = Vec::new();
    for c in it: s.chars()
        invariant
            it.seq() == s@,
            v@ == s@.take(it.index() as int),
    {
        v.push(c);
    }
    assert(v@ =~= s@);
    v
}

/// The string made of the characters of `v` from `from` up to `to`.
pub fn string_of(v: &Vec<char>, from: usize, to: usize) -> (s: String)
    requires
        from <= to <= v.len(),
    ensures
        s@ == v@.subrange(from as int, to as int),
{
    let mut s = String::new();
    let mut i: usize = from;
    while i < to
        invariant
            from <= i <= to <= v.len(),
            s@ == v@.subrange(from as int, i as int),
        decreases to - i,
    {
        s.push(v[i]);
        i += 1;
        assert(s@ =~= v@.subrange(from as int, i as int));
    }
    s
}

/// Whether the pattern stands in `s` at index `at`.
pub fn occurs(s: &Vec<char>, p: &Vec<char>, at: usize) -> (b: bool)
    requires
        at <= s.len(),
    ensures
        b == occurs_at(s@, p@, at as int),
{
    if p.len() > s.len() - at {
        return false;
    }
    let mut i: usize = 0;
    while i < p.len()
        invariant
            at + p.len() <= s.len(),
            i <= p.len(),
            forall|j: int| 0 <= j < i ==> s@[at + j] == p@[j],
        decreases p.len() - i,
    {
        if s[at + i] != p[i] {
            assert(s@.subrange(at as int, at + p.len())[i as int] != p@[i as int]);
            return false;
        }
        i += 1;
    }
    assert(s@.subrange(at as int, at + p.len()) =~= p@);
    true
}

/// Finds the first occurrence of the pattern in `s` at or after `from`.
pub fn find_chars(s: &Vec<char>, p: &Vec<char>, from: usize) -> (r: Option<usize>)
    requires
        from <= s.len(),
    ensures
        match r {
            Some(i) => find_from(s@, p@, from as int) == Some(i as int) && i + p.len() <= s.len(),
            None => find_from(s@, p@, from as int) is None,
        },
{
    let mut i: usize = from;
    while i <= s.len() && p.len() <= s.len() - i
        invariant
            from <= i <= s.len() + 1,
            s.len() <= usize::MAX,
            i > s.len() ==> find_from(s@, p@, from as int) is None,
            find_from(s@, p@, from as int) == find_from(s@, p@, i as int),
        decreases s.len() + 1 - i,
    {
        if occurs(s, p, i) {
            return Some(i);
        }
        if i == s.len() {
            return None;
        }
        i += 1;
    }
    None
}

/// Finds the first `c` in `s` at or after `from`; the length of `s` where there is none.
pub fn position_of(s: &Vec<char>, c: char, from: usize) -> (r: usize)
    requires
        from <= s.len(),
    ensures
        r == position(s@, c, from as int),
        from <= r <= s.len(),
        r < s.len() ==> s@[r as int] == c,
{
    let mut i: usize = from;
    while i < s.len() && s[i] != c
        invariant
            from <= i <= s.len(),
            position(s@, c, from as int) == position(s@, c, i as int),
        decreases s.len() - i,
    {
        i += 1;
    }
    i
}

/// Whether the two strings hold the same characters.
pub fn text_eq(a: &str, b: &str) -> (r: bool)
    ensures
        r == (a@ == b@),
{
    let x = a.as_bytes();
    let y = b.as_bytes();
    proof {
        vstd::utf8::encode_utf8_decode_utf8(a@);
        vstd::utf8::encode_utf8_decode_utf8(b@);
    }
    if x.len() != y.len() {
        return false;
    }
    let mut i: usize = 0;
    while i < x.len()
        invariant
            x.len() == y.len(),
            i <= x.len(),
            x@ == vstd::utf8::encode_utf8(a@),
            y@ == vstd::utf8::encode_utf8(b@),
            forall|j: int| 0 <= j < i ==> x@[j] == y@[j],
        decreases x.len() - i,
    {
        if x[i] != y[i] {
            return false;
        }
        i += 1;
    }
    assert(x@ =~= y@);
    true
}

/// Whether `s` begins with `p`.
pub fn has_prefix(s: &str, p: &str) -> (r: bool)
    ensures
        r == starts_with(s@, p@),
{
    let sc = chars_of(s);
    let pc = chars_of(p);
    occurs(&sc, &pc, 0)
}

/// Whether `p` occurs in `s`.
pub fn has_infix(s: &str, p: &str) -> (r: bool)
    ensures
        r == contains(s@, p@),
{
    let sc = chars_of(s);
    let pc = chars_of(p);
    find_chars(&sc, &pc, 0).is_some()
}

/// Splits `s` at every `sep`.
pub fn split_text(s: &str, sep: char) -> (r: Vec<String>)
    ensures
        texts(r@) == split(s@, sep),
{
    let chars = chars_of(s);
    let mut pieces: Vec<String> = Vec::new();
    let mut piece = String::new();
    let mut i: usize = 0;
    assert(texts(pieces@).push(piece@) =~= split(chars@.take(0), sep));
    while i < chars.len()
        invariant
            i <= chars.len(),
            texts(pieces@).push(piece@) == split(chars@.take(i as int), sep),
        decreases chars.len() - i,
    {
        let c = chars[i];
        let ghost before = chars@.take(i as int);
        let ghost after = chars@.take(i as int + 1);
        assert(after.drop_last() =~= before);
        assert(after.last() == c);
        let ghost done = texts(pieces@).push(piece@);
        assert(done.drop_last() =~= texts(pieces@));
        if c == sep {
            pieces.push(piece);
            piece = String::new();
            assert(texts(pieces@) =~= done);
            assert(piece@ =~= Seq::<char>::empty());
        } else {
            piece.push(c);
        }
        i += 1;
    }
    let ghost done = texts(pieces@).push(piece@);
    pieces.push(piece);
    assert(texts(pieces@) =~= done);
    assert(chars@.take(chars@.len() as int) =~= s@);
    pieces
}

/// The words of `s`.
pub fn split_words(s: &str) -> (r: Vec<String>)
    ensures
        texts(r@) == words(s@),
{
    let chars = chars_of(s);
    let mut done: Vec<String> = Vec::new();
    let mut word = String::new();
    let mut i: usize = 0;
    proof {
        assert(spaced(chars@.take(0)).drop_last() =~= Seq::empty());
        assert(texts(done@) =~= nonempty(spaced(chars@.take(0)).drop_last()));
        assert(word@ =~= Seq::empty());
    }
    while i < chars.len()
        invariant
            i <= chars.len(),
            spaced(chars@.take(i as int)).len() > 0,
            word@ == spaced(chars@.take(i as int)).last(),
            texts(done@) == nonempty(spaced(chars@.take(i as int)).drop_last()),
        decreases chars.len() - i,
    {
        let c = chars[i];
        let ghost before = spaced(chars@.take(i as int));
        let ghost after = spaced(chars@.take(i as int + 1));
        let ghost had = texts(done@);
        proof {
            assert(chars@.take(i as int + 1).drop_last() =~= chars@.take(i as int));
            assert(chars@.take(i as int + 1).last() == c);
        }
        if c.is_whitespace() {
            assert(after.drop_last() =~= before);
            if !word.as_str().is_empty() {
                done.push(word);
                assert(texts(done@) =~= had.push(word@));
                word = String::new();
                assert(word@ =~= Seq::empty());
            } else {
                assert(word@ =~= Seq::empty());
            }
        } else {
            word.push(c);
            assert(after.drop_last() =~= before.drop_last());
        }
        i += 1;
    }
    assert(chars@.take(chars@.len() as int) =~= s@);
    let ghost had = texts(done@);
    if !word.as_str().is_empty() {
        done.push(word);
        assert(texts(done@) =~= had.push(word@));
    }
    done
}

/// The number of leading `c` characters, which is where the trimmed text begins.
pub fn trimmed_from(s: &Vec<char>, c: char) -> (r: usize)
    ensures
        r <= s.len(),
        s@.skip(r as int) == trim_start(s@, c),
{
    let mut i: usize = 0;
    assert(s@.skip(0) =~= s@);
    while i < s.len() && s[i] == c
        invariant
            i <= s.len(),
            trim_start(s@.skip(i as int), c) == trim_start(s@, c),
        decreases s.len() - i,
    {
        assert(s@.skip(i as int).drop_first() =~= s@.skip(i as int + 1));
        i += 1;
    }
    i
}

/// Trims white space off the part of `s` from `from` up to `to`: the bounds of what is left.
pub fn trimmed(s: &Vec<char>, from: usize, to: usize) -> (r: (usize, usize))
    requires
        from <= to <= s.len(),
    ensures
        from <= r.0 <= r.1 <= to,
        s@.subrange(r.0 as int, r.1 as int) == trim(s@.subrange(from as int, to as int)),
{
    let mut lo: usize = from;
    while lo < to && s[lo].is_whitespace()
        invariant
            from <= lo <= to <= s.len(),
            trim_left(s@.subrange(lo as int, to as int)) == trim_left(
                s@.subrange(from as int, to as int),
            ),
        decreases to - lo,
    {
        assert(s@.subrange(lo as int, to as int).drop_first() =~= s@.subrange(
            lo + 1,
            to as int,
        ));
        lo += 1;
    }
    let mut hi: usize = to;
    while hi > lo && s[hi - 1].is_whitespace()
        invariant
            lo <= hi <= to <= s.len(),
            trim_right(s@.subrange(lo as int, hi as int)) == trim_right(
                s@.subrange(lo as int, to as int),
            ),
        decreases hi,
    {
        assert(s@.subrange(lo as int, hi as int).drop_last() =~= s@.subrange(
            lo as int,
            hi - 1,
        ));
        hi -= 1;
    }
    (lo, hi)
}

/// Appends the characters of `v` from `from` up to `to`.
pub fn push_range(s: &mut String, v: &Vec<char>, from: usize, to: usize)
    requires
        from <= to <= v.len(),
    ensures
        final(s)@ == old(s)@ + v@.subrange(from as int, to as int),
{
    let ghost start = s@;
    let mut i: usize = from;
    while i < to
        invariant
            from <= i <= to <= v.len(),
            s@ == start + v@.subrange(from as int, i as int),
        decreases to - i,
    {
        s.push(v[i]);
        i += 1;
        assert(s@ =~= start + v@.subrange(from as int, i as int));
    }
}

/// A character in lower case, where it is an ASCII capital.
fn lower_char(c: char) -> (r: char)
    ensures
        r == ascii_lower_char(c),
{
    if 'A' <= c && c <= 'Z' {
        ((c as u32 + 32) as u8) as char
    } else {
        c
    }
}

/// Text with its ASCII capitals in lower case.
pub fn to_ascii_lower(s: &str) -> (r: String)
    ensures
        r@ == ascii_lower(s@),
{
    let chars = chars_of(s);
    let mut r = String::new();
    let mut i: usize = 0;
    assert(r@ =~= ascii_lower(chars@.take(0)));
    while i < chars.len()
        invariant
            i <= chars.len(),
            r@ == ascii_lower(chars@.take(i as int)),
        decreases chars.len() - i,
    {
        r.push(lower_char(chars[i]));
        i += 1;
        assert(r@ =~= ascii_lower(chars@.take(i as int)));
    }
    assert(chars@.take(chars@.len() as int) =~= s@);
    r
}

/// Whether two texts are the same but for the case of ASCII letters.
pub fn same_ignoring_case(a: &str, b: &str) -> (r: bool)
    ensures
        r == (ascii_lower(a@) == ascii_lower(b@)),
{
    text_eq(to_ascii_lower(a).as_str(), to_ascii_lower(b).as_str())
}

/// What an optional text denotes.
pub open spec fn optional_text(t: Option<String>) -> Option<Seq<char>> {
    match t {
        Some(s) => Some(s@),
        None => None,
    }
}

/// A copy of an optional text.
pub fn copy_text(t: &Option<String>) -> (r: Option<String>)
    ensures
        optional_text(r) == optional_text(*t),
{
    match t {
        Some(s) => Some(s.clone()),
        None => None,
    }
}

/// Finds the first white space from `from` on and before `end`.
pub fn find_space_before(s: &Vec<char>, from: usize, end: usize) -> (r: usize)
    requires
        from <= end <= s.len(),
    ensures
        r == space_before(s@, from as int, end as int),
        from <= r <= end,
{
    let mut i: usize = from;
    while i < end && !s[i].is_whitespace()
        invariant
            from <= i <= end <= s.len(),
            space_before(s@, from as int, end as int) == space_before(s@, i as int, end as int),
        decreases end - i,
    {
        i += 1;
    }
    i
}

} // verus!
