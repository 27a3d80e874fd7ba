//! What holds of text, read character by character.

use crate::order::{text_le, text_lt};
use crate::text::{
    ascii_lower, find, is_space, lemma_find_from, lemma_position, lemma_split_nonempty, lowercase,
    nonempty, occurs_at, position, spaced, split, starts_with, trim, trim_left, trim_right,
    trim_start, words,
};
use vstd::prelude::*;

verus! {

/// A text begins with another where the two agree on every character of the other.
pub proof fn prefix_is_read_off_the_front(s: Seq<char>, p: Seq<char>)
    ensures
        starts_with(s, p) <==> p.len() <= s.len() && forall|i: int|
            0 <= i < p.len() ==> #[trigger] s[i] == p[i],
        starts_with(p + s, p),
{
    if starts_with(s, p) {
        assert forall|i: int| 0 <= i < p.len() implies #[trigger] s[i] == p[i] by {
            assert(s.subrange(0, p.len() as int)[i] == s[i]);
        }
    }
    if p.len() <= s.len() && forall|i: int| 0 <= i < p.len() ==> #[trigger] s[i] == p[i] {
        assert(s.subrange(0, p.len() as int) =~= p);
    }
    assert((p + s).subrange(0, p.len() as int) =~= p);
}

/// A text stands in another where the two agree, character by character.
pub proof fn text_stands_where_it_agrees(s: Seq<char>, p: Seq<char>, at: int)
    requires
        0 <= at,
    ensures
        occurs_at(s, p, at) <==> at + p.len() <= s.len() && forall|i: int|
            0 <= i < p.len() ==> s[at + i] == #[trigger] p[i],
{
    if occurs_at(s, p, at) {
        assert forall|i: int| 0 <= i < p.len() implies s[at + i] == #[trigger] p[i] by {
            assert(s.subrange(at, at + p.len())[i] == s[at + i]);
        }
    }
    if at + p.len() <= s.len() && forall|i: int| 0 <= i < p.len() ==> s[at + i] == #[trigger] p[i] {
        assert(s.subrange(at, at + p.len()) =~= p);
    }
}

/// What is found is the first place where the text stands.
pub proof fn first_place_is_found(s: Seq<char>, p: Seq<char>)
    ensures
        match find(s, p) {
            Some(at) => 0 <= at && occurs_at(s, p, at) && forall|j: int|
                0 <= j < at ==> !#[trigger] occurs_at(s, p, j),
            None => forall|j: int| 0 <= j ==> !#[trigger] occurs_at(s, p, j),
        },
{
    lemma_find_from(s, p, 0);
}

/// A character is found behind a text that does not have it.
pub proof fn character_is_found_behind(a: Seq<char>, c: char, b: Seq<char>)
    requires
        forall|i: int| 0 <= i < a.len() ==> a[i] != c,
    ensures
        position(a + seq![c] + b, c, 0) == a.len(),
        position(a, c, 0) == a.len(),
{
    let s = a + seq![c] + b;
    lemma_position(s, c, 0);
    lemma_position(a, c, 0);
    let p = position(s, c, 0);
    if p < a.len() {
        assert(s[p] == a[p]);
    } else if p > a.len() {
        assert(s[a.len() as int] == c);
    }
}

/// Text without the separator is one piece.
pub proof fn text_without_separator_is_one_piece(s: Seq<char>, sep: char)
    requires
        forall|i: int| 0 <= i < s.len() ==> s[i] != sep,
    ensures
        split(s, sep) == seq![s],
    decreases s.len(),
{
    if s.len() == 0 {
        assert(s =~= Seq::empty());
    } else {
        text_without_separator_is_one_piece(s.drop_last(), sep);
        assert(s.drop_last().push(s.last()) =~= s);
        assert(split(s, sep) =~= seq![s]);
    }
}

/// A separator parts a text into the pieces before it and the pieces behind it.
pub proof fn separator_parts_text(a: Seq<char>, sep: char, b: Seq<char>)
    ensures
        split(a + seq![sep] + b, sep) == split(a, sep) + split(b, sep),
    decreases b.len(),
{
    let all = a + seq![sep] + b;
    if b.len() == 0 {
        assert(all.drop_last() =~= a);
        assert(all.last() == sep);
        assert(split(all, sep) =~= split(a, sep) + split(b, sep));
    } else {
        assert(all.drop_last() =~= a + seq![sep] + b.drop_last());
        assert(all.last() == b.last());
        separator_parts_text(a, sep, b.drop_last());
        lemma_split_nonempty(b.drop_last(), sep);
        assert(split(all, sep) =~= split(a, sep) + split(b, sep));
    }
}

/// There is at least one piece between white space.
proof fn lemma_spaced_nonempty(s: Seq<char>)
    ensures
        spaced(s).len() >= 1,
    decreases s.len(),
{
    if s.len() > 0 {
        lemma_spaced_nonempty(s.drop_last());
    }
}

/// White space parts a text into what stands before it and what stands behind it.
proof fn lemma_space_parts(a: Seq<char>, c: char, b: Seq<char>)
    requires
        is_space(c),
    ensures
        spaced(a + seq![c] + b) == spaced(a) + spaced(b),
    decreases b.len(),
{
    let all = a + seq![c] + b;
    if b.len() == 0 {
        assert(all.drop_last() =~= a);
        assert(all.last() == c);
        assert(spaced(all) =~= spaced(a) + spaced(b));
    } else {
        assert(all.drop_last() =~= a + seq![c] + b.drop_last());
        assert(all.last() == b.last());
        lemma_space_parts(a, c, b.drop_last());
        lemma_spaced_nonempty(b.drop_last());
        assert(spaced(all) =~= spaced(a) + spaced(b));
    }
}

/// The pieces with text in them, of two runs of pieces.
proof fn lemma_nonempty_runs(a: Seq<Seq<char>>, b: Seq<Seq<char>>)
    ensures
        nonempty(a + b) == nonempty(a) + nonempty(b),
    decreases b.len(),
{
    if b.len() == 0 {
        assert(a + b =~= a);
        assert(nonempty(a) + nonempty(b) =~= nonempty(a));
    } else {
        lemma_nonempty_runs(a, b.drop_last());
        assert((a + b).drop_last() =~= a + b.drop_last());
        assert(nonempty(a + b) =~= nonempty(a) + nonempty(b));
    }
}

/// White space parts a text into the words before it and the words behind it.
pub proof fn space_parts_words(a: Seq<char>, c: char, b: Seq<char>)
    requires
        is_space(c),
    ensures
        words(a + seq![c] + b) == words(a) + words(b),
{
    lemma_space_parts(a, c, b);
    lemma_nonempty_runs(spaced(a), spaced(b));
}

/// Text without white space is one piece.
proof fn lemma_unspaced(s: Seq<char>)
    requires
        forall|i: int| 0 <= i < s.len() ==> !is_space(#[trigger] s[i]),
    ensures
        spaced(s) == seq![s],
    decreases s.len(),
{
    if s.len() == 0 {
        assert(s =~= Seq::empty());
    } else {
        assert forall|i: int| 0 <= i < s.len() - 1 implies !is_space(
            #[trigger] s.drop_last()[i],
        ) by {
            assert(!is_space(s[i]));
        }
        lemma_unspaced(s.drop_last());
        assert(!is_space(s[s.len() - 1]));
        assert(s.drop_last().push(s.last()) =~= s);
        assert(spaced(s) =~= seq![s]);
    }
}

/// Text without white space is one word, and no text is no word.
pub proof fn text_without_space_is_one_word(s: Seq<char>)
    requires
        forall|i: int| 0 <= i < s.len() ==> !is_space(#[trigger] s[i]),
    ensures
        s.len() > 0 ==> words(s) == seq![s],
        s.len() == 0 ==> words(s).len() == 0,
{
    lemma_unspaced(s);
    reveal_with_fuel(nonempty, 2);
    assert(seq![s].drop_last() =~= Seq::<Seq<char>>::empty());
    if s.len() > 0 {
        assert(words(s) =~= seq![s]);
    }
}

/// Where a piece between white space stands: at the front, or behind white space. The last one
/// ends the text.
proof fn lemma_piece_stands(s: Seq<char>, k: int) -> (at: int)
    requires
        0 <= k < spaced(s).len(),
    ensures
        occurs_at(s, spaced(s)[k], at),
        at == 0 || is_space(s[at - 1]),
        k == spaced(s).len() - 1 ==> at + spaced(s)[k].len() == s.len(),
    decreases s.len(),
{
    if s.len() == 0 {
        assert(s.subrange(0, 0) =~= spaced(s)[k]);
        0
    } else {
        let init = s.drop_last();
        let pieces = spaced(init);
        lemma_spaced_nonempty(init);
        if is_space(s.last()) && k == pieces.len() {
            assert(s.subrange(s.len() as int, s.len() as int) =~= spaced(s)[k]);
            s.len() as int
        } else {
            let at = lemma_piece_stands(init, k);
            let piece = pieces[k];
            assert(init.subrange(at, at + piece.len()) =~= piece);
            if k < pieces.len() - 1 || is_space(s.last()) {
                assert(spaced(s)[k] == piece);
                assert(s.subrange(at, at + piece.len()) =~= piece);
            } else {
                assert(spaced(s)[k] == piece.push(s.last()));
                assert(s.subrange(at, at + piece.len() + 1) =~= piece.push(s.last()));
            }
            if at > 0 {
                assert(init[at - 1] == s[at - 1]);
            }
            at
        }
    }
}

/// A piece with text in it is one of the pieces.
proof fn lemma_nonempty_member(pieces: Seq<Seq<char>>, k: int) -> (j: int)
    requires
        0 <= k < nonempty(pieces).len(),
    ensures
        0 <= j < pieces.len(),
        pieces[j] == nonempty(pieces)[k],
    decreases pieces.len(),
{
    let init = nonempty(pieces.drop_last());
    if k < init.len() {
        let j = lemma_nonempty_member(pieces.drop_last(), k);
        j
    } else {
        pieces.len() - 1
    }
}

/// Every word stands in the text, at the front or behind white space.
pub proof fn word_stands_behind_space(s: Seq<char>, k: int)
    requires
        0 <= k < words(s).len(),
    ensures
        exists|at: int|
            #[trigger] occurs_at(s, words(s)[k], at) && (at == 0 || is_space(s[at - 1])),
{
    let j = lemma_nonempty_member(spaced(s), k);
    let at = lemma_piece_stands(s, j);
    assert(occurs_at(s, words(s)[k], at));
}

/// White space around a text is trimmed off, and nothing else.
pub proof fn space_around_is_trimmed(left: Seq<char>, core: Seq<char>, right: Seq<char>)
    requires
        forall|i: int| 0 <= i < left.len() ==> is_space(#[trigger] left[i]),
        forall|i: int| 0 <= i < right.len() ==> is_space(#[trigger] right[i]),
        core.len() > 0 ==> !is_space(core[0]) && !is_space(core.last()),
    ensures
        trim(left + core + right) == core,
{
    lemma_trim_front(left, core + right);
    assert(left + core + right =~= left + (core + right));
    if core.len() > 0 {
        assert((core + right)[0] == core[0]);
        assert(trim_left(core + right) == core + right);
        lemma_trim_back(core, right);
    } else {
        assert(core + right =~= right);
        lemma_trim_front(right, Seq::empty());
        assert(right + Seq::<char>::empty() =~= right);
        assert(trim_left(right) =~= Seq::empty());
        assert(core =~= Seq::empty());
    }
}

/// White space at the front goes.
proof fn lemma_trim_front(left: Seq<char>, rest: Seq<char>)
    requires
        forall|i: int| 0 <= i < left.len() ==> is_space(#[trigger] left[i]),
    ensures
        trim_left(left + rest) == trim_left(rest),
    decreases left.len(),
{
    if left.len() == 0 {
        assert(left + rest =~= rest);
    } else {
        assert(is_space(left[0]));
        assert forall|i: int| 0 <= i < left.drop_first().len() implies is_space(
            #[trigger] left.drop_first()[i],
        ) by {
            assert(is_space(left[i + 1]));
        }
        lemma_trim_front(left.drop_first(), rest);
        assert((left + rest).drop_first() =~= left.drop_first() + rest);
        assert((left + rest)[0] == left[0]);
    }
}

/// White space at the end goes.
proof fn lemma_trim_back(core: Seq<char>, right: Seq<char>)
    requires
        forall|i: int| 0 <= i < right.len() ==> is_space(#[trigger] right[i]),
        core.len() > 0,
        !is_space(core.last()),
    ensures
        trim_right(core + right) == core,
    decreases right.len(),
{
    if right.len() == 0 {
        assert(core + right =~= core);
    } else {
        assert(is_space(right[right.len() - 1]));
        assert forall|i: int| 0 <= i < right.drop_last().len() implies is_space(
            #[trigger] right.drop_last()[i],
        ) by {
            assert(is_space(right[i]));
        }
        lemma_trim_back(core, right.drop_last());
        assert((core + right).drop_last() =~= core + right.drop_last());
        assert((core + right).last() == right.last());
    }
}

/// Leading characters of one kind are cut off up to the first other one.
pub proof fn leading_characters_are_cut_off(n: nat, c: char, rest: Seq<char>)
    requires
        rest.len() > 0 ==> rest[0] != c,
    ensures
        trim_start(Seq::new(n, |i: int| c) + rest, c) == rest,
    decreases n,
{
    let front = Seq::new(n, |i: int| c);
    if n == 0 {
        assert(front + rest =~= rest);
    } else {
        let less = Seq::new((n - 1) as nat, |i: int| c);
        assert((front + rest).drop_first() =~= less + rest);
        assert((front + rest)[0] == c);
        leading_characters_are_cut_off((n - 1) as nat, c, rest);
    }
}

/// In lower case, an ASCII text has each capital from `A` to `Z` thirty-two places further on,
/// and every other character as it was.
pub proof fn capitals_become_small(s: Seq<char>)
    requires
        forall|i: int| 0 <= i < s.len() ==> #[trigger] s[i] <= '\u{7f}',
    ensures
        lowercase(s).len() == s.len(),
        lowercase(s) == ascii_lower(s),
        forall|i: int|
            0 <= i < s.len() ==> {
                let c = #[trigger] lowercase(s)[i];
                if 'A' <= s[i] <= 'Z' {
                    c as int == s[i] as int + 32
                } else {
                    c == s[i]
                }
            },
{
}

/// A text is below another where it is a part of its front, or has the smaller character at the
/// first place where they differ.
pub proof fn first_difference_decides(a: Seq<char>, b: Seq<char>, at: int)
    requires
        0 <= at <= a.len(),
        at <= b.len(),
        forall|i: int| 0 <= i < at ==> #[trigger] a[i] == b[i],
        at < a.len() && at < b.len() ==> a[at] != b[at],
        at == a.len() || at == b.len() || a[at] != b[at],
    ensures
        text_lt(a, b) <==> at < b.len() && (at == a.len() || a[at] < b[at]),
        text_le(a, b) <==> at == a.len() || (at < b.len() && a[at] < b[at]),
    decreases at,
{
    if at > 0 {
        assert(a[0] == b[0]);
        let x = a.drop_first();
        let y = b.drop_first();
        assert forall|i: int| 0 <= i < at - 1 implies #[trigger] x[i] == y[i] by {
            assert(a[i + 1] == b[i + 1]);
        }
        first_difference_decides(x, y, at - 1);
        if a == b {
            assert(x =~= y);
        }
        if x == y {
            assert(a =~= seq![a[0]] + x);
            assert(b =~= seq![b[0]] + y);
        }
    } else if a.len() == 0 && b.len() == 0 {
        assert(a =~= b);
    }
}

} // verus!
