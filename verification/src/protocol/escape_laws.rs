//! Escaped text can be read back: entity by entity, the ampersand last.

use crate::protocol::xml::{entity, escaped, lemma_escaped_first};
use crate::text::starts_with;
use vstd::prelude::*;

verus! {

/// Text with every occurrence of `p`, from the front on, replaced by `by`.
pub open spec fn replaced(s: Seq<char>, p: Seq<char>, by: Seq<char>) -> Seq<char>
    decreases s.len(),
{
    if s.len() == 0 || p.len() == 0 {
        s
    } else if starts_with(s, p) {
        by + replaced(s.skip(p.len() as int), p, by)
    } else {
        seq![s[0]] + replaced(s.drop_first(), p, by)
    }
}

/// Escaped text with the entities replaced by the characters that they stand for: `&lt;`,
/// `&gt;`, `&quot;` and `&apos;`, and last `&amp;`.
pub open spec fn unescaped(s: Seq<char>) -> Seq<char> {
    let s1 = replaced(s, entity('<'), seq!['<']);
    let s2 = replaced(s1, entity('>'), seq!['>']);
    let s3 = replaced(s2, entity('"'), seq!['"']);
    let s4 = replaced(s3, entity('\''), seq!['\'']);
    replaced(s4, entity('&'), seq!['&'])
}

/// The turn in which a character is put back.
spec fn turn(c: char) -> int {
    if c == '<' {
        0
    } else if c == '>' {
        1
    } else if c == '"' {
        2
    } else if c == '\'' {
        3
    } else if c == '&' {
        4
    } else {
        -1
    }
}

/// What a character is written as before turn `k`.
spec fn written(c: char, k: int) -> Seq<char> {
    if turn(c) >= k {
        entity(c)
    } else {
        seq![c]
    }
}

/// The text before turn `k`.
spec fn stage(s: Seq<char>, k: int) -> Seq<char>
    decreases s.len(),
{
    if s.len() == 0 {
        s
    } else {
        written(s[0], k) + stage(s.drop_first(), k)
    }
}

/// The text begins in the stage before all turns.
proof fn lemma_first_stage(s: Seq<char>)
    ensures
        escaped(s) == stage(s, 0),
    decreases s.len(),
{
    if s.len() > 0 {
        lemma_escaped_first(s);
        lemma_first_stage(s.drop_first());
        assert(written(s[0], 0) == entity(s[0]));
    }
}

/// After all turns the text is as it was.
proof fn lemma_last_stage(s: Seq<char>)
    ensures
        stage(s, 5) == s,
    decreases s.len(),
{
    if s.len() > 0 {
        lemma_last_stage(s.drop_first());
        assert(seq![s[0]] + s.drop_first() =~= s);
    }
}

/// Characters that do not begin the pattern are copied.
proof fn lemma_copied(a: Seq<char>, rest: Seq<char>, p: Seq<char>, by: Seq<char>)
    requires
        p.len() > 0,
        forall|i: int| 0 <= i < a.len() ==> a[i] != p[0],
    ensures
        replaced(a + rest, p, by) == a + replaced(rest, p, by),
    decreases a.len(),
{
    if a.len() == 0 {
        assert(a + rest =~= rest);
        assert(a + replaced(rest, p, by) =~= replaced(rest, p, by));
    } else {
        let u = a + rest;
        if starts_with(u, p) {
            assert(u.subrange(0, p.len() as int)[0] == p[0]);
        }
        lemma_copied(a.drop_first(), rest, p, by);
        assert(u.drop_first() =~= a.drop_first() + rest);
        assert(seq![a[0]] + (a.drop_first() + replaced(rest, p, by)) =~= a + replaced(
            rest,
            p,
            by,
        ));
    }
}

/// Two entities differ before either ends.
proof fn lemma_entities_differ(x: char, y: char, rest: Seq<char>)
    requires
        turn(x) >= 0,
        turn(y) >= 0,
        x != y,
    ensures
        !starts_with(entity(y) + rest, entity(x)),
{
    let p = entity(x);
    let e = entity(y);
    let u = e + rest;
    if starts_with(u, p) {
        let front = u.subrange(0, p.len() as int);
        assert(front[1] == p[1] && front[2] == p[2]);
        assert(u[1] == e[1] && u[2] == e[2]);
    }
}

/// Each turn puts one character back.
proof fn lemma_turn(s: Seq<char>, x: char)
    requires
        turn(x) >= 0,
    ensures
        replaced(stage(s, turn(x)), entity(x), seq![x]) == stage(s, turn(x) + 1),
    decreases s.len(),
{
    let k = turn(x);
    let p = entity(x);
    if s.len() > 0 {
        let c = s[0];
        let rest = stage(s.drop_first(), k);
        let code = written(c, k);
        let u = code + rest;
        lemma_turn(s.drop_first(), x);
        assert(p[0] == '&');
        if c == x {
            assert(u.subrange(0, p.len() as int) =~= p);
            assert(u.skip(p.len() as int) =~= rest);
        } else if turn(c) > k {
            lemma_entities_differ(x, c, rest);
            assert(u.drop_first() =~= code.drop_first() + rest);
            lemma_copied(code.drop_first(), rest, p, seq![x]);
            assert(seq![code[0]] + (code.drop_first() + replaced(rest, p, seq![x])) =~= code
                + replaced(rest, p, seq![x]));
        } else {
            assert(c != '&');
            lemma_copied(code, rest, p, seq![x]);
        }
    }
}

/// Unescaping escaped text gives the text back.
pub proof fn escaping_reads_back(s: Seq<char>)
    ensures
        unescaped(escaped(s)) == s,
{
    lemma_first_stage(s);
    lemma_turn(s, '<');
    lemma_turn(s, '>');
    lemma_turn(s, '"');
    lemma_turn(s, '\'');
    lemma_turn(s, '&');
    lemma_last_stage(s);
}

/// The five characters that mean something in XML are written as their entities, and every other
/// character as itself.
pub proof fn five_characters_have_entities(c: char)
    ensures
        escaped(seq!['&']) == "&amp;"@,
        escaped(seq!['<']) == "&lt;"@,
        escaped(seq!['>']) == "&gt;"@,
        escaped(seq!['"']) == "&quot;"@,
        escaped(seq!['\'']) == "&apos;"@,
        c != '&' && c != '<' && c != '>' && c != '"' && c != '\'' ==> escaped(seq![c]) == seq![c],
{
    reveal_strlit("&amp;");
    reveal_strlit("&lt;");
    reveal_strlit("&gt;");
    reveal_strlit("&quot;");
    reveal_strlit("&apos;");
    lemma_one_escaped('&');
    lemma_one_escaped('<');
    lemma_one_escaped('>');
    lemma_one_escaped('"');
    lemma_one_escaped('\'');
    lemma_one_escaped(c);
}

/// One character is written as its entity.
proof fn lemma_one_escaped(c: char)
    ensures
        escaped(seq![c]) == entity(c),
{
    reveal_with_fuel(escaped, 2);
    assert(seq![c].drop_last() =~= Seq::<char>::empty());
    assert(Seq::<char>::empty() + entity(c) =~= entity(c));
}

} // verus!
