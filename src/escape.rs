//! Escaping of text for Typst markup.
use vstd::prelude::*;

use crate::text::push_char;

verus! {

/// The escape sequence written for one character: a double quote and the two
/// square brackets get a backslash, every other character stands for itself.
pub open spec fn escape_char(c: char) -> Seq<char> {
    if c == '"' {
        seq!['\\', '"']
    } else if c == '[' {
        seq!['\\', '[']
    } else if c == ']' {
        seq!['\\', ']']
    } else {
        seq![c]
    }
}

/// The escaped form of a whole text: each character replaced by its escape.
pub open spec fn escaped(s: Seq<char>) -> Seq<char>
    decreases s.len(),
{
    if s.len() == 0 {
        seq![]
    } else {
        escaped(s.drop_last()) + escape_char(s.last())
    }
}

/// Text without a double quote or a square bracket is left as it is.
pub proof fn lemma_escape_keeps_plain_text(s: Seq<char>)
    requires
        forall|i: int| 0 <= i < s.len() ==> #[trigger] s[i] != '"' && s[i] != '[' && s[i] != ']',
    ensures
        escaped(s) == s,
    decreases s.len(),
{
    if s.len() > 0 {
        lemma_escape_keeps_plain_text(s.drop_last());
        assert(s.drop_last().push(s.last()) =~= s);
    }
}

/// Escaping a text is escaping its parts one after the other.
pub proof fn lemma_escape_concat(a: Seq<char>, b: Seq<char>)
    ensures
        escaped(a + b) == escaped(a) + escaped(b),
    decreases b.len(),
{
    if b.len() == 0 {
        assert(a + b =~= a);
        assert(escaped(a) + escaped(b) =~= escaped(a));
    } else {
        lemma_escape_concat(a, b.drop_last());
        assert((a + b).drop_last() =~= a + b.drop_last());
        assert(escaped(a) + (escaped(b.drop_last()) + escape_char(b.last())) =~= (escaped(a)
            + escaped(b.drop_last())) + escape_char(b.last()));
    }
}

/// Whether `c` is one of the characters that escaping marks.
pub open spec fn is_reserved(c: char) -> bool {
    c == '"' || c == '[' || c == ']'
}

/// Reads escaped text back, from the left: a backslash followed by a
/// reserved character stands for that character, and every other character
/// stands for itself.
pub open spec fn unescaped_typst(s: Seq<char>) -> Seq<char>
    decreases s.len(),
{
    if s.len() == 0 {
        seq![]
    } else if s.len() >= 2 && s[0] == '\\' && is_reserved(s[1]) {
        seq![s[1]] + unescaped_typst(s.subrange(2, s.len() as int))
    } else {
        seq![s[0]] + unescaped_typst(s.drop_first())
    }
}

proof fn lemma_escaped_front(s: Seq<char>)
    requires
        s.len() > 0,
    ensures
        escaped(s) == escape_char(s[0]) + escaped(s.drop_first()),
{
    lemma_escape_concat(seq![s[0]], s.drop_first());
    assert(seq![s[0]] + s.drop_first() =~= s);
    assert(seq![s[0]].drop_last() =~= Seq::<char>::empty());
    assert(seq![s[0]].last() == s[0]);
    assert(escaped(Seq::<char>::empty()) == Seq::<char>::empty());
    assert(Seq::<char>::empty() + escape_char(s[0]) =~= escape_char(s[0]));
    assert(escaped(seq![s[0]]) =~= escape_char(s[0]));
}

proof fn lemma_escaped_starts_plain(s: Seq<char>)
    requires
        s.len() > 0,
    ensures
        escaped(s).len() > 0,
        !is_reserved(escaped(s)[0]),
{
    lemma_escaped_front(s);
}

/// Reading escaped text back gives the text: every character other than a
/// double quote or a square bracket is kept, in order, and each of those
/// three is written as a backslash and the character.
pub proof fn lemma_escape_reads_back(s: Seq<char>)
    ensures
        unescaped_typst(escaped(s)) == s,
    decreases s.len(),
{
    if s.len() > 0 {
        let c = s[0];
        let rest = s.drop_first();
        lemma_escaped_front(s);
        lemma_escape_reads_back(rest);
        let e = escaped(s);
        let er = escaped(rest);
        if is_reserved(c) {
            assert(e.subrange(2, e.len() as int) =~= er);
        } else {
            if c == '\\' && er.len() > 0 {
                lemma_escaped_starts_plain(rest);
            }
            if er.len() == 0 {
                assert(rest.len() == 0) by {
                    if rest.len() > 0 {
                        lemma_escaped_starts_plain(rest);
                    }
                }
            }
            assert(e.drop_first() =~= er);
        }
        assert(seq![c] + rest =~= s);
    }
}

/// Writes `s` to `w`, replacing `"`, `[` and `]` by their escape sequences.
pub fn escape_typst(w: &mut String, s: &str)
    ensures
        final(w)@ == old(w)@ + escaped(s@),
{
    let ghost start = w@;
    for c in it: s.chars()
        invariant
            it.seq() == s@,
            w@ == start + escaped(s@.take(it.index() as int)),
    {
        let ghost before = w@;
        proof {
            reveal_strlit("\\\"");
            reveal_strlit("\\[");
            reveal_strlit("\\]");
        }
        if c == '"' {
            w.append("\\\"");
        } else if c == '[' {
            w.append("\\[");
        } else if c == ']' {
            w.append("\\]");
        } else {
            push_char(w, c);
        }
        assert(w@ == before + escape_char(c));
        assert(c == s@[it.index() as int]);
        assert(s@.take(it.index() + 1).drop_last() == s@.take(it.index() as int));
    }
    assert(s@.take(s@.len() as int) == s@);
}

} // verus!
