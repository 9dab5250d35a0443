//! Cutting text into pieces: at a separator, and at white space.

use crate::text::{is_space, is_whitespace, texts};
use vstd::prelude::*;

verus! {

/// The pieces that `s` falls into when it is cut at every `sep`. The
/// separators themselves are dropped; a text with n separators has n + 1
/// pieces, some of which may be empty.
pub open spec fn pieces(s: Seq<char>, sep: char) -> Seq<Seq<char>>
    decreases s.len(),
{
    if s.len() == 0 {
        seq![Seq::empty()]
    } else {
        let before = pieces(s.drop_last(), sep);
        if s.last() == sep {
            before.push(Seq::empty())
        } else {
            before.update(before.len() - 1, before.last().push(s.last()))
        }
    }
}

/// The words of `s`: its longest stretches without white space, in order.
pub open spec fn words(s: Seq<char>) -> Seq<Seq<char>>
    decreases s.len(),
{
    if s.len() == 0 {
        Seq::empty()
    } else {
        let before = words(s.drop_last());
        if is_space(s.last()) {
            before
        } else if s.len() >= 2 && !is_space(s[s.len() - 2]) {
            before.update(before.len() - 1, before.last().push(s.last()))
        } else {
            before.push(seq![s.last()])
        }
    }
}

/// A text always has a first piece.
pub proof fn lemma_pieces_nonempty(s: Seq<char>, sep: char)
    ensures
        pieces(s, sep).len() >= 1,
    decreases s.len(),
{
    if s.len() > 0 {
        lemma_pieces_nonempty(s.drop_last(), sep);
    }
}

/// No piece holds the separator.
pub proof fn lemma_pieces_hold_no_separator(s: Seq<char>, sep: char, i: int)
    requires
        0 <= i < pieces(s, sep).len(),
    ensures
        !pieces(s, sep)[i].contains(sep),
    decreases s.len(),
{
    if s.len() > 0 {
        let before = pieces(s.drop_last(), sep);
        lemma_pieces_nonempty(s.drop_last(), sep);
        if i < before.len() {
            lemma_pieces_hold_no_separator(s.drop_last(), sep, i);
        }
        if s.last() != sep && i == before.len() - 1 {
            let grown = before.last().push(s.last());
            assert forall|k: int| 0 <= k < grown.len() implies grown[k] != sep by {
                if k < before.last().len() {
                    assert(before.last().contains(grown[k]));
                }
            }
        }
    }
}

/// Cuts `text` at every `sep`.
pub fn split(text: &[char], sep: char) -> (parts: Vec<Vec<char>>)
    ensures
        texts(parts@) == pieces(text@, sep),
{
    let mut parts: Vec<Vec<char>> = Vec::new();
    let mut current: Vec<char> = Vec::new();
    let mut i: usize = 0;
    assert(text@.take(0) =~= Seq::empty());
    assert(texts(parts@).push(current@) =~= seq![Seq::empty()]);
    while i < text.len()
        invariant
            i <= text.len(),
            texts(parts@).push(current@) == pieces(text@.take(i as int), sep),
        decreases text.len() - i,
    {
        let c = text[i];
        proof {
            let now = text@.take(i + 1);
            assert(now.drop_last() == text@.take(i as int));
            assert(now.last() == c);
        }
        let ghost before = texts(parts@).push(current@);
        if c == sep {
            parts.push(current);
            current = Vec::new();
            assert(texts(parts@).push(current@) =~= before.push(Seq::empty()));
        } else {
            current.push(c);
            assert(texts(parts@).push(current@) =~= before.update(
                before.len() - 1,
                before.last().push(c),
            ));
        }
        i += 1;
    }
    assert(text@.take(i as int) == text@);
    let ghost before = texts(parts@).push(current@);
    parts.push(current);
    assert(texts(parts@) =~= before);
    parts
}

/// Cuts `text` into its words.
pub fn split_whitespace(text: &[char]) -> (parts: Vec<Vec<char>>)
    ensures
        texts(parts@) == words(text@),
{
    let mut parts: Vec<Vec<char>> = Vec::new();
    let mut current: Vec<char> = Vec::new();
    let mut in_word = false;
    let mut i: usize = 0;
    assert(text@.take(0) =~= Seq::empty());
    assert(texts(parts@) =~= Seq::empty());
    while i < text.len()
        invariant
            i <= text.len(),
            in_word == (i > 0 && !is_space(text@[i - 1])),
            in_word ==> texts(parts@).push(current@) == words(text@.take(i as int)),
            !in_word ==> texts(parts@) == words(text@.take(i as int)),
        decreases text.len() - i,
    {
        let c = text[i];
        proof {
            let now = text@.take(i + 1);
            assert(now.drop_last() == text@.take(i as int));
            assert(now.last() == c);
            if i > 0 {
                assert(now[now.len() - 2] == text@[i - 1]);
            }
        }
        let ghost before = words(text@.take(i as int));
        if is_whitespace(c) {
            if in_word {
                parts.push(current);
                current = Vec::new();
                assert(texts(parts@) =~= before);
            }
            in_word = false;
        } else {
            if in_word {
                current.push(c);
                assert(texts(parts@).push(current@) =~= before.update(
                    before.len() - 1,
                    before.last().push(c),
                ));
            } else {
                current = Vec::new();
                current.push(c);
                assert(current@ =~= seq![c]);
            }
            in_word = true;
        }
        i += 1;
    }
    assert(text@.take(i as int) == text@);
    if in_word {
        let ghost before = texts(parts@).push(current@);
        parts.push(current);
        assert(texts(parts@) =~= before);
    }
    parts
}

} // verus!
