//! The minifier: it takes the comments out of a stylesheet and the white space
//! that carries no meaning.

use crate::text::{chars_of, is_space, is_whitespace};
use vstd::prelude::*;

verus! {

/// Whether a comment opens at index `i` of `s`: a slash stands there, and an
/// asterisk behind it.
pub open spec fn opens_comment(s: Seq<char>, i: int) -> bool {
    0 <= i && i + 1 < s.len() && s[i] == '/' && s[i + 1] == '*'
}

/// Whether a comment opens anywhere in `s`.
pub open spec fn has_comment(s: Seq<char>) -> bool {
    exists|i: int| opens_comment(s, i)
}

/// Where the comment ends that is read from index `from` on: behind the first
/// asterisk at or after `from` that a slash follows, or at the end of `s`
/// where there is none.
pub open spec fn comment_end(s: Seq<char>, from: int) -> int
    decreases s.len() - from,
{
    if from < 0 || from + 1 >= s.len() {
        s.len() as int
    } else if s[from] == '*' && s[from + 1] == '/' {
        from + 2
    } else {
        comment_end(s, from + 1)
    }
}

/// A comment ends behind the place from which it is read, and within the text.
pub proof fn lemma_comment_end_bounds(s: Seq<char>, from: int)
    requires
        0 <= from <= s.len(),
    ensures
        from <= comment_end(s, from) <= s.len(),
        from < s.len() ==> from < comment_end(s, from),
    decreases s.len() - from,
{
    if from + 1 < s.len() && !(s[from] == '*' && s[from + 1] == '/') {
        lemma_comment_end_bounds(s, from + 1);
    }
}

/// The text of `s` from index `i` on, without its comments. A comment is read
/// from the asterisk that opens it, so that a slash right behind that asterisk
/// ends it; a comment that does not end takes the rest of the text with it.
pub open spec fn uncommented(s: Seq<char>, i: int) -> Seq<char>
    decreases s.len() - i,
{
    if i < 0 || i >= s.len() {
        Seq::empty()
    } else if opens_comment(s, i) {
        proof {
            lemma_comment_end_bounds(s, i + 1);
        }
        uncommented(s, comment_end(s, i + 1))
    } else {
        seq![s[i]] + uncommented(s, i + 1)
    }
}

/// Whether a declaration is open at the end of `t`: a colon stands in `t`,
/// and no semicolon behind the last one.
pub open spec fn in_declaration(t: Seq<char>) -> bool
    decreases t.len(),
{
    if t.len() == 0 {
        false
    } else if t.last() == ':' {
        true
    } else if t.last() == ';' {
        false
    } else {
        in_declaration(t.drop_last())
    }
}

/// Whether `out` ends in a space.
pub open spec fn ends_in_space(out: Seq<char>) -> bool {
    out.len() > 0 && out.last() == ' '
}

/// The text `t` with its white space squeezed. Inside a declaration a run of
/// white space leaves one space, outside it leaves nothing; every other
/// character stays.
pub open spec fn squeezed(t: Seq<char>) -> Seq<char>
    decreases t.len(),
{
    if t.len() == 0 {
        Seq::empty()
    } else {
        let before = squeezed(t.drop_last());
        if !is_space(t.last()) {
            before.push(t.last())
        } else if in_declaration(t.drop_last()) && !ends_in_space(before) {
            before.push(' ')
        } else {
            before
        }
    }
}

/// The minified form of `css`: its text without comments, squeezed.
pub open spec fn minified(css: Seq<char>) -> Seq<char> {
    squeezed(uncommented(css, 0))
}

/// A text in which no comment opens is its own text without comments.
pub proof fn lemma_uncommented_plain(s: Seq<char>, i: int)
    requires
        !has_comment(s),
        0 <= i <= s.len(),
    ensures
        uncommented(s, i) == s.skip(i),
    decreases s.len() - i,
{
    if i < s.len() {
        assert(!opens_comment(s, i));
        lemma_uncommented_plain(s, i + 1);
        assert(seq![s[i]] + s.skip(i + 1) =~= s.skip(i));
    } else {
        assert(s.skip(i) =~= Seq::empty());
    }
}

/// Taking out comments makes a text no longer, and shorter where a comment
/// opens in it.
pub proof fn lemma_uncommented_len(s: Seq<char>, i: int)
    requires
        0 <= i <= s.len(),
    ensures
        uncommented(s, i).len() <= s.len() - i,
        (exists|k: int| i <= k && opens_comment(s, k)) ==> uncommented(s, i).len() < s.len() - i,
    decreases s.len() - i,
{
    if i < s.len() {
        if opens_comment(s, i) {
            lemma_comment_end_bounds(s, i + 1);
            lemma_uncommented_len(s, comment_end(s, i + 1));
        } else {
            lemma_uncommented_len(s, i + 1);
            if exists|k: int| i <= k && opens_comment(s, k) {
                let k = choose|k: int| i <= k && opens_comment(s, k);
                assert(i + 1 <= k && opens_comment(s, k));
            }
        }
    } else {
        assert forall|k: int| i <= k implies !opens_comment(s, k) by {}
    }
}

/// Squeezing makes a text no longer.
pub proof fn lemma_squeezed_len(t: Seq<char>)
    ensures
        squeezed(t).len() <= t.len(),
    decreases t.len(),
{
    if t.len() > 0 {
        lemma_squeezed_len(t.drop_last());
    }
}

/// A squeezed text stays as it is when it is squeezed again, and a
/// declaration is open at its end just when one is open at the end of the
/// text it came from.
pub proof fn lemma_squeezed_twice(t: Seq<char>)
    ensures
        squeezed(squeezed(t)) == squeezed(t),
        in_declaration(squeezed(t)) == in_declaration(t),
    decreases t.len(),
{
    if t.len() > 0 {
        let before = squeezed(t.drop_last());
        lemma_squeezed_twice(t.drop_last());
        if !is_space(t.last()) {
            assert(before.push(t.last()).drop_last() =~= before);
        } else if in_declaration(t.drop_last()) && !ends_in_space(before) {
            assert(before.push(' ').drop_last() =~= before);
        }
    }
}

/// Minifying a minified text once more changes nothing, unless a comment
/// opens in the minified text. That happens only where white space outside a
/// declaration, or a comment, stood between a slash and an asterisk.
pub proof fn lemma_minify_idempotent(css: Seq<char>)
    ensures
        minified(minified(css)) == minified(css) <==> !has_comment(minified(css)),
{
    let once = minified(css);
    if has_comment(once) {
        let k = choose|k: int| opens_comment(once, k);
        assert(0 <= k && opens_comment(once, k));
        lemma_uncommented_len(once, 0);
        lemma_squeezed_len(uncommented(once, 0));
    } else {
        lemma_uncommented_plain(once, 0);
        assert(once.skip(0) =~= once);
        lemma_squeezed_twice(uncommented(css, 0));
    }
}

/// The white space that a squeezed text holds: single spaces, each of them
/// inside a declaration.
pub open spec fn spaced_in_declarations(out: Seq<char>) -> bool {
    forall|k: int|
        0 <= k < out.len() && is_space(#[trigger] out[k]) ==> {
            &&& out[k] == ' '
            &&& in_declaration(out.take(k))
            &&& k + 1 < out.len() ==> !is_space(out[k + 1])
        }
}

/// Squeezing leaves white space only inside declarations, and there one
/// space for each run.
pub proof fn lemma_squeezed_spaces(t: Seq<char>)
    ensures
        spaced_in_declarations(squeezed(t)),
    decreases t.len(),
{
    let out = squeezed(t);
    if t.len() > 0 {
        let before = squeezed(t.drop_last());
        lemma_squeezed_spaces(t.drop_last());
        lemma_squeezed_twice(t.drop_last());
        if out.len() > before.len() {
            assert(out.drop_last() =~= before);
            assert forall|k: int| 0 <= k < out.len() && is_space(#[trigger] out[k]) implies {
                &&& out[k] == ' '
                &&& in_declaration(out.take(k))
                &&& k + 1 < out.len() ==> !is_space(out[k + 1])
            } by {
                if k < before.len() {
                    assert(out[k] == before[k]);
                    assert(out.take(k) =~= before.take(k));
                    if k + 1 < before.len() {
                        assert(out[k + 1] == before[k + 1]);
                    } else {
                        assert(ends_in_space(before));
                    }
                } else {
                    assert(out.take(k) =~= before);
                }
            }
        }
    }
}

/// In a minified text every white space character is a space that stands
/// inside a declaration, and no two of them stand side by side: outside
/// declarations all white space is gone, inside them each run has left one
/// space.
pub proof fn lemma_minified_spaces(css: Seq<char>)
    ensures
        spaced_in_declarations(minified(css)),
{
    lemma_squeezed_spaces(uncommented(css, 0));
}

/// Reads a comment from index `from` on and tells where it ends.
fn skip_comment(text: &[char], from: usize) -> (end: usize)
    requires
        from <= text.len(),
    ensures
        end == comment_end(text@, from as int),
{
    let mut i: usize = from;
    while i < text.len()
        invariant
            from <= i <= text.len(),
            comment_end(text@, from as int) == comment_end(text@, i as int),
        decreases text.len() - i,
    {
        if i + 1 < text.len() && text[i] == '*' && text[i + 1] == '/' {
            return i + 2;
        }
        i += 1;
    }
    i
}

/// Minifies a stylesheet.
pub fn minify(css: &str) -> (out: String)
    ensures
        out@ == minified(css@),
{
    let text = chars_of(css);
    let mut out = String::new();
    let mut in_rule = false;
    let mut spaced = false;
    let mut i: usize = 0;
    let ghost mut plain: Seq<char> = Seq::empty();
    assert(uncommented(text@, 0) =~= plain + uncommented(text@, 0));
    while i < text.len()
        invariant
            i <= text.len(),
            text@ == css@,
            uncommented(text@, 0) == plain + uncommented(text@, i as int),
            out@ == squeezed(plain),
            in_rule == in_declaration(plain),
            spaced == ends_in_space(out@),
        decreases text.len() - i,
    {
        let c = text[i];
        if c == '/' && i + 1 < text.len() && text[i + 1] == '*' {
            proof {
                lemma_comment_end_bounds(text@, i + 1);
            }
            i = skip_comment(text.as_slice(), i + 1);
        } else {
            proof {
                let longer = plain.push(c);
                assert(longer.drop_last() =~= plain);
                assert(plain + (seq![c] + uncommented(text@, i + 1)) =~= longer + uncommented(
                    text@,
                    i + 1,
                ));
                plain = longer;
            }
            if c == ':' {
                in_rule = true;
                out.push(c);
                spaced = false;
            } else if c == ';' {
                in_rule = false;
                out.push(c);
                spaced = false;
            } else if is_whitespace(c) {
                if in_rule && !spaced {
                    out.push(' ');
                    spaced = true;
                }
            } else {
                out.push(c);
                spaced = false;
            }
            i += 1;
        }
    }
    assert(plain + uncommented(text@, i as int) =~= plain);
    out
}

} // verus!
