//! The source text of a rule table, made from a list of styles that holds one
//! name and its declarations on each line.

use crate::minify::opens_comment;
use crate::number::{decimal, push_decimal};
use crate::text::{chars_of, is_space, is_whitespace, push_chars, texts};
use crate::token::{pieces, split};
use vstd::prelude::*;

verus! {

/// How many white space characters stand at the start of `s`.
pub open spec fn leading_space(s: Seq<char>) -> nat
    decreases s.len(),
{
    if s.len() > 0 && is_space(s[0]) {
        1 + leading_space(s.skip(1))
    } else {
        0
    }
}

/// How many white space characters stand at the end of `s`.
pub open spec fn trailing_space(s: Seq<char>) -> nat
    decreases s.len(),
{
    if s.len() > 0 && is_space(s.last()) {
        1 + trailing_space(s.drop_last())
    } else {
        0
    }
}

/// `s` without the white space at its start and at its end.
pub open spec fn trimmed(s: Seq<char>) -> Seq<char> {
    let rest = s.skip(leading_space(s) as int);
    rest.take(rest.len() - trailing_space(rest))
}

/// The index of the first `c` in `s`, or the length of `s` where it holds
/// none.
pub open spec fn position(s: Seq<char>, c: char) -> nat
    decreases s.len(),
{
    if s.len() == 0 || s[0] == c {
        0
    } else {
        1 + position(s.skip(1), c)
    }
}

/// The index at or after `i` at which the first comment opens in `s`, or the
/// length of `s` where none does.
pub open spec fn comment_start(s: Seq<char>, i: int) -> int
    decreases s.len() - i,
{
    if i < 0 || i >= s.len() {
        s.len() as int
    } else if opens_comment(s, i) {
        i
    } else {
        comment_start(s, i + 1)
    }
}

/// Whether `pattern` stands in `s` at index `i`.
pub open spec fn stands_at(s: Seq<char>, i: int, pattern: Seq<char>) -> bool {
    0 <= i && i + pattern.len() <= s.len() && s.subrange(i, i + pattern.len()) == pattern
}

/// The text of `s` from index `i` on, with `to` in the place of every
/// `pattern`; the places are taken from left to right and do not overlap.
pub open spec fn replaced(s: Seq<char>, i: int, pattern: Seq<char>, to: Seq<char>) -> Seq<char>
    recommends
        pattern.len() > 0,
    decreases s.len() - i,
{
    if i < 0 || i >= s.len() || pattern.len() == 0 {
        Seq::empty()
    } else if stands_at(s, i, pattern) {
        to + replaced(s, i + pattern.len(), pattern, to)
    } else {
        seq![s[i]] + replaced(s, i + 1, pattern, to)
    }
}

/// The table entry for one line of the list. A line holds a name, a space,
/// and the declarations, behind which a comment may stand; a line without a
/// space gives no entry.
pub open spec fn entry(line: Seq<char>) -> Seq<char> {
    let cut = position(line, ' ') as int;
    if cut < line.len() {
        let value = line.skip(cut + 1);
        "(\""@ + trimmed(line.take(cut)) + "\", \""@ + trimmed(
            value.take(comment_start(value, 0)),
        ) + "\"),\n"@
    } else {
        Seq::empty()
    }
}

/// The entries for `lines`, one after the other.
pub open spec fn entries(lines: Seq<Seq<char>>) -> Seq<char>
    decreases lines.len(),
{
    if lines.len() == 0 {
        Seq::empty()
    } else {
        entries(lines.drop_last()) + entry(lines.last())
    }
}

/// The source text of the table for the list `input`: a declaration of an
/// array with one place for each line of the trimmed list, and the entries.
/// Where a name or a declaration holds the word `NUM`, the number of lines
/// stands there too.
pub open spec fn table_text(input: Seq<char>) -> Seq<char> {
    let lines = pieces(trimmed(input), '\n');
    let draft = "let styles: [(&str, String); NUM] = ["@ + entries(lines) + "];"@;
    replaced(draft, 0, "NUM"@, decimal(lines.len()))
}

/// The part of `text` from `from` up to `to`.
fn slice_of(text: &[char], from: usize, to: usize) -> (part: Vec<char>)
    requires
        from <= to <= text.len(),
    ensures
        part@ == text@.subrange(from as int, to as int),
{
    let mut part: Vec<char> = Vec::new();
    let mut i: usize = from;
    while i < to
        invariant
            from <= i <= to <= text.len(),
            part@ == text@.subrange(from as int, i as int),
        decreases to - i,
    {
        part.push(text[i]);
        assert(part@ =~= text@.subrange(from as int, i + 1));
        i += 1;
    }
    part
}

/// Takes the white space off the two ends of `text`.
pub fn trim(text: &[char]) -> (out: Vec<char>)
    ensures
        out@ == trimmed(text@),
{
    let mut start: usize = 0;
    assert(text@.skip(0) =~= text@);
    while start < text.len() && is_whitespace(text[start])
        invariant
            start <= text.len(),
            leading_space(text@) == start + leading_space(text@.skip(start as int)),
        decreases text.len() - start,
    {
        assert(text@.skip(start as int).skip(1) =~= text@.skip(start + 1));
        start += 1;
    }
    let ghost rest = text@.skip(start as int);
    assert(leading_space(text@) == start);
    let mut end: usize = text.len();
    assert(rest.take(rest.len() as int) =~= rest);
    while end > start && is_whitespace(text[end - 1])
        invariant
            start <= end <= text.len(),
            rest == text@.skip(start as int),
            trailing_space(rest) == (text.len() - end) + trailing_space(rest.take(end - start)),
        decreases end - start,
    {
        assert(rest.take(end - start).last() == text@[end - 1]);
        assert(rest.take(end - start).drop_last() =~= rest.take(end - start - 1));
        end -= 1;
    }
    proof {
        if end > start {
            assert(rest.take(end - start).last() == text@[end - 1]);
        }
        assert(trailing_space(rest) == text.len() - end);
        assert(rest.take(rest.len() - trailing_space(rest)) =~= text@.subrange(
            start as int,
            end as int,
        ));
    }
    slice_of(text, start, end)
}

/// Finds the first `c` in `text`.
fn find_char(text: &[char], c: char) -> (at: usize)
    ensures
        at == position(text@, c),
{
    let mut i: usize = 0;
    assert(text@.skip(0) =~= text@);
    while i < text.len() && text[i] != c
        invariant
            i <= text.len(),
            position(text@, c) == i + position(text@.skip(i as int), c),
        decreases text.len() - i,
    {
        assert(text@.skip(i as int).skip(1) =~= text@.skip(i + 1));
        i += 1;
    }
    i
}

/// Finds where the first comment opens in `text`.
fn find_comment(text: &[char]) -> (at: usize)
    ensures
        at == comment_start(text@, 0),
        at <= text.len(),
{
    let mut i: usize = 0;
    while i < text.len()
        invariant
            i <= text.len(),
            comment_start(text@, 0) == comment_start(text@, i as int),
        decreases text.len() - i,
    {
        if text[i] == '/' && i + 1 < text.len() && text[i + 1] == '*' {
            return i;
        }
        i += 1;
    }
    i
}

/// Writes the entry for `line` to `out`.
fn push_entry(out: &mut String, line: &[char])
    ensures
        final(out)@ == old(out)@ + entry(line@),
{
    let cut = find_char(line, ' ');
    if cut < line.len() {
        let name = slice_of(line, 0, cut);
        let value = slice_of(line, cut + 1, line.len());
        let end = find_comment(value.as_slice());
        let plain = slice_of(value.as_slice(), 0, end);
        let name = trim(name.as_slice());
        let plain = trim(plain.as_slice());
        out.append("(\"");
        push_chars(out, name.as_slice());
        out.append("\", \"");
        push_chars(out, plain.as_slice());
        out.append("\"),\n");
        proof {
            assert(line@.subrange(0, cut as int) =~= line@.take(cut as int));
            assert(line@.subrange(cut + 1, line.len() as int) =~= line@.skip(cut + 1));
            assert(value@.subrange(0, end as int) =~= value@.take(end as int));
            assert(out@ =~= old(out)@ + entry(line@));
        }
    } else {
        assert(out@ =~= old(out)@ + entry(line@));
    }
}

/// Tells whether `pattern` stands in `text` at index `i`.
fn found_at(text: &[char], i: usize, pattern: &[char]) -> (found: bool)
    ensures
        found == stands_at(text@, i as int, pattern@),
{
    if pattern.len() > text.len() || i > text.len() - pattern.len() {
        return false;
    }
    let ghost window = text@.subrange(i as int, i + pattern.len());
    let mut k: usize = 0;
    while k < pattern.len()
        invariant
            k <= pattern.len(),
            i + pattern.len() <= text.len(),
            window == text@.subrange(i as int, i + pattern.len()),
            window.take(k as int) == pattern@.take(k as int),
        decreases pattern.len() - k,
    {
        if text[i + k] != pattern[k] {
            assert(window[k as int] != pattern@[k as int]);
            return false;
        }
        assert(window.take(k + 1) =~= window.take(k as int).push(window[k as int]));
        assert(pattern@.take(k + 1) =~= pattern@.take(k as int).push(pattern@[k as int]));
        k += 1;
    }
    assert(window.take(k as int) =~= window);
    assert(pattern@.take(k as int) =~= pattern@);
    true
}

/// Puts `to` in the place of every `pattern` in `text`.
fn replace(text: &[char], pattern: &[char], to: &[char]) -> (out: String)
    requires
        pattern.len() > 0,
    ensures
        out@ == replaced(text@, 0, pattern@, to@),
{
    let mut out = String::new();
    let mut i: usize = 0;
    assert(out@ + replaced(text@, 0, pattern@, to@) =~= replaced(text@, 0, pattern@, to@));
    while i < text.len()
        invariant
            i <= text.len(),
            pattern.len() > 0,
            replaced(text@, 0, pattern@, to@) == out@ + replaced(text@, i as int, pattern@, to@),
        decreases text.len() - i,
    {
        let ghost before = out@;
        if found_at(text, i, pattern) {
            push_chars(&mut out, to);
            i += pattern.len();
            assert(before + (to@ + replaced(text@, i as int, pattern@, to@)) =~= out@ + replaced(
                text@,
                i as int,
                pattern@,
                to@,
            ));
        } else {
            out.push(text[i]);
            i += 1;
            assert(before + (seq![text@[i - 1]] + replaced(text@, i as int, pattern@, to@))
                =~= out@ + replaced(text@, i as int, pattern@, to@));
        }
    }
    assert(out@ + Seq::<char>::empty() =~= out@);
    out
}

/// Makes the source text of the table for the list of styles in `input`.
pub fn table_source(input: &str) -> (source: String)
    ensures
        source@ == table_text(input@),
{
    let text = chars_of(input);
    let list = trim(text.as_slice());
    let lines = split(list.as_slice(), '\n');
    let mut draft = String::from_str("let styles: [(&str, String); NUM] = [");
    let ghost head = draft@;
    let mut i: usize = 0;
    assert(texts(lines@).take(0) =~= Seq::empty());
    assert(draft@ =~= head + entries(texts(lines@).take(0)));
    while i < lines.len()
        invariant
            i <= lines.len(),
            draft@ == head + entries(texts(lines@).take(i as int)),
        decreases lines.len() - i,
    {
        let ghost before = texts(lines@).take(i as int);
        push_entry(&mut draft, lines[i].as_slice());
        proof {
            let now = texts(lines@).take(i + 1);
            assert(now.drop_last() =~= before);
            assert(now.last() == lines@[i as int]@);
            assert(draft@ =~= head + entries(now));
        }
        i += 1;
    }
    assert(texts(lines@).take(i as int) =~= texts(lines@));
    draft.append("];");
    let mut count = String::new();
    push_decimal(&mut count, lines.len() as u64);
    assert(count@ =~= decimal(lines.len() as nat));
    let draft_chars = chars_of(draft.as_str());
    let pattern = chars_of("NUM");
    let count_chars = chars_of(count.as_str());
    proof {
        reveal_strlit("NUM");
    }
    replace(draft_chars.as_slice(), pattern.as_slice(), count_chars.as_slice())
}

} // verus!
