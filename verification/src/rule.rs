//! The resolution engine: it reads one class name and gives the rule that the
//! name stands for, or nothing.

use crate::number::{decimal, parse_u32, parsed_u32, push_decimal};
use crate::tables::{directional_style, exact_style, lookup, DIRECTIONAL_STYLES, EXACT_STYLES};
use crate::text::{chars_of, push_chars, spells, texts};
use crate::token::{
    lemma_pieces_hold_no_separator, lemma_pieces_nonempty, pieces, split, split_whitespace, words,
};
use vstd::prelude::*;

verus! {

/// One rule of a stylesheet: a selector and the declarations it governs.
#[derive(Debug, PartialEq, Eq)]
pub struct Rule {
    pub selector: String,
    pub body: String,
}

/// The text of a rule's two parts.
pub struct RuleText {
    pub selector: Seq<char>,
    pub body: Seq<char>,
}

impl RuleText {
    /// The rule as it stands in a stylesheet, on a line of its own.
    pub open spec fn line(self) -> Seq<char> {
        self.selector + " { "@ + self.body + " }\n"@
    }
}

impl View for Rule {
    type V = RuleText;

    open spec fn view(&self) -> RuleText {
        RuleText { selector: self.selector@, body: self.body@ }
    }
}

/// The text of an optional string.
pub open spec fn body_text(body: Option<String>) -> Option<Seq<char>> {
    match body {
        Some(b) => Some(b@),
        None => None,
    }
}

/// The text of an optional rule.
pub open spec fn rule_text(rule: Option<Rule>) -> Option<RuleText> {
    match rule {
        Some(r) => Some(r@),
        None => None,
    }
}

/// The piece at index `i`, or the empty text where there is none.
pub open spec fn part(parts: Seq<Seq<char>>, i: int) -> Seq<char> {
    if 0 <= i < parts.len() {
        parts[i]
    } else {
        Seq::empty()
    }
}

/// Whether `class` begins with the hyphen that marks a negative length.
pub open spec fn is_negative(class: Seq<char>) -> bool {
    class.len() > 0 && class[0] == '-'
}

/// The piece of `class` that decides which kind of rule it is: the first one,
/// or the second where a leading hyphen has left the first one empty.
pub open spec fn rule_name(class: Seq<char>) -> Seq<char> {
    let parts = pieces(class, '-');
    if is_negative(class) && parts.len() > 1 {
        parts[1]
    } else {
        parts[0]
    }
}

/// The length that a directional class carries: the piece behind the name,
/// with a hyphen in front of it for a negative class. A class without that
/// piece carries the empty length.
pub open spec fn length_of(class: Seq<char>) -> Seq<char> {
    let parts = pieces(class, '-');
    if is_negative(class) {
        if parts.len() > 2 {
            seq!['-'] + parts[2]
        } else {
            Seq::empty()
        }
    } else {
        part(parts, 1)
    }
}

/// One declaration in pixels for each of `properties`, all with the same
/// `length`, separated by a semicolon and a space.
pub open spec fn declarations(properties: Seq<Seq<char>>, length: Seq<char>) -> Seq<char>
    decreases properties.len(),
{
    if properties.len() == 0 {
        Seq::empty()
    } else {
        let one = properties.last() + ": "@ + length + "px"@;
        if properties.len() == 1 {
            one
        } else {
            declarations(properties.drop_last(), length) + "; "@ + one
        }
    }
}

/// The body of a class that takes a number. Where a number stands behind the
/// name, the body gives `property` that number, written in decimal, with
/// `unit` behind it. Where none does, the body is the exact style that the
/// whole class names, if there is one: a number always comes first.
pub open spec fn numbered_body(class: Seq<char>, property: Seq<char>, unit: Seq<char>) -> Option<
    Seq<char>,
> {
    match parsed_u32(part(pieces(class, '-'), 1)) {
        Some(n) => Some(property + decimal(n as nat) + unit),
        None => lookup(EXACT_STYLES@, class),
    }
}

/// The declaration body that `class` stands for, if it stands for any.
///
/// The name of the class decides. `text` and `font` take a number for a font
/// size in pixels or a font weight; where no number follows, the whole class
/// is looked up among the exact styles. `fg`, `color` and `bg` take a colour
/// in hexadecimal, which is not examined. Any other name is looked up among
/// the directional styles, and each of its properties gets the length that the
/// class carries.
pub open spec fn declaration(class: Seq<char>) -> Option<Seq<char>> {
    let parts = pieces(class, '-');
    let name = rule_name(class);
    if name == "text"@ {
        numbered_body(class, "font-size: "@, "px"@)
    } else if name == "font"@ {
        numbered_body(class, "font-weight: "@, Seq::empty())
    } else if name == "fg"@ || name == "color"@ {
        Some("color: #"@ + part(parts, 1))
    } else if name == "bg"@ {
        Some("background-color: #"@ + part(parts, 1))
    } else {
        match lookup(DIRECTIONAL_STYLES@, name) {
            Some(properties) => Some(declarations(words(properties), length_of(class))),
            None => None,
        }
    }
}

/// The rule that `class` stands for, if it stands for any: its selector is
/// the class name behind a full stop.
pub open spec fn rule_for(class: Seq<char>) -> Option<RuleText> {
    match declaration(class) {
        Some(body) => Some(RuleText { selector: seq!['.'] + class, body }),
        None => None,
    }
}

/// A rule is the rule of one class only: classes whose rules have the same
/// selector are the same class.
pub proof fn lemma_selector_names_class(a: Seq<char>, b: Seq<char>)
    requires
        rule_for(a) is Some,
        rule_for(b) is Some,
        rule_for(a)->0.selector == rule_for(b)->0.selector,
    ensures
        a == b,
{
    assert((seq!['.'] + a).skip(1) =~= a);
    assert((seq!['.'] + b).skip(1) =~= b);
}

/// The name of a class holds no hyphen, so a sign can only come with the
/// length.
pub proof fn lemma_name_holds_no_hyphen(class: Seq<char>)
    ensures
        !rule_name(class).contains('-'),
{
    lemma_pieces_nonempty(class, '-');
    if is_negative(class) && pieces(class, '-').len() > 1 {
        lemma_pieces_hold_no_separator(class, '-', 1);
    } else {
        lemma_pieces_hold_no_separator(class, '-', 0);
    }
}

/// Appends the piece at index `i` to `out`, or nothing where there is none.
fn push_part(out: &mut String, parts: &Vec<Vec<char>>, i: usize)
    ensures
        final(out)@ == old(out)@ + part(texts(parts@), i as int),
{
    if i < parts.len() {
        push_chars(out, parts[i].as_slice());
    } else {
        assert(out@ =~= out@ + Seq::<char>::empty());
    }
}

/// Reads the piece at index 1 as a number.
fn number_of(parts: &Vec<Vec<char>>) -> (number: Option<u32>)
    ensures
        number == parsed_u32(part(texts(parts@), 1)),
{
    if 1 < parts.len() {
        parse_u32(parts[1].as_slice())
    } else {
        let none: Vec<char> = Vec::new();
        assert(none@ =~= Seq::empty());
        parse_u32(none.as_slice())
    }
}

/// The body of a `text` or `font` class: `property` with the number that the
/// class carries and `unit`, or else the exact style of that name.
fn numbered(class: &[char], parts: &Vec<Vec<char>>, property: &str, unit: &str) -> (body: Option<
    String,
>)
    requires
        texts(parts@) == pieces(class@, '-'),
    ensures
        body_text(body) == numbered_body(class@, property@, unit@),
{
    match number_of(parts) {
        Some(n) => {
            let mut out = String::from_str(property);
            push_decimal(&mut out, n as u64);
            out.append(unit);
            Some(out)
        },
        None => match exact_style(class) {
            Some(style) => Some(String::from_str(style)),
            None => None,
        },
    }
}

/// The body of a colour class: `property` with the piece at index 1.
fn coloured(parts: &Vec<Vec<char>>, property: &str) -> (body: String)
    ensures
        body@ == property@ + part(texts(parts@), 1),
{
    let mut out = String::from_str(property);
    push_part(&mut out, parts, 1);
    out
}

/// Writes the declarations of `properties` with the one `length`.
fn declare_all(properties: &Vec<Vec<char>>, length: &[char]) -> (body: String)
    ensures
        body@ == declarations(texts(properties@), length@),
{
    let mut out = String::new();
    let mut i: usize = 0;
    assert(texts(properties@).take(0) =~= Seq::empty());
    while i < properties.len()
        invariant
            i <= properties.len(),
            out@ == declarations(texts(properties@).take(i as int), length@),
        decreases properties.len() - i,
    {
        let ghost before = out@;
        if i > 0 {
            out.append("; ");
        }
        push_chars(&mut out, properties[i].as_slice());
        out.append(": ");
        push_chars(&mut out, length);
        out.append("px");
        proof {
            let now = texts(properties@).take(i + 1);
            assert(now.drop_last() =~= texts(properties@).take(i as int));
            assert(now.last() == properties@[i as int]@);
            let one = now.last() + ": "@ + length@ + "px"@;
            if i > 0 {
                assert(out@ =~= before + "; "@ + one);
            } else {
                assert(out@ =~= one);
            }
        }
        i += 1;
    }
    assert(texts(properties@).take(i as int) =~= texts(properties@));
    out
}

/// The length that a directional class carries.
fn length(class: &[char], parts: &Vec<Vec<char>>) -> (value: Vec<char>)
    requires
        texts(parts@) == pieces(class@, '-'),
    ensures
        value@ == length_of(class@),
{
    let mut value: Vec<char> = Vec::new();
    if class.len() > 0 && class[0] == '-' {
        if parts.len() > 2 {
            value.push('-');
            value.extend_from_slice(parts[2].as_slice());
            assert(value@ =~= seq!['-'] + parts@[2]@);
        }
    } else if parts.len() > 1 {
        value.extend_from_slice(parts[1].as_slice());
        assert(value@ =~= parts@[1]@);
    }
    value
}

/// Works out the declaration body of `class`.
pub fn declare(class: &[char]) -> (body: Option<String>)
    ensures
        body_text(body) == declaration(class@),
{
    let parts = split(class, '-');
    proof {
        lemma_pieces_nonempty(class@, '-');
    }
    let negative = class.len() > 0 && class[0] == '-';
    let name: &[char] = if negative && parts.len() > 1 {
        parts[1].as_slice()
    } else {
        parts[0].as_slice()
    };
    assert(name@ == rule_name(class@));
    if spells(name, "text") {
        numbered(class, &parts, "font-size: ", "px")
    } else if spells(name, "font") {
        proof {
            reveal_strlit("");
            assert(""@ =~= Seq::empty());
        }
        numbered(class, &parts, "font-weight: ", "")
    } else if spells(name, "fg") || spells(name, "color") {
        Some(coloured(&parts, "color: #"))
    } else if spells(name, "bg") {
        Some(coloured(&parts, "background-color: #"))
    } else {
        match directional_style(name) {
            Some(properties) => {
                let list = chars_of(properties);
                let names = split_whitespace(list.as_slice());
                let value = length(class, &parts);
                Some(declare_all(&names, value.as_slice()))
            },
            None => None,
        }
    }
}

impl Rule {
    /// The rule as it stands in a stylesheet, on a line of its own.
    pub fn line(&self) -> (text: String)
        ensures
            text@ == self@.line(),
    {
        let mut out = self.selector.clone();
        out.append(" { ");
        out.append(self.body.as_str());
        out.append(" }\n");
        out
    }
}

/// Resolves the class name that `class` holds to the rule that it stands for.
pub fn resolve_chars(class: &[char]) -> (rule: Option<Rule>)
    ensures
        rule_text(rule) == rule_for(class@),
{
    match declare(class) {
        Some(body) => {
            let mut selector = String::new();
            selector.push('.');
            push_chars(&mut selector, class);
            assert(selector@ =~= seq!['.'] + class@);
            Some(Rule { selector, body })
        },
        None => None,
    }
}

/// Resolves one class name to the rule that it stands for.
pub fn resolve(class: &str) -> (rule: Option<Rule>)
    ensures
        rule_text(rule) == rule_for(class@),
{
    let chars = chars_of(class);
    resolve_chars(chars.as_slice())
}

} // verus!
