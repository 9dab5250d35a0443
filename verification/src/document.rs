//! What the compiler reads from a document: the class names that its elements
//! carry, and the place to which its stylesheet goes.

use crate::classes::ClassSet;
use crate::text::{chars_of, texts};
use crate::token::{split_whitespace, words};
use scraper::{Html, Selector};
use vstd::prelude::*;
use vstd::string::StringSliceAdditionalSpecFns;

verus! {

/// A parsed document, as `scraper` holds it. Nothing is known of what is
/// inside one but what the functions below tell.
#[verifier::external_type_specification]
#[verifier::external_body]
pub struct ExHtml(scraper::Html);

/// A parsed CSS selector, as `scraper` holds it.
#[verifier::external_type_specification]
#[verifier::external_body]
pub struct ExSelector(scraper::Selector);

/// The document that `scraper` parses `text` into.
pub uninterp spec fn parsed_document(text: Seq<char>) -> Html;

/// The selector that `scraper` parses `text` into, or `None` where `text` is
/// no selector.
pub uninterp spec fn parsed_selector(text: Seq<char>) -> Option<Selector>;

/// The value that each element of `document` matching `selector` has for the
/// attribute `attribute`, with `None` for an element without that attribute.
/// The elements come in the order in which `scraper` yields them, which is
/// the order in which its parser made them.
pub uninterp spec fn selected_values(
    document: Html,
    selector: Selector,
    attribute: Seq<char>,
) -> Seq<Option<Seq<char>>>;

/// Whether a document of `bytes` bytes fits the parser. A buffer of the
/// parser grows to a power of two that a number of 32 bits holds, so to
/// 2 147 483 648 bytes at most, and the parser writes up to three bytes for
/// one that it reads: a replacement character for a NUL.
pub open spec fn fits_parser(bytes: nat) -> bool {
    3 * bytes <= 0x8000_0000
}

/// `Html::parse_document` parses a text as an HTML document. What it gives
/// depends on the text alone. It panics where what it makes of the text
/// outgrows one of its buffers; a text that fits the parser is too short for
/// that.
pub assume_specification[ Html::parse_document ](document: &str) -> (html: Html)
    requires
        fits_parser(document.spec_bytes().len()),
    ensures
        html == parsed_document(document@),
;

/// Tells whether the document in `contents` fits the parser.
pub fn can_parse(contents: &str) -> (fits: bool)
    ensures
        fits == fits_parser(contents.spec_bytes().len()),
{
    contents.as_bytes().len() <= 715827882
}

/// Whether `text` is one of the selectors that the library uses: the one for
/// every element, and the one for a `link` element with the attribute
/// `mkcss`. Neither has a selector inside another.
pub open spec fn known_selector(text: Seq<char>) -> bool {
    text == "*"@ || text == "link[mkcss]"@
}

/// `Selector::parse` parses a text as a group of CSS selectors. It fails on a
/// text that is none; whether it does, and what it gives, depends on the text
/// alone. It descends once for each selector that stands inside another, so
/// only the selectors that the library uses are handed to it.
#[verifier::external_body]
fn parse_selector(text: &str) -> (selector: Option<Selector>)
    requires
        known_selector(text@),
    ensures
        selector == parsed_selector(text@),
{
    Selector::parse(text).ok()
}

/// The texts of optional strings, in order.
pub open spec fn value_texts(values: Seq<Option<String>>) -> Seq<Option<Seq<char>>> {
    values.map_values(
        |value: Option<String>|
            match value {
                Some(v) => Some(v@),
                None => None,
            },
    )
}

/// The texts of an optional list of optional strings.
pub open spec fn selection_texts(values: Option<Vec<Option<String>>>) -> Option<
    Seq<Option<Seq<char>>>,
> {
    match values {
        Some(v) => Some(value_texts(v@)),
        None => None,
    }
}

/// `Html::select` yields the elements of `document` that match `selector`, in
/// the order in which the parser made them; `ElementRef::attr` reads
/// `attribute` from each. What comes back depends on the three arguments
/// alone. The selector is one that the library uses, parsed.
#[verifier::external_body]
fn select_values(document: &Html, selector: &Selector, attribute: &str) -> (values: Vec<
    Option<String>,
>)
    requires
        exists|text: Seq<char>|
            known_selector(text) && #[trigger] parsed_selector(text) == Some(*selector),
    ensures
        value_texts(values@) == selected_values(*document, *selector, attribute@),
{
    document.select(selector).map(|element| element.attr(attribute).map(String::from)).collect()
}

/// The values of `attribute` on the elements of `document` that the selector
/// written in `selector` matches, or `None` where `selector` is no selector.
pub open spec fn attribute_values(
    document: Html,
    selector: Seq<char>,
    attribute: Seq<char>,
) -> Option<Seq<Option<Seq<char>>>> {
    match parsed_selector(selector) {
        Some(parsed) => Some(selected_values(document, parsed, attribute)),
        None => None,
    }
}

/// Reads `attribute` from the elements of `document` that the selector
/// written in `selector` matches.
fn select_attribute(document: &Html, selector: &str, attribute: &str) -> (values: Option<
    Vec<Option<String>>,
>)
    requires
        known_selector(selector@),
    ensures
        selection_texts(values) == attribute_values(*document, selector@, attribute@),
{
    match parse_selector(selector) {
        Some(parsed) => Some(select_values(document, &parsed, attribute)),
        None => None,
    }
}

/// The class names that `values` hold: every word of every value that is
/// there.
pub open spec fn class_names(values: Seq<Option<Seq<char>>>) -> Set<Seq<char>> {
    Set::new(
        |name: Seq<char>|
            exists|i: int, j: int|
                0 <= i < values.len() && values[i] is Some && 0 <= j < words(values[i]->0).len()
                    && #[trigger] words(values[i]->0)[j] == name,
    )
}

/// The class names depend on which values there are, not on their order nor
/// on how often one stands among them.
pub proof fn lemma_class_names_of_same_values(
    first: Seq<Option<Seq<char>>>,
    second: Seq<Option<Seq<char>>>,
)
    requires
        first.to_set() == second.to_set(),
    ensures
        class_names(first) == class_names(second),
{
    assert forall|a: Seq<Option<Seq<char>>>, b: Seq<Option<Seq<char>>>, name: Seq<char>|
        a.to_set() == b.to_set() && class_names(a).contains(name) implies class_names(
        b,
    ).contains(name) by {
        let (i, j) = choose|i: int, j: int|
            0 <= i < a.len() && a[i] is Some && 0 <= j < words(a[i]->0).len()
                && #[trigger] words(a[i]->0)[j] == name;
        assert(a.to_set().contains(a[i]));
        assert(b.contains(a[i]));
        let k = choose|k: int| 0 <= k < b.len() && b[k] == a[i];
        assert(words(b[k]->0)[j] == name);
    }
    assert(class_names(first) =~= class_names(second));
}

/// The class names of a selection, none where there is no selection.
pub open spec fn selected_classes(values: Option<Seq<Option<Seq<char>>>>) -> Set<Seq<char>> {
    match values {
        Some(v) => class_names(v),
        None => Set::empty(),
    }
}

/// Adds the words of `value` to `classes`.
fn add_words(classes: &mut ClassSet, value: &str)
    requires
        old(classes).wf(),
    ensures
        final(classes).wf(),
        final(classes).names() == old(classes).names().union(words(value@).to_set()),
{
    let text = chars_of(value);
    let parts = split_whitespace(text.as_slice());
    let ghost all = texts(parts@);
    let ghost start = classes.names();
    assert(start =~= start.union(all.take(0).to_set()));
    let mut i: usize = 0;
    while i < parts.len()
        invariant
            i <= parts.len(),
            classes.wf(),
            texts(parts@) == all,
            classes.names() == start.union(all.take(i as int).to_set()),
        decreases parts.len() - i,
    {
        let name = parts[i].clone();
        assert(name@ == all[i as int]);
        classes.insert_chars(name);
        proof {
            assert(all.take(i + 1) =~= all.take(i as int).push(all[i as int]));
            assert(all.take(i + 1).to_set() =~= all.take(i as int).to_set().insert(all[i as int]))
                by {
                all.take(i as int).lemma_push_to_set_commute(all[i as int]);
            }
            assert(classes.names() =~= start.union(all.take(i + 1).to_set()));
        }
        i += 1;
    }
    assert(all.take(i as int) =~= all);
}

/// Gathers the class names of a list of `class` attributes.
pub fn collect_classes(values: &Vec<Option<String>>) -> (classes: ClassSet)
    ensures
        classes.wf(),
        classes.names() == class_names(value_texts(values@)),
{
    let mut classes = ClassSet::new();
    let ghost all = value_texts(values@);
    assert(classes.names() =~= class_names(all.take(0)));
    let mut i: usize = 0;
    while i < values.len()
        invariant
            i <= values.len(),
            all == value_texts(values@),
            classes.wf(),
            classes.names() == class_names(all.take(i as int)),
        decreases values.len() - i,
    {
        let ghost before = classes.names();
        match &values[i] {
            Some(value) => {
                add_words(&mut classes, value.as_str());
            },
            None => {},
        }
        proof {
            let now = all.take(i + 1);
            let then = all.take(i as int);
            let added = match all[i as int] {
                Some(v) => words(v).to_set(),
                None => Set::empty(),
            };
            assert forall|name: Seq<char>| class_names(now).contains(name) <==> before.union(
                added,
            ).contains(name) by {
                if class_names(now).contains(name) {
                    let (k, j) = choose|k: int, j: int|
                        0 <= k < now.len() && now[k] is Some && 0 <= j < words(now[k]->0).len()
                            && #[trigger] words(now[k]->0)[j] == name;
                    if k < i {
                        assert(then[k] == now[k]);
                        assert(words(then[k]->0)[j] == name);
                    } else {
                        assert(words(all[i as int]->0).contains(name));
                    }
                }
                if before.contains(name) {
                    let (k, j) = choose|k: int, j: int|
                        0 <= k < then.len() && then[k] is Some && 0 <= j < words(then[k]->0).len()
                            && #[trigger] words(then[k]->0)[j] == name;
                    assert(now[k] == then[k]);
                    assert(words(now[k]->0)[j] == name);
                }
                if added.contains(name) {
                    let v = all[i as int]->0;
                    let j = choose|j: int| 0 <= j < words(v).len() && words(v)[j] == name;
                    assert(now[i as int] == all[i as int]);
                    assert(words(now[i as int]->0)[j] == name);
                }
            }
            assert(classes.names() =~= class_names(now));
        }
        i += 1;
    }
    assert(all.take(i as int) =~= all);
    classes
}

/// Gathers the class names that the elements of `document` carry in their
/// `class` attributes.
pub fn get_classes(document: &Html) -> (classes: ClassSet)
    ensures
        classes.wf(),
        classes.names() == selected_classes(attribute_values(*document, "*"@, "class"@)),
{
    match select_attribute(document, "*", "class") {
        Some(values) => collect_classes(&values),
        None => {
            let classes = ClassSet::new();
            assert(classes.names() =~= Set::empty());
            classes
        },
    }
}

/// Where the stylesheet of a document goes.
#[derive(Debug, PartialEq, Eq)]
pub enum Target {
    /// The document has no element that marks the place.
    Absent,
    /// The first element that marks the place names no file.
    Unnamed,
    /// The file that the first such element names, as the document writes it.
    Named(String),
}

/// A target with the text of its file name.
pub enum TargetText {
    Absent,
    Unnamed,
    Named(Seq<char>),
}

impl View for Target {
    type V = TargetText;

    open spec fn view(&self) -> TargetText {
        match self {
            Target::Absent => TargetText::Absent,
            Target::Unnamed => TargetText::Unnamed,
            Target::Named(path) => TargetText::Named(path@),
        }
    }
}

/// The target that a selection of `href` values gives: that of the first
/// element, if there is one.
pub open spec fn target_of(links: Option<Seq<Option<Seq<char>>>>) -> TargetText {
    match links {
        Some(values) if values.len() > 0 => match values[0] {
            Some(path) => TargetText::Named(path),
            None => TargetText::Unnamed,
        },
        _ => TargetText::Absent,
    }
}

/// Picks the target from the `href` values of the elements that mark it.
pub fn first_target(links: &Option<Vec<Option<String>>>) -> (target: Target)
    ensures
        target@ == target_of(selection_texts(*links)),
{
    match links {
        Some(values) => {
            if values.len() > 0 {
                match &values[0] {
                    Some(path) => Target::Named(path.clone()),
                    None => Target::Unnamed,
                }
            } else {
                Target::Absent
            }
        },
        None => Target::Absent,
    }
}

/// Finds where the stylesheet of `document` goes: the `href` of the first
/// `link` element with the attribute `mkcss` that the document yields.
pub fn find_target(document: &Html) -> (target: Target)
    ensures
        target@ == target_of(attribute_values(*document, "link[mkcss]"@, "href"@)),
{
    let links = select_attribute(document, "link[mkcss]", "href");
    first_target(&links)
}

} // verus!
