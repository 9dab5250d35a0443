//! From the text of a document to the text of its stylesheet.

use crate::document::{
    attribute_values, find_target, fits_parser, get_classes, parsed_document, selected_classes,
    target_of, Target,
};
use crate::minify::{minified, minify};
use crate::stylesheet::{compile, stylesheet};
use scraper::Html;
use vstd::prelude::*;
use vstd::string::StringSliceAdditionalSpecFns;

verus! {

/// What is made of one document: the finished stylesheet, and where it goes.
#[derive(Debug, PartialEq, Eq)]
pub struct Export {
    pub target: Target,
    pub css: String,
}

/// `css` with the line behind it that names the generator and its version.
pub open spec fn signed(css: Seq<char>, version: Seq<char>) -> Seq<char> {
    css + "\n/* generated by mkcss v"@ + version + " */"@
}

/// Puts the generator's line behind `css`.
pub fn sign(css: String, version: &str) -> (out: String)
    ensures
        out@ == signed(css@, version@),
{
    let mut out = css;
    out.append("\n/* generated by mkcss v");
    out.append(version);
    out.append(" */");
    out
}

/// The finished stylesheet for a parsed document: the stylesheet of its class
/// names, minified and signed.
pub open spec fn finished(document: Html, add_reset: bool, version: Seq<char>) -> Seq<char> {
    signed(
        minified(
            stylesheet(selected_classes(attribute_values(document, "*"@, "class"@)), add_reset),
        ),
        version,
    )
}

/// Two documents whose elements carry the same class names get the same
/// stylesheet, in whatever order the names stand in them and however often:
/// the text depends on the set of the names, on the choice of the reset block
/// and on the version, and on nothing else in the document.
pub proof fn lemma_same_classes_same_text(
    first: Html,
    second: Html,
    add_reset: bool,
    version: Seq<char>,
)
    requires
        selected_classes(attribute_values(first, "*"@, "class"@)) == selected_classes(
            attribute_values(second, "*"@, "class"@),
        ),
    ensures
        finished(first, add_reset, version) == finished(second, add_reset, version),
{
}

/// Reads the document in `contents` and makes its stylesheet, with the reset
/// block in front if `add_reset` is set, for the generator of version
/// `version`. The document has to fit the parser, which `can_parse` tells.
pub fn render(contents: &str, add_reset: bool, version: &str) -> (export: Export)
    requires
        fits_parser(contents.spec_bytes().len()),
    ensures
        export.target@ == target_of(
            attribute_values(parsed_document(contents@), "link[mkcss]"@, "href"@),
        ),
        export.css@ == finished(parsed_document(contents@), add_reset, version@),
{
    let document = Html::parse_document(contents);
    let classes = get_classes(&document);
    let css = compile(&classes, add_reset);
    let small = minify(css.as_str());
    Export { target: find_target(&document), css: sign(small, version) }
}

} // verus!
