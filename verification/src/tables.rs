//! The rule tables: fixed associations from names to fragments of CSS, and the
//! search in them.

use crate::text::spells;
use vstd::prelude::*;

verus! {

/// Class names that stand for one fixed declaration body each.
pub const EXACT_STYLES: [(&'static str, &'static str); 23] = [
    ("text-xs", "font-size: 10px"),
    ("text-sm", "font-size: 12px"),
    ("text-md", "font-size: 14px"),
    ("text-lg", "font-size: 18px"),
    ("text-xl", "font-size: 24px"),
    ("text-left", "text-align: left"),
    ("text-center", "text-align: center"),
    ("text-right", "text-align: right"),
    ("text-justify", "text-align: justify"),
    ("text-start", "text-align: start"),
    ("text-end", "text-align: end"),
    ("font-thin", "font-weight: 100"),
    ("font-extralight", "font-weight: 200"),
    ("font-light", "font-weight: 300"),
    ("font-normal", "font-weight: 400"),
    ("font-medium", "font-weight: 500"),
    ("font-semibold", "font-weight: 600"),
    ("font-bold", "font-weight: 700"),
    ("font-extrabold", "font-weight: 800"),
    ("font-black", "font-weight: 900"),
    (
        "font-sans",
        "font-family: ui-sans-serif, system-ui, -apple-system, BlinkMacSystemFont, \"Segoe UI\", Roboto, \"Helvetica Neue\", Arial, \"Noto Sans\", sans-serif, \"Apple Color Emoji\", \"Segoe UI Emoji\", \"Segoe UI Symbol\", \"Noto Color Emoji\"",
    ),
    ("font-serif", "font-family: ui-serif, Georgia, Cambria, \"Times New Roman\", Times, serif;"),
    (
        "font-mono",
        "font-family: ui-monospace, SFMono-Regular, Menlo, Monaco, Consolas, \"Liberation Mono\", \"Courier New\", monospace;",
    ),
];

/// Short prefixes that stand for one or more properties, separated by spaces,
/// which all take the one length that the class name carries.
pub const DIRECTIONAL_STYLES: [(&'static str, &'static str); 7] = [
    ("m", "margin"),
    ("mt", "margin-top"),
    ("mr", "margin-right"),
    ("mb", "margin-bottom"),
    ("ml", "margin-left"),
    ("mx", "margin-left margin-right"),
    ("my", "margin-top margin-bottom"),
];

/// The value of the first entry of `table` whose key is `key`.
pub open spec fn lookup(table: Seq<(&'static str, &'static str)>, key: Seq<char>) -> Option<
    Seq<char>,
>
    decreases table.len(),
{
    if table.len() == 0 {
        None
    } else if table[0].0@ == key {
        Some(table[0].1@)
    } else {
        lookup(table.skip(1), key)
    }
}

/// The text that an optional string holds.
pub open spec fn text_of(value: Option<&'static str>) -> Option<Seq<char>> {
    match value {
        Some(v) => Some(v@),
        None => None,
    }
}

/// Searches `table` for `key`, from the first entry on.
pub fn find(table: &[(&'static str, &'static str)], key: &[char]) -> (value: Option<&'static str>)
    ensures
        text_of(value) == lookup(table@, key@),
{
    let mut i: usize = 0;
    assert(table@.skip(0) == table@);
    while i < table.len()
        invariant
            i <= table.len(),
            lookup(table@, key@) == lookup(table@.skip(i as int), key@),
        decreases table.len() - i,
    {
        let entry = table[i];
        assert(table@.skip(i as int)[0] == table@[i as int]);
        if spells(key, entry.0) {
            return Some(entry.1);
        }
        assert(table@.skip(i as int).skip(1) == table@.skip(i + 1));
        i += 1;
    }
    None
}

/// The declaration body that the class name `class` stands for by itself.
pub fn exact_style(class: &[char]) -> (body: Option<&'static str>)
    ensures
        text_of(body) == lookup(EXACT_STYLES@, class@),
{
    let table = EXACT_STYLES;
    find(table.as_slice(), class)
}

/// The properties that the prefix `name` stands for.
pub fn directional_style(name: &[char]) -> (properties: Option<&'static str>)
    ensures
        text_of(properties) == lookup(DIRECTIONAL_STYLES@, name@),
{
    let table = DIRECTIONAL_STYLES;
    find(table.as_slice(), name)
}

} // verus!
