use mkcss::classes::ClassSet;
use mkcss::stylesheet::{compile, create_stylesheet, RESET};

fn sheet(names: &[&str], add_reset: bool) -> String {
    let owned: Vec<String> = names.iter().map(|s| s.to_string()).collect();
    create_stylesheet(owned.iter().collect(), add_reset)
}

#[test]
fn rules_stand_in_ascending_order_of_the_names() {
    assert_eq!(
        sheet(&["text-sm", "mt-4", "-mt-4", "fg-ff0000"], false),
        ".-mt-4 { margin-top: -4px }\n.fg-ff0000 { color: #ff0000 }\n.mt-4 { margin-top: 4px }\n.text-sm { font-size: 12px }\n"
    );
}

#[test]
fn names_without_rule_are_passed_over() {
    assert_eq!(
        sheet(&["zebra", "mt-4", "container", "foo-bar-baz"], false),
        ".mt-4 { margin-top: 4px }\n"
    );
    assert_eq!(sheet(&["zebra", "container"], false), "");
}

#[test]
fn name_listed_twice_gives_one_rule() {
    assert_eq!(
        sheet(&["mt-4", "mx-2", "mt-4", "mt-4"], false),
        ".mt-4 { margin-top: 4px }\n.mx-2 { margin-left: 2px; margin-right: 2px }\n"
    );
}

#[test]
fn listing_in_another_order_gives_the_same_text() {
    let a = sheet(&["mt-4", "text-20", "bg-000", "font-bold", "nothing"], true);
    let b = sheet(&["nothing", "font-bold", "bg-000", "text-20", "mt-4"], true);
    let c = sheet(&["bg-000", "bg-000", "mt-4", "nothing", "text-20", "font-bold", "mt-4"], true);
    assert_eq!(a, b);
    assert_eq!(a, c);
    assert_eq!(a, sheet(&["mt-4", "text-20", "bg-000", "font-bold", "nothing"], true));
}

#[test]
fn reset_block_stands_in_front() {
    let with = sheet(&["mt-4"], true);
    assert!(with.starts_with(RESET));
    assert_eq!(&with[RESET.len()..], ".mt-4 { margin-top: 4px }\n");
    assert_eq!(sheet(&[], true), RESET);
    assert_eq!(sheet(&[], false), "");
}

#[test]
fn no_more_rules_than_names_and_each_for_one_name() {
    let names = ["mt-4", "x", "text-sm", "-mb-2", "y", "fg-1", "mt-4"];
    let css = sheet(&names, false);
    let selectors: Vec<&str> =
        css.lines().map(|line| line.split(" { ").next().unwrap()).collect();
    assert_eq!(selectors, vec![".-mb-2", ".fg-1", ".mt-4", ".text-sm"]);
    assert!(selectors.len() <= names.len());
    for (k, selector) in selectors.iter().enumerate() {
        assert!(names.iter().any(|name| format!(".{}", name) == *selector));
        assert!(!selectors[..k].contains(selector));
    }
}

#[test]
fn order_is_by_code_point() {
    assert_eq!(
        sheet(&["fg-b", "fg-B", "fg-\u{e9}", "fg-z", "fg-\u{1f600}", "fg-\u{ffff}", "fg", "fg-"], false),
        ".fg { color: # }\n.fg- { color: # }\n.fg-B { color: #B }\n.fg-b { color: #b }\n.fg-z { color: #z }\n.fg-\u{e9} { color: #\u{e9} }\n.fg-\u{ffff} { color: #\u{ffff} }\n.fg-\u{1f600} { color: #\u{1f600} }\n"
    );
}

#[test]
fn compiling_a_class_set() {
    let mut set = ClassSet::new();
    set.insert("text-20");
    set.insert("m-1");
    set.insert("text-20");
    assert_eq!(compile(&set, false), ".m-1 { margin: 1px }\n.text-20 { font-size: 20px }\n");
    assert_eq!(compile(&ClassSet::new(), false), "");
}

#[test]
fn steps_of_the_compiler_from_class_names_to_minified_text() {
    let names = vec!["mt-4".to_string(), "fg-ff0000".to_string()];
    let css = mkcss::css::create_stylesheet(names.iter().collect(), false);
    assert_eq!(css, ".fg-ff0000 { color: #ff0000 }\n.mt-4 { margin-top: 4px }\n");
    assert_eq!(mkcss::css::minify(&css), ".fg-ff0000{color: #ff0000 } .mt-4 { margin-top: 4px } ");
}
