use mkcss::document::{
    can_parse, collect_classes, find_target, first_target, get_classes, Target,
};
use mkcss::export::{render, sign, Export};
use scraper::Html;

fn some(s: &str) -> Option<String> {
    Some(s.to_string())
}

#[test]
fn classes_of_a_document() {
    let document = Html::parse_document(
        "<html><body class=\"mt-4  text-sm\"><div class=\"\n mt-4\tfg-ff0000 \"><p></p><p class=\"\"></p></div></body></html>",
    );
    let classes = get_classes(&document);
    assert_eq!(classes.to_vec(), vec!["fg-ff0000", "mt-4", "text-sm"]);
}

#[test]
fn document_without_classes() {
    let document = Html::parse_document("<p id=\"mt-4\">class=\"mt-4\"</p>");
    assert_eq!(get_classes(&document).len(), 0);
    assert_eq!(get_classes(&Html::parse_document("")).len(), 0);
}

#[test]
fn classes_of_attribute_values() {
    let values = vec![some("b a"), None, some(""), some("  c\tb  "), some("a")];
    assert_eq!(collect_classes(&values).to_vec(), vec!["a", "b", "c"]);
    assert_eq!(collect_classes(&vec![]).len(), 0);
    assert_eq!(collect_classes(&vec![None, None]).len(), 0);
}

#[test]
fn target_is_the_href_of_the_first_marked_link() {
    let document = Html::parse_document(
        "<html><head><link rel=\"stylesheet\" href=\"other.css\"><link mkcss href=\"out/site.css\"><link mkcss href=\"second.css\"></head><body></body></html>",
    );
    assert_eq!(find_target(&document), Target::Named("out/site.css".to_string()));
}

#[test]
fn target_is_absent_without_marked_link() {
    let document = Html::parse_document(
        "<html><head><link rel=\"stylesheet\" href=\"other.css\"></head><body><a mkcss href=\"x\"></a></body></html>",
    );
    assert_eq!(find_target(&document), Target::Absent);
}

#[test]
fn target_is_unnamed_without_href() {
    let document = Html::parse_document("<link mkcss><link mkcss href=\"late.css\">");
    assert_eq!(find_target(&document), Target::Unnamed);
}

#[test]
fn target_of_attribute_values() {
    assert_eq!(first_target(&None), Target::Absent);
    assert_eq!(first_target(&Some(vec![])), Target::Absent);
    assert_eq!(first_target(&Some(vec![None, some("a.css")])), Target::Unnamed);
    assert_eq!(
        first_target(&Some(vec![some("a.css"), some("b.css")])),
        Target::Named("a.css".to_string())
    );
    assert_eq!(first_target(&Some(vec![some("")])), Target::Named(String::new()));
}

#[test]
fn generator_signs_behind_the_stylesheet() {
    assert_eq!(sign("a:1;".to_string(), "1.2.3"), "a:1;\n/* generated by mkcss v1.2.3 */");
    assert_eq!(sign(String::new(), ""), "\n/* generated by mkcss v */");
}

#[test]
fn document_is_rendered_to_its_stylesheet() {
    let contents = "<html><head><link mkcss href=\"css/site.css\"></head><body class=\"mt-4 text-sm\"><p class=\"fg-ff0000 nothing\"></p></body></html>";
    assert_eq!(
        render(contents, false, "1.2.3"),
        Export {
            target: Target::Named("css/site.css".to_string()),
            css: ".fg-ff0000{color: #ff0000 } .mt-4 { margin-top: 4px } .text-sm { font-size: 12px } \n/* generated by mkcss v1.2.3 */"
                .to_string(),
        }
    );
}

#[test]
fn document_without_classes_is_rendered_to_the_signature() {
    let export = render("<p>nothing</p>", false, "0.1.0");
    assert_eq!(export.target, Target::Absent);
    assert_eq!(export.css, "\n/* generated by mkcss v0.1.0 */");
}

#[test]
fn rendering_with_reset_puts_the_minified_reset_block_in_front() {
    let export = render("<p class=\"m-1\"></p>", true, "0.1.0");
    assert!(export.css.starts_with("*,::before, ::after { box-sizing: border-box;}html{"));
    assert!(export.css.ends_with(".m-1{margin: 1px } \n/* generated by mkcss v0.1.0 */"));
    assert!(!export.css[..export.css.len() - 32].contains('\n'));
}

#[test]
fn documents_of_ordinary_length_fit_the_parser() {
    assert!(can_parse(""));
    assert!(can_parse("<p class=\"mt-4\">\u{0}\u{e9}</p>"));
    assert!(can_parse(&"<br>".repeat(1 << 20)));
}
