use mkcss::rule::{resolve, Rule};

fn body(class: &str) -> Option<String> {
    resolve(class).map(|rule| rule.body)
}

fn line(class: &str) -> Option<String> {
    resolve(class).map(|rule| rule.line())
}

#[test]
fn margin_top() {
    assert_eq!(line("mt-4"), Some(".mt-4 { margin-top: 4px }\n".to_string()));
}

#[test]
fn negative_margin_top() {
    assert_eq!(line("-mt-4"), Some(".-mt-4 { margin-top: -4px }\n".to_string()));
}

#[test]
fn horizontal_margin_names_left_then_right() {
    assert_eq!(
        line("mx-2"),
        Some(".mx-2 { margin-left: 2px; margin-right: 2px }\n".to_string())
    );
    assert_eq!(body("my-3"), Some("margin-top: 3px; margin-bottom: 3px".to_string()));
    assert_eq!(body("-my-3"), Some("margin-top: -3px; margin-bottom: -3px".to_string()));
}

#[test]
fn every_directional_prefix() {
    assert_eq!(body("m-1"), Some("margin: 1px".to_string()));
    assert_eq!(body("mt-1"), Some("margin-top: 1px".to_string()));
    assert_eq!(body("mr-1"), Some("margin-right: 1px".to_string()));
    assert_eq!(body("mb-1"), Some("margin-bottom: 1px".to_string()));
    assert_eq!(body("ml-1"), Some("margin-left: 1px".to_string()));
}

#[test]
fn text_with_number_is_font_size() {
    assert_eq!(line("text-20"), Some(".text-20 { font-size: 20px }\n".to_string()));
    assert_eq!(body("text-0"), Some("font-size: 0px".to_string()));
    assert_eq!(body("text-4294967295"), Some("font-size: 4294967295px".to_string()));
}

#[test]
fn text_with_name_is_looked_up() {
    assert_eq!(line("text-sm"), Some(".text-sm { font-size: 12px }\n".to_string()));
    assert_eq!(body("text-xs"), Some("font-size: 10px".to_string()));
    assert_eq!(body("text-md"), Some("font-size: 14px".to_string()));
    assert_eq!(body("text-lg"), Some("font-size: 18px".to_string()));
    assert_eq!(body("text-xl"), Some("font-size: 24px".to_string()));
    assert_eq!(body("text-left"), Some("text-align: left".to_string()));
    assert_eq!(body("text-center"), Some("text-align: center".to_string()));
    assert_eq!(body("text-right"), Some("text-align: right".to_string()));
    assert_eq!(body("text-justify"), Some("text-align: justify".to_string()));
    assert_eq!(body("text-start"), Some("text-align: start".to_string()));
    assert_eq!(body("text-end"), Some("text-align: end".to_string()));
}

#[test]
fn number_is_read_as_a_whole() {
    assert_eq!(body("text-007"), Some("font-size: 7px".to_string()));
    assert_eq!(body("text-+5"), Some("font-size: 5px".to_string()));
    assert_eq!(body("text-20-30"), Some("font-size: 20px".to_string()));
    assert_eq!(body("text-1.5"), None);
    assert_eq!(body("text-12px"), None);
    assert_eq!(body("text-4294967296"), None);
    assert_eq!(body("text-"), None);
    assert_eq!(body("text"), None);
    assert_eq!(body("text-\u{661}\u{662}"), None);
}

#[test]
fn font_with_number_is_font_weight() {
    assert_eq!(line("font-700"), Some(".font-700 { font-weight: 700 }\n".to_string()));
    assert_eq!(body("font-050"), Some("font-weight: 50".to_string()));
}

#[test]
fn font_with_name_is_looked_up() {
    assert_eq!(body("font-thin"), Some("font-weight: 100".to_string()));
    assert_eq!(body("font-extralight"), Some("font-weight: 200".to_string()));
    assert_eq!(body("font-light"), Some("font-weight: 300".to_string()));
    assert_eq!(body("font-normal"), Some("font-weight: 400".to_string()));
    assert_eq!(body("font-medium"), Some("font-weight: 500".to_string()));
    assert_eq!(body("font-semibold"), Some("font-weight: 600".to_string()));
    assert_eq!(body("font-bold"), Some("font-weight: 700".to_string()));
    assert_eq!(body("font-extrabold"), Some("font-weight: 800".to_string()));
    assert_eq!(body("font-black"), Some("font-weight: 900".to_string()));
    assert_eq!(
        body("font-sans"),
        Some(concat_parts(&[
            "font-family: ui-sans-serif, system-ui, -apple-system, BlinkMacSystemFont, ",
            "\"Segoe UI\", Roboto, \"Helvetica Neue\", Arial, \"Noto Sans\", sans-serif, ",
            "\"Apple Color Emoji\", \"Segoe UI Emoji\", \"Segoe UI Symbol\", \"Noto Color Emoji\"",
        ]))
    );
    assert_eq!(
        body("font-serif"),
        Some(
            "font-family: ui-serif, Georgia, Cambria, \"Times New Roman\", Times, serif;"
                .to_string()
        )
    );
    assert_eq!(
        body("font-mono"),
        Some(concat_parts(&[
            "font-family: ui-monospace, SFMono-Regular, Menlo, Monaco, Consolas, ",
            "\"Liberation Mono\", \"Courier New\", monospace;",
        ]))
    );
    assert_eq!(body("font-heavy"), None);
}

fn concat_parts(parts: &[&str]) -> String {
    let mut out = String::new();
    for part in parts {
        out.push_str(part);
    }
    out
}

#[test]
fn exact_styles_are_for_text_and_font_only() {
    assert_eq!(body("-text-sm"), None);
    assert_eq!(body("-font-bold"), None);
    assert_eq!(body("-text-20"), None);
}

#[test]
fn foreground_colour() {
    assert_eq!(line("fg-ff0000"), Some(".fg-ff0000 { color: #ff0000 }\n".to_string()));
    assert_eq!(body("color-ff0000"), Some("color: #ff0000".to_string()));
}

#[test]
fn background_colour() {
    assert_eq!(line("bg-00ff00"), Some(".bg-00ff00 { background-color: #00ff00 }\n".to_string()));
}

#[test]
fn colour_is_not_examined() {
    assert_eq!(body("fg-zebra"), Some("color: #zebra".to_string()));
    assert_eq!(body("fg"), Some("color: #".to_string()));
    assert_eq!(body("bg-"), Some("background-color: #".to_string()));
    assert_eq!(body("fg-12-34"), Some("color: #12".to_string()));
    assert_eq!(body("-fg-ff0000"), Some("color: #fg".to_string()));
}

#[test]
fn unknown_name_gives_no_rule() {
    assert_eq!(resolve("foo-bar-baz"), None);
    assert_eq!(resolve("container"), None);
    assert_eq!(resolve(""), None);
    assert_eq!(resolve("-"), None);
    assert_eq!(resolve("--"), None);
    assert_eq!(resolve("MT-4"), None);
    assert_eq!(resolve("mt4"), None);
    assert_eq!(resolve(" mt-4"), None);
}

#[test]
fn missing_length_gives_rule_without_number() {
    assert_eq!(line("m"), Some(".m { margin: px }\n".to_string()));
    assert_eq!(body("m-"), Some("margin: px".to_string()));
    assert_eq!(body("-m"), Some("margin: px".to_string()));
    assert_eq!(body("-m-"), Some("margin: -px".to_string()));
    assert_eq!(body("mx"), Some("margin-left: px; margin-right: px".to_string()));
}

#[test]
fn length_is_not_examined() {
    assert_eq!(body("mt-abc"), Some("margin-top: abcpx".to_string()));
    assert_eq!(body("mt-4-5"), Some("margin-top: 4px".to_string()));
    assert_eq!(body("-mt-4-5"), Some("margin-top: -4px".to_string()));
    assert_eq!(body("mt--4"), Some("margin-top: px".to_string()));
    assert_eq!(body("mt-\u{e9}"), Some("margin-top: \u{e9}px".to_string()));
}

#[test]
fn rule_holds_selector_and_body() {
    assert_eq!(
        resolve("mt-4"),
        Some(Rule { selector: ".mt-4".to_string(), body: "margin-top: 4px".to_string() })
    );
}
