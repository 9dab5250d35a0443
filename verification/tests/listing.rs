use mkcss::listing::{table_source, trim};

fn chars(s: &str) -> Vec<char> {
    s.chars().collect()
}

fn by_the_standard_library(input: &str) -> String {
    let trimmed_input = input.trim();
    let lines: Vec<&str> = trimmed_input.split("\n").collect();
    let mut output = String::from("let styles: [(&str, String); NUM] = [");
    for line in lines.clone() {
        let parts: Vec<&str> = line.splitn(2, " ").collect();
        if parts.len() == 2 {
            let value = parts[1].split("/*").next().unwrap_or(parts[1]).trim().to_string();
            output.push_str(&format!("(\"{}\", \"{}\"),\n", parts[0].trim(), value));
        }
    }
    output.push_str("];");
    output.replace("NUM", &lines.len().to_string())
}

#[test]
fn table_of_two_styles() {
    assert_eq!(
        table_source("text-xs font-size: 10px\ntext-sm font-size: 12px /* small */\n"),
        "let styles: [(&str, String); 2] = [(\"text-xs\", \"font-size: 10px\"),\n(\"text-sm\", \"font-size: 12px\"),\n];"
    );
}

#[test]
fn table_of_nothing_has_one_line() {
    assert_eq!(table_source(""), "let styles: [(&str, String); 1] = [];");
    assert_eq!(table_source(" \n\t\n "), "let styles: [(&str, String); 1] = [];");
}

#[test]
fn line_without_space_is_counted_and_gives_no_entry() {
    assert_eq!(
        table_source("a b\nlonely\n\nc d"),
        "let styles: [(&str, String); 4] = [(\"a\", \"b\"),\n(\"c\", \"d\"),\n];"
    );
}

#[test]
fn the_word_num_gives_way_to_the_count_everywhere() {
    assert_eq!(
        table_source("NUM NUMBER\nx NNUMUM"),
        "let styles: [(&str, String); 2] = [(\"2\", \"2BER\"),\n(\"x\", \"N2UM\"),\n];"
    );
}

#[test]
fn table_is_what_the_standard_library_makes_of_the_list() {
    let inputs = [
        "",
        "a",
        "a b",
        "a  b  ",
        "  a b\n",
        "a b\r\nc d\r\n",
        "a b /* c */ d /* e */\n\tf g\n",
        "a /* only a comment */\nb /*\nc */ d",
        "a b/\nc d*\ne /",
        "text-xs font-size: 10px\ntext-sm font-size: 12px\n\nfont-sans font-family: \"Segoe UI\", sans-serif /* stack */\n",
        "NUM NUM NUM\nNU M\nNNUM NUMNUM",
        "\u{3000}a\u{a0}b\u{2003}\n\u{85}",
        " a\n b c \n  d   e   f  ",
        "m\u{e9} \u{1f600} x\n",
    ];
    for input in inputs {
        assert_eq!(table_source(input), by_the_standard_library(input));
    }
}

#[test]
fn trim_takes_white_space_off_both_ends() {
    for s in ["", " ", "a", " a", "a ", "  a b  ", "\t\na\u{3000}", "\u{a0}\u{2003}", "a\u{200b} "] {
        let out: String = trim(&chars(s)).iter().collect();
        assert_eq!(out, s.trim());
    }
}
