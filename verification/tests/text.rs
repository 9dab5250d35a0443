use mkcss::number::{parse_u32, push_decimal};
use mkcss::text::{chars_of, is_whitespace, push_chars, same_chars, spells, string_of};
use mkcss::token::{split, split_whitespace};

fn chars(s: &str) -> Vec<char> {
    s.chars().collect()
}

fn strings(parts: Vec<Vec<char>>) -> Vec<String> {
    parts.iter().map(|part| part.iter().collect()).collect()
}

#[test]
fn white_space_is_what_the_standard_library_calls_so() {
    let mut code: u32 = 0;
    let mut seen = 0;
    while code <= 0x10ffff {
        if let Some(c) = char::from_u32(code) {
            assert_eq!(is_whitespace(c), c.is_whitespace());
            if is_whitespace(c) {
                seen += 1;
            }
        }
        code += 1;
    }
    assert_eq!(seen, 25);
}

#[test]
fn text_goes_to_characters_and_back() {
    for s in ["", "a", "mt-4", "h\u{e9}llo w\u{f6}rld", "\u{1f600}\u{0}\u{10ffff}"] {
        assert_eq!(chars_of(s), chars(s));
        assert_eq!(string_of(&chars(s)), s);
    }
    let mut out = String::from("ab");
    push_chars(&mut out, &chars("c\u{e9}"));
    assert_eq!(out, "abc\u{e9}");
}

#[test]
fn same_chars_compares_all_characters() {
    assert!(same_chars(&chars(""), &chars("")));
    assert!(same_chars(&chars("text"), &chars("text")));
    assert!(!same_chars(&chars("text"), &chars("texT")));
    assert!(!same_chars(&chars("text"), &chars("tex")));
    assert!(!same_chars(&chars("tex"), &chars("text")));
    assert!(spells(&chars("font"), "font"));
    assert!(!spells(&chars("font"), "fond"));
    assert!(!spells(&chars(""), "f"));
}

#[test]
fn numbers_are_read_as_the_standard_library_reads_them() {
    let samples = [
        "", "0", "7", "+", "-", "+0", "-0", "-1", "007", "+007", "4294967295", "4294967296",
        "04294967295", "+4294967295", "99999999999999999999", "000000000000000000000000001",
        "12a", "a12", " 12", "12 ", "1 2", "\u{661}\u{662}", "1_000", "+-1", "++1", "1+", "0x10",
        "1.5", "1e3", "\u{ff11}",
    ];
    for s in samples {
        assert_eq!(parse_u32(&chars(s)), s.parse::<u32>().ok());
    }
}

#[test]
fn numbers_read_have_their_value() {
    assert_eq!(parse_u32(&chars("20")), Some(20));
    assert_eq!(parse_u32(&chars("+007")), Some(7));
    assert_eq!(parse_u32(&chars("4294967295")), Some(4294967295));
    assert_eq!(parse_u32(&chars("4294967296")), None);
    assert_eq!(parse_u32(&chars("")), None);
    assert_eq!(parse_u32(&chars("+")), None);
}

#[test]
fn numbers_are_written_in_decimal() {
    for n in [0u32, 7, 9, 10, 11, 99, 100, 101, 1000, 65535, 4294967295] {
        let mut out = String::from("x");
        push_decimal(&mut out, n as u64);
        assert_eq!(out, format!("x{}", n));
        assert_eq!(parse_u32(&chars(&out[1..])), Some(n));
    }
    let mut out = String::new();
    push_decimal(&mut out, u64::MAX);
    assert_eq!(out, "18446744073709551615");
}

#[test]
fn split_cuts_at_every_separator() {
    assert_eq!(strings(split(&chars("mt-4"), '-')), vec!["mt", "4"]);
    assert_eq!(strings(split(&chars("-mt-4"), '-')), vec!["", "mt", "4"]);
    assert_eq!(strings(split(&chars(""), '-')), vec![""]);
    assert_eq!(strings(split(&chars("-"), '-')), vec!["", ""]);
    assert_eq!(strings(split(&chars("a--b-"), '-')), vec!["a", "", "b", ""]);
    for s in ["", "-", "--", "a", "a-b", "-a-b-", "foo-bar-baz", "a b-c", "\u{e9}-\u{1f600}"] {
        let expected: Vec<String> = s.split('-').map(|part| part.to_string()).collect();
        assert_eq!(strings(split(&chars(s), '-')), expected);
    }
}

#[test]
fn split_whitespace_gives_the_words() {
    assert_eq!(
        strings(split_whitespace(&chars("margin-left margin-right"))),
        vec!["margin-left", "margin-right"]
    );
    assert!(split_whitespace(&chars("")).is_empty());
    assert!(split_whitespace(&chars(" \t\n")).is_empty());
    for s in [
        "", " ", "a", " a", "a ", " a ", "a b", "a  b", "\ta\nb\r\nc ", "mt-4  text-sm\u{a0}x",
        "\u{3000}a\u{2003}\u{2003}b", "a\u{200b}b c",
    ] {
        let expected: Vec<String> = s.split_whitespace().map(|part| part.to_string()).collect();
        assert_eq!(strings(split_whitespace(&chars(s))), expected);
    }
}
