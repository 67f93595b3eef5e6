//! Taking text apart and putting it together.

use sqsearch::text::{
    between, find_char, join, parse_number, push_number, split_at, trim_end,
};

#[test]
fn numbers_are_written_in_decimal() {
    let mut out = String::from("s");
    push_number(&mut out, 0);
    push_number(&mut out, 907);
    push_number(&mut out, usize::MAX);
    assert_eq!(out, format!("s0907{}", usize::MAX));
}

#[test]
fn parts_are_joined() {
    let parts = vec!["a".to_string(), "".to_string(), "bc".to_string()];
    assert_eq!(join(&parts, ", "), "a, , bc");
    assert_eq!(join(&vec![], ", "), "");
    assert_eq!(between("%", "x", "%"), "%x%");
}

#[test]
fn text_is_split_like_std() {
    for text in ["", "/", "a", "a/b", "/a//b/", "한국어/국"] {
        let expected: Vec<&str> = text.split('/').collect();
        assert_eq!(split_at(text, '/'), expected);
        let owned: Vec<String> = split_at(text, '/').iter().map(|s| s.to_string()).collect();
        assert_eq!(join(&owned, "/"), text);
    }
    assert_eq!(find_char("abcabc", 'c', 3), 5);
    assert_eq!(find_char("abc", 'x', 1), 3);
}

#[test]
fn trailing_separator_adds_an_empty_part() {
    assert_eq!(split_at("chem/", '/'), vec!["chem", ""]);
}

#[test]
fn line_ends_are_trimmed() {
    for text in ["", "\n", "a\n\n", "a\nb", "\na", "a\r\n"] {
        assert_eq!(trim_end(text, '\n'), text.trim_end_matches('\n'));
    }
}

#[test]
fn numbers_are_parsed_like_std() {
    let max = usize::MAX.to_string();
    let over = "18446744073709551616";
    for text in
        ["", "+", "-", "0", "-0", "+7", "++7", "007", "12a", " 1", "1 ", "٣", &max, over, "1+"]
    {
        assert_eq!(parse_number(text), text.parse::<usize>().ok(), "{}", text);
    }
}
