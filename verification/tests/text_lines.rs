use focus::text::{char_is_whitespace, contains_chars, split_lines, to_chars, trimmed};

fn chars(s: &str) -> Vec<char> {
    s.chars().collect()
}

fn lines(s: &str) -> Vec<String> {
    split_lines(&chars(s)).iter().map(|line| line.iter().collect()).collect()
}

fn trim(s: &str) -> String {
    trimmed(&chars(s)).iter().collect()
}

fn contains(text: &str, pattern: &str) -> bool {
    contains_chars(&chars(text), &chars(pattern))
}

#[test]
fn white_space_is_that_of_the_standard_library() {
    for code in 0..=0x10FFFFu32 {
        if let Some(c) = char::from_u32(code) {
            assert_eq!(char_is_whitespace(c), c.is_whitespace(), "U+{:04X}", code);
        }
    }
}

#[test]
fn white_space_by_name() {
    for c in [' ', '\t', '\n', '\r', '\u{b}', '\u{c}', '\u{85}', '\u{a0}', '\u{2000}', '\u{200a}', '\u{3000}'] {
        assert!(char_is_whitespace(c));
    }
    for c in ['a', '#', '\0', '\u{8}', '\u{e}', '\u{200b}', '\u{feff}', '\u{180e}'] {
        assert!(!char_is_whitespace(c));
    }
}

#[test]
fn characters_of_a_string() {
    assert_eq!(to_chars(""), Vec::<char>::new());
    assert_eq!(to_chars("a#\n"), vec!['a', '#', '\n']);
    assert_eq!(to_chars("ü日"), vec!['ü', '日']);
}

#[test]
fn an_empty_text_has_no_lines() {
    assert_eq!(lines(""), Vec::<String>::new());
}

#[test]
fn a_line_feed_ends_a_line() {
    assert_eq!(lines("\n"), vec![""]);
    assert_eq!(lines("a"), vec!["a"]);
    assert_eq!(lines("a\n"), vec!["a"]);
    assert_eq!(lines("a\nb"), vec!["a", "b"]);
    assert_eq!(lines("a\n\nb\n"), vec!["a", "", "b"]);
    assert_eq!(lines("\n\n"), vec!["", ""]);
}

#[test]
fn a_carriage_return_before_a_line_feed_belongs_to_the_line_ending() {
    assert_eq!(lines("a\r\nb\r\n"), vec!["a", "b"]);
    assert_eq!(lines("\r\n"), vec![""]);
    assert_eq!(lines("a\r\r\nb"), vec!["a\r", "b"]);
    assert_eq!(lines("a\rb\n"), vec!["a\rb"]);
}

#[test]
fn the_last_line_keeps_its_carriage_return() {
    assert_eq!(lines("a\nb\r"), vec!["a", "b\r"]);
    assert_eq!(lines("\r"), vec!["\r"]);
}

#[test]
fn lines_are_those_of_the_standard_library() {
    for text in ["", "\n", "a", "a\n", "a\r\n", "a\r", "foo\nbar\n\r\nbaz\r", "\n\na\n\n", "x\r\r\n\ry\n", "日本\n語"] {
        let expected: Vec<String> = text.lines().map(|line| line.to_string()).collect();
        assert_eq!(lines(text), expected, "{:?}", text);
    }
}

#[test]
fn trimming_takes_white_space_from_both_ends() {
    assert_eq!(trim(""), "");
    assert_eq!(trim(" \t\r\n"), "");
    assert_eq!(trim("a"), "a");
    assert_eq!(trim("  a b  "), "a b");
    assert_eq!(trim("\u{3000}a\u{a0}b\u{2028}\n"), "a\u{a0}b");
    assert_eq!(trim("\u{200b} a"), "\u{200b} a");
}

#[test]
fn trimming_is_that_of_the_standard_library() {
    for text in ["", " ", "a ", " a", "\t a \u{85}b\u{1680} \r\n", "\u{feff} x ", "\u{2000}\u{2001}"] {
        assert_eq!(trim(text), text.trim(), "{:?}", text);
    }
}

#[test]
fn containing_is_a_substring_test() {
    assert!(contains("", ""));
    assert!(contains("abc", ""));
    assert!(contains("abc", "abc"));
    assert!(contains("abc", "a"));
    assert!(contains("abc", "bc"));
    assert!(contains("aab", "ab"));
    assert!(contains("ababac", "abac"));
    assert!(!contains("", "a"));
    assert!(!contains("abc", "abcd"));
    assert!(!contains("abc", "ac"));
    assert!(!contains("abc", "cb"));
    assert!(!contains("abc", "B"));
}

#[test]
fn containing_is_that_of_the_standard_library() {
    let texts = ["", "a", "ab", "aab", "abab", "ba", "日本語", "x日"];
    for text in texts {
        for pattern in texts {
            assert_eq!(contains(text, pattern), text.contains(pattern), "{:?} {:?}", text, pattern);
        }
    }
}
