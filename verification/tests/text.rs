use math_lib::text::{
    chars_of, decimal_of, find_char, is_whitespace, parse_number, slice_of, split_at_char,
    split_lines, string_of, trimmed,
};

fn chars(s: &str) -> Vec<char> {
    s.chars().collect()
}

#[test]
fn characters_and_back() {
    assert_eq!(chars_of("a\u{1D6FC}b"), vec!['a', '\u{1D6FC}', 'b']);
    assert_eq!(string_of(&chars("a\u{1D6FC}b")), "a\u{1D6FC}b");
    assert_eq!(string_of(&vec![]), "");
    assert_eq!(slice_of(&chars("abcd"), 1, 3), chars("bc"));
}

#[test]
fn white_space_is_the_unicode_set() {
    for c in ['\t', '\n', '\u{0B}', '\u{0C}', '\r', ' ', '\u{85}', '\u{A0}', '\u{1680}', '\u{2000}',
        '\u{200A}', '\u{2028}', '\u{2029}', '\u{202F}', '\u{205F}', '\u{3000}']
    {
        assert!(is_whitespace(c));
        assert!(c.is_whitespace());
    }
    for c in ['a', '0', '\u{200B}', '\u{180E}', '\u{8}', '\u{E}', '\u{1F}'] {
        assert!(!is_whitespace(c));
        assert!(!c.is_whitespace());
    }
}

#[test]
fn trimming() {
    assert_eq!(trimmed(&chars("  a b\t\n")), chars("a b"));
    assert_eq!(trimmed(&chars("   ")), chars(""));
    assert_eq!(trimmed(&chars("")), chars(""));
    assert_eq!(trimmed(&chars("x")), chars("x"));
}

#[test]
fn finding_and_splitting() {
    assert_eq!(find_char(&chars("a;b;c"), 0, ';'), 1);
    assert_eq!(find_char(&chars("a;b;c"), 2, ';'), 3);
    assert_eq!(find_char(&chars("a;b;c"), 4, ';'), 5);
    assert_eq!(
        split_at_char(&chars("a,,b,"), ','),
        vec![chars("a"), chars(""), chars("b"), chars("")]
    );
    assert_eq!(split_at_char(&chars(""), ','), vec![chars("")]);
}

#[test]
fn lines_are_split_as_the_standard_library_does() {
    for text in ["", "a", "a\n", "a\nb", "a\r\nb\r\n", "a\r", "\n\na", "a\n\r\n", "\r\n", "a\rb\n"] {
        let expected: Vec<Vec<char>> = text.lines().map(|l| l.chars().collect()).collect();
        assert_eq!(split_lines(&chars(text)), expected);
    }
}

#[test]
fn numbers_are_read_as_the_standard_library_does() {
    for text in ["0", "7", "007", "+12", "18446744073709551615", "18446744073709551616", "", "+",
        "-1", "1 ", " 1", "1a", "++1", "99999999999999999999999"]
    {
        assert_eq!(parse_number(&chars(text)), text.parse::<usize>().ok());
    }
    assert_eq!(parse_number(&chars("1234567890")), Some(1234567890));
}

#[test]
fn numbers_are_written_in_base_ten() {
    assert_eq!(decimal_of(0), chars("0"));
    assert_eq!(decimal_of(9), chars("9"));
    assert_eq!(decimal_of(10), chars("10"));
    assert_eq!(decimal_of(4096), chars("4096"));
    assert_eq!(decimal_of(usize::MAX), chars(&usize::MAX.to_string()));
}
