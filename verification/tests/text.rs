use git_branchless_submit::text::{
    characters, cut_after_last, find_text, join, parse_usize, starts_with, trim, white_space,
    write_decimal,
};

#[test]
fn text_is_found_where_it_stands_first() {
    assert_eq!(find_text("abcabc", "bc"), Some(1));
    assert_eq!(find_text("➡️abc", "abc"), Some(2));
    assert_eq!(find_text("aab", "ab"), Some(1));
    assert_eq!(find_text("abc", "abcd"), None);
    assert_eq!(find_text("abc", "x"), None);
    assert_eq!(find_text("abc", ""), Some(0));
    assert_eq!(find_text("", "a"), None);
}

#[test]
fn prefixes() {
    assert!(starts_with("branchless/pr1", "branchless/"));
    assert!(starts_with("a", ""));
    assert!(!starts_with("a", "ab"));
    assert!(!starts_with("main", "branchless/"));
}

#[test]
fn cutting_behind_the_last_mark() {
    assert_eq!(cut_after_last("https://github.com/o/r/issues/12", '/'), Some("12"));
    assert_eq!(cut_after_last("a/", '/'), Some(""));
    assert_eq!(cut_after_last("", '/'), None);
    assert_eq!(cut_after_last("abc", '/'), None);
}

#[test]
fn numbers_are_read_as_the_standard_library_reads_them() {
    let texts = [
        "0", "7", "12", "+12", "0012", "", "+", "-", "-1", " 1", "1 ", "1a", "++1", "1+", "١",
        "18446744073709551615", "18446744073709551616", "99999999999999999999999",
        "99999999999999999999999x", "000000000000000000000000000001",
    ];
    for text in texts {
        assert_eq!(parse_usize(text), text.parse::<usize>().ok(), "{}", text);
    }
}

#[test]
fn numbers_are_written_and_read_back() {
    for number in [0, 1, 9, 10, 11, 99, 100, 1234567890, usize::MAX] {
        assert_eq!(write_decimal(number), number.to_string());
        assert_eq!(parse_usize(&write_decimal(number)), Some(number));
    }
}

#[test]
fn white_space_is_what_the_standard_library_takes_for_it() {
    for code in 0..=0x10ffff {
        if let Some(c) = char::from_u32(code) {
            assert_eq!(white_space(c), c.is_whitespace());
        }
    }
}

#[test]
fn white_space_is_cut_off_on_both_sides() {
    for text in ["", " ", "a", " a b\n", "\u{a0}\u{2003}x\u{3000}\t", "\r\n\r\n", "é "] {
        assert_eq!(trim(text), text.trim());
    }
}

#[test]
fn joining() {
    assert_eq!(join(&vec![], " "), "");
    assert_eq!(join(&vec!["a".to_string()], " "), "a");
    assert_eq!(join(&vec!["a".to_string(), "".to_string(), "b".to_string()], ", "), "a, , b");
}

#[test]
fn characters_of_a_text() {
    assert_eq!(characters("aé➡"), vec!['a', 'é', '➡']);
}
