use wikicorpus::text::{
    chars_of, contains, is_whitespace, lines, parse_i64, replace, same_bytes, same_text,
    starts_with, string_of, trim,
};

#[test]
fn replace_takes_occurrences_from_the_left() {
    assert_eq!(replace("aaa", "aa", "b"), "ba");
    assert_eq!(replace(",,,", ",,", ","), ",,");
    assert_eq!(replace("abcabc", "bc", "X"), "aXaX");
    assert_eq!(replace("abc", "", "X"), "abc");
    assert_eq!(replace("", "a", "X"), "");
    assert_eq!(replace("ab", "abc", "X"), "ab");
    assert_eq!(replace("<<a>>", "<<", "«"), "«a>>");
}

#[test]
fn replace_agrees_with_std_on_patterns_that_are_not_empty() {
    let texts = ["", "a", "aaaa", "abab", "，，，。", "x<<y>>z<<", "\t\ta\tb"];
    let patterns = ["a", "aa", "ab", "，，", "<<", "\t", "zzz"];
    for text in texts {
        for pattern in patterns {
            assert_eq!(replace(text, pattern, "--"), text.replace(pattern, "--"));
        }
    }
}

#[test]
fn contains_finds_a_pattern_anywhere() {
    assert!(contains("see zh-tw: here", "zh-tw:"));
    assert!(contains("zh-tw:", "zh-tw:"));
    assert!(!contains("zh-tw", "zh-tw:"));
    assert!(contains("abc", ""));
    assert!(contains("", ""));
    assert!(!contains("", "a"));
}

#[test]
fn whitespace_is_what_std_takes_for_it() {
    let mut code = 0u32;
    while code <= 0x10ffff {
        if let Some(c) = char::from_u32(code) {
            assert_eq!(is_whitespace(c), c.is_whitespace(), "U+{:04X}", code);
        }
        code += 1;
    }
}

#[test]
fn trim_drops_white_space_at_both_ends() {
    assert_eq!(trim("  a b \n"), "a b");
    assert_eq!(trim("\u{3000}中文\u{3000}"), "中文");
    assert_eq!(trim("   "), "");
    assert_eq!(trim(""), "");
    assert_eq!(trim("a"), "a");
}

#[test]
fn lines_are_the_runs_between_line_feeds() {
    let split = |text: &str| -> Vec<String> {
        lines(&chars_of(text)).iter().map(string_of).collect()
    };
    assert_eq!(split("a\nb"), vec!["a", "b"]);
    assert_eq!(split("a\n"), vec!["a"]);
    assert_eq!(split("a\n\nb"), vec!["a", "", "b"]);
    assert_eq!(split("\n"), vec![""]);
    assert_eq!(split(""), Vec::<String>::new());
}

#[test]
fn numerals_are_read_as_std_reads_them() {
    let numerals = [
        "0", "7", "-7", "+7", "007", "-0", "", "-", "+", "1 ", " 1", "1a", "--1", "45",
        "9223372036854775807", "9223372036854775808", "-9223372036854775808",
        "-9223372036854775809", "99999999999999999999999999", "１２",
    ];
    for numeral in numerals {
        assert_eq!(parse_i64(numeral), numeral.parse::<i64>().ok(), "{:?}", numeral);
    }
    assert_eq!(parse_i64("45"), Some(45));
    assert_eq!(parse_i64("-9223372036854775808"), Some(i64::MIN));
    assert_eq!(parse_i64("9223372036854775808"), None);
}

#[test]
fn bytes_and_texts_are_compared() {
    assert!(starts_with(b"/index.php/File:x", b"/index.php/File:"));
    assert!(!starts_with(b"/index", b"/index.php"));
    assert!(starts_with(b"abc", b""));
    assert!(same_bytes(b"page", b"page"));
    assert!(!same_bytes(b"page", b"pages"));
    assert!(same_text("0", "0"));
    assert!(!same_text("0", "00"));
    assert!(!same_text("0", "1"));
}
