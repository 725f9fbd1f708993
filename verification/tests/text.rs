use onion_crawler_core::number::parse_u64;
use onion_crawler_core::paths::{clean_paths, is_gzip_name};
use onion_crawler_core::text::{
    chars_of, find_char_from, find_last_char, find_text, has_prefix, is_whitespace, matches_at,
    strip_whitespace, trim, trim_bounds,
};

fn parse(text: &str) -> Option<u64> {
    let chars = chars_of(text);
    parse_u64(&chars, 0, chars.len())
}

#[test]
fn whitespace_is_the_unicode_property() {
    for code in 0..=0x10ffffu32 {
        if let Some(c) = char::from_u32(code) {
            assert_eq!(is_whitespace(c), c.is_whitespace());
        }
    }
}

#[test]
fn text_is_trimmed_at_both_ends() {
    for text in ["", "  ", " a b ", "\u{3000}a\u{e9}\u{2028}", "a", "\ta", "a\r\n"] {
        assert_eq!(trim(text), text.trim());
    }
    assert_eq!(trim_bounds(&chars_of("  ab ")), (2, 4));
}

#[test]
fn whitespace_is_stripped_from_a_position_on() {
    assert_eq!(strip_whitespace(&chars_of("a b\tc\u{a0}"), 0), vec!['a', 'b', 'c']);
    assert_eq!(strip_whitespace(&chars_of("a b c"), 2), vec!['b', 'c']);
    assert_eq!(strip_whitespace(&chars_of("ab"), 2), Vec::<char>::new());
}

#[test]
fn characters_and_patterns_are_found() {
    let chars = chars_of("\u{e4}://b/c://");
    assert_eq!(find_text(&chars, "://"), Some(1));
    assert_eq!(find_text(&chars, "x"), None);
    assert_eq!(find_text(&chars, ""), Some(0));
    assert_eq!(find_text(&Vec::new(), ""), Some(0));
    assert_eq!(find_char_from(&chars, '/', 4), Some(5));
    assert_eq!(find_char_from(&chars, 'x', 0), None);
    assert_eq!(find_last_char(&chars, '/'), Some(9));
    assert_eq!(find_last_char(&chars, 'x'), None);
    assert!(has_prefix(&chars, "\u{e4}:"));
    assert!(!has_prefix(&chars, "a"));
    assert!(matches_at(&chars, &chars_of("b/"), 4));
    assert!(!matches_at(&chars, &chars_of("///"), 8));
}

#[test]
fn numbers_are_parsed_as_the_standard_library_does() {
    for text in [
        "", "+", "-", "0", "-0", "+7", "007", "12a", "a12", " 1", "1 ", "++1", "1+", "\u{661}",
        "18446744073709551615", "18446744073709551616", "99999999999999999999",
        "000000000000000000000000000001",
    ] {
        assert_eq!(parse(text), text.parse::<u64>().ok());
    }
}

#[test]
fn numbers_are_parsed_between_bounds() {
    let chars = chars_of("ab123c");
    assert_eq!(parse_u64(&chars, 2, 5), Some(123));
    assert_eq!(parse_u64(&chars, 2, 2), None);
    assert_eq!(parse_u64(&chars, 2, 6), None);
}

#[test]
fn compressed_lists_are_told_by_name() {
    assert!(is_gzip_name("warc.paths.gz"));
    assert!(is_gzip_name(".gz"));
    assert!(!is_gzip_name("warc.paths"));
    assert!(!is_gzip_name("gz"));
    assert!(!is_gzip_name("a.GZ"));
}

#[test]
fn listed_paths_are_trimmed_and_never_blank() {
    let lines = vec!["  a/b.warc.gz ", "", "\t", "c\u{a0}", "d e"];
    let lines: Vec<String> = lines.into_iter().map(String::from).collect();
    assert_eq!(clean_paths(lines), vec!["a/b.warc.gz", "c", "d e"]);
    assert_eq!(clean_paths(Vec::new()), Vec::<String>::new());
}
