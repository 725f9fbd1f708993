use onion_crawler_core::ascii::{
    ascii_bytes, eq_ignore_ascii_case, is_ascii_whitespace, to_ascii_lowercase, trim_end_ascii,
};
use onion_crawler_core::opening::{find_opening_from, TagOpening};
use onion_crawler_core::search::{find_byte_from, find_subslice_from};
use onion_crawler_core::tag::{
    extract_attribute, extract_quoted_or_bare_value, find_tag_end, MAX_TAG_LEN,
};

#[test]
fn bytes_are_found_from_a_position_on() {
    assert_eq!(find_byte_from(b"a=b=c", b'=', 0), Some(1));
    assert_eq!(find_byte_from(b"a=b=c", b'=', 2), Some(3));
    assert_eq!(find_byte_from(b"a=b=c", b'=', 4), None);
    assert_eq!(find_byte_from(b"", b'=', 0), None);
}

#[test]
fn patterns_are_found_from_a_position_on() {
    assert_eq!(find_subslice_from(b"x<link <link ", b"<link ", 0), Some(1));
    assert_eq!(find_subslice_from(b"x<link <link ", b"<link ", 2), Some(7));
    assert_eq!(find_subslice_from(b"x<link <link ", b"<link ", 8), None);
    assert_eq!(find_subslice_from(b"abc", b"", 3), Some(3));
    assert_eq!(find_subslice_from(b"ab", b"abc", 0), None);
}

#[test]
fn tag_ends_at_its_first_unquoted_close() {
    assert_eq!(find_tag_end(b"<a>b>", 0), Some(3));
    assert_eq!(find_tag_end(b"xx<a>", 2), Some(5));
    assert_eq!(find_tag_end(br#"<a b="c>d">e"#, 0), Some(11));
    assert_eq!(find_tag_end(b"<a b='c>d'>e", 0), Some(11));
    assert_eq!(find_tag_end(br#"<a b="it's">'>"#, 0), Some(12));
}

#[test]
fn tag_without_close_has_no_end() {
    assert_eq!(find_tag_end(b"", 0), None);
    assert_eq!(find_tag_end(b"<a", 0), None);
    assert_eq!(find_tag_end(br#"<a b=">"#, 0), None);
    assert_eq!(find_tag_end(b"<a>", 3), None);
    assert_eq!(find_tag_end(b"<a>", usize::MAX), None);
}

#[test]
fn tag_closes_within_reach() {
    assert_eq!(MAX_TAG_LEN, 4096);
    let mut body = vec![b'x'; 4095];
    body.push(b'>');
    assert_eq!(find_tag_end(&body, 0), Some(4096));
    body.insert(0, b'x');
    assert_eq!(find_tag_end(&body, 0), None);
    assert_eq!(find_tag_end(&body, 1), Some(4097));
}

#[test]
fn quoted_values_are_read() {
    assert_eq!(extract_quoted_or_bare_value(br#"a="b c">"#, 2), Some(&b"b c"[..]));
    assert_eq!(extract_quoted_or_bare_value(b"a= \t'b\"c'>", 2), Some(&b"b\"c"[..]));
    assert_eq!(extract_quoted_or_bare_value(b"a=''>", 2), Some(&b""[..]));
    assert_eq!(extract_quoted_or_bare_value(b"a='b>", 2), None);
}

#[test]
fn bare_values_end_at_whitespace_or_close() {
    assert_eq!(extract_quoted_or_bare_value(b"a=b c>", 2), Some(&b"b"[..]));
    assert_eq!(extract_quoted_or_bare_value(b"a=b>", 2), Some(&b"b"[..]));
    assert_eq!(extract_quoted_or_bare_value(b"a=/b/c.png>", 2), Some(&b"/b/c.png"[..]));
    assert_eq!(extract_quoted_or_bare_value(b"a=b", 2), Some(&b"b"[..]));
    assert_eq!(extract_quoted_or_bare_value(b"a=>", 2), None);
    assert_eq!(extract_quoted_or_bare_value(b"a=  ", 2), None);
    assert_eq!(extract_quoted_or_bare_value(b"a=", 9), None);
}

#[test]
fn attributes_are_found_by_name() {
    let tag = br#"<link rel="icon" HREF = '/a.png' sizes=16x16>"#;
    assert_eq!(extract_attribute(tag, b"rel"), Some(&b"icon"[..]));
    assert_eq!(extract_attribute(tag, b"href"), Some(&b"/a.png"[..]));
    assert_eq!(extract_attribute(tag, b"Sizes"), Some(&b"16x16"[..]));
    assert_eq!(extract_attribute(tag, b"size"), None);
    assert_eq!(extract_attribute(tag, b"zes"), None);
    assert_eq!(extract_attribute(b"<a>", b"href"), None);
    assert_eq!(extract_attribute(b"", b"href"), None);
}

#[test]
fn first_attribute_of_a_name_counts() {
    assert_eq!(extract_attribute(b"<a x=1 x=2>", b"x"), Some(&b"1"[..]));
    assert_eq!(extract_attribute(b"<a x= >", b"x"), None);
}

#[test]
fn names_are_matched_as_a_whole() {
    assert_eq!(extract_attribute(b"<a data-x=1 x=2>", b"x"), Some(&b"2"[..]));
    assert_eq!(extract_attribute(b"x=1", b"x"), Some(&b"1"[..]));
}

#[test]
fn trailing_whitespace_is_trimmed() {
    assert_eq!(trim_end_ascii(b"ab \t\r\n\x0c"), b"ab");
    assert_eq!(trim_end_ascii(b" a b"), b" a b");
    assert_eq!(trim_end_ascii(b" \n"), b"");
    assert_eq!(trim_end_ascii(b"a\x0b"), b"a\x0b");
}

#[test]
fn case_of_letters_is_ignored() {
    assert!(eq_ignore_ascii_case(b"Tile-Image", b"tILE-iMAGE"));
    assert!(!eq_ignore_ascii_case(b"a", b"ab"));
    assert!(!eq_ignore_ascii_case(b"[", b"{"));
    assert_eq!(to_ascii_lowercase(b'Z'), b'z');
    assert_eq!(to_ascii_lowercase(b'@'), b'@');
    assert_eq!(to_ascii_lowercase(0xc4), 0xc4);
}

#[test]
fn ascii_whitespace_is_five_bytes() {
    for b in 0..=255u8 {
        assert_eq!(is_ascii_whitespace(b), b.is_ascii_whitespace());
    }
    assert_eq!(ascii_bytes("<link "), b"<link ");
}

#[test]
fn nothing_inside_a_value_is_an_attribute() {
    let tag = br#"<link title="a href=x" rel="icon">"#;
    assert_eq!(extract_attribute(tag, b"href"), None);
    assert_eq!(extract_attribute(tag, b"rel"), Some(&b"icon"[..]));
    assert_eq!(extract_attribute(tag, b"title"), Some(&b"a href=x"[..]));
    assert_eq!(extract_attribute(b"<a x=b=c y=d>", b"b"), None);
    assert_eq!(extract_attribute(b"<a x=b=c y=d>", b"x"), Some(&b"b=c"[..]));
    assert_eq!(extract_attribute(b"<a x=b=c y=d>", b"y"), Some(&b"d"[..]));
    assert_eq!(extract_attribute(b"<a x=' y=1' z=2>", b"y"), None);
    assert_eq!(extract_attribute(b"<a x=' y=1 z=2>", b"y"), None);
    assert_eq!(extract_attribute(b"<a x= y=1>", b"y"), None);
}

#[test]
fn names_stand_behind_whitespace() {
    assert_eq!(extract_attribute(br#"<link title=href="x">"#, b"href"), None);
    assert_eq!(extract_attribute(br#"<a x="1"y="2">"#, b"y"), None);
    assert_eq!(extract_attribute(br#"<a x="1" y="2">"#, b"y"), Some(&b"2"[..]));
}

#[test]
fn openings_are_found_in_their_spellings() {
    let body = b"<lin<LINK <Link <link <linK ";
    assert_eq!(find_opening_from(body, &TagOpening::Exact(b"<link "), 0), Some(16));
    assert_eq!(find_opening_from(body, &TagOpening::Exact(b"<LINK "), 0), Some(4));
    let mixed = TagOpening::Mixed(b"<link ");
    assert_eq!(find_opening_from(body, &mixed, 0), Some(10));
    assert_eq!(find_opening_from(body, &mixed, 11), Some(22));
    assert_eq!(find_opening_from(body, &mixed, 23), None);
    assert_eq!(find_opening_from(b"", &mixed, 0), None);
    assert_eq!(find_opening_from(b"xaB", &TagOpening::Mixed(b"ab"), 0), Some(1));
    assert_eq!(find_opening_from(b"ab", &TagOpening::Mixed(b""), 0), None);
}
