use onion_crawler_core::favicon_search::{
    extract_favicons, link_reference, marks_favicon, meta_reference, process_favicon_value,
    scan_link_tags, scan_meta_tags, FaviconRef, FaviconResult,
};
use onion_crawler_core::opening::TagOpening;

#[test]
fn basic_link_icon() {
    let html = br#"<html><head><link rel="icon" href="/favicon.png"></head></html>"#;
    let result = extract_favicons(html, "https://example.com/page");
    assert!(result.urls.iter().any(|u| u == "https://example.com/favicon.png"));
}

#[test]
fn shortcut_icon() {
    let html = br#"<link rel="shortcut icon" href="/icons/fav.ico">"#;
    let result = extract_favicons(html, "https://example.com/");
    assert!(result.urls.iter().any(|u| u == "https://example.com/icons/fav.ico"));
}

#[test]
fn apple_touch_icon() {
    let html = br#"<link rel="apple-touch-icon" href="/apple-icon.png">"#;
    let result = extract_favicons(html, "https://example.com/");
    assert!(result.urls.iter().any(|u| u == "https://example.com/apple-icon.png"));
}

#[test]
fn mask_icon() {
    let html = br#"<link rel="mask-icon" href="/safari-pinned.svg">"#;
    let result = extract_favicons(html, "https://example.com/");
    assert!(result.urls.iter().any(|u| u == "https://example.com/safari-pinned.svg"));
}

#[test]
fn msapplication_tile_image() {
    let html = br#"<meta name="msapplication-TileImage" content="/icons/tile.png">"#;
    let result = extract_favicons(html, "https://example.com/");
    assert!(result.urls.iter().any(|u| u == "https://example.com/icons/tile.png"));
}

#[test]
fn fallback_favicon_ico_always_present() {
    let html = b"<html><head><title>No icons</title></head></html>";
    let result = extract_favicons(html, "https://example.com/page/deep");
    assert!(result.urls.iter().any(|u| u == "https://example.com/favicon.ico"));
}

#[test]
fn fallback_not_duplicated_when_explicit() {
    let html = br#"<link rel="icon" href="/favicon.ico">"#;
    let result = extract_favicons(html, "https://example.com/");
    let count = result.urls.iter().filter(|u| u.as_str() == "https://example.com/favicon.ico").count();
    assert_eq!(count, 1, "favicon.ico should not be duplicated");
}

#[test]
fn inline_data_uri_decoded() {
    // "hello" in base64 = "aGVsbG8="
    let html = br#"<link rel="icon" href="data:image/png;base64,aGVsbG8=">"#;
    let result = extract_favicons(html, "https://example.com/");
    assert_eq!(result.inline_favicons.len(), 1);
    assert_eq!(result.inline_favicons[0], b"hello");
}

#[test]
fn absolute_url_left_as_is() {
    let html = br#"<link rel="icon" href="https://cdn.other.com/favicon.png">"#;
    let result = extract_favicons(html, "https://example.com/");
    assert!(result.urls.iter().any(|u| u == "https://cdn.other.com/favicon.png"));
}

#[test]
fn protocol_relative_url() {
    let html = br#"<link rel="icon" href="//cdn.example.com/fav.ico">"#;
    let result = extract_favicons(html, "https://example.com/");
    assert!(result.urls.iter().any(|u| u == "https://cdn.example.com/fav.ico"));
}

#[test]
fn relative_url_resolved() {
    let html = br#"<link rel="icon" href="images/fav.png">"#;
    let result = extract_favicons(html, "https://example.com/blog/post");
    assert!(result.urls.iter().any(|u| u == "https://example.com/blog/images/fav.png"));
}

#[test]
fn single_quoted_attributes() {
    let html = br#"<link rel='icon' href='/favicon.png'>"#;
    let result = extract_favicons(html, "https://example.com/");
    assert!(result.urls.iter().any(|u| u == "https://example.com/favicon.png"));
}

#[test]
fn multiple_favicons_all_extracted() {
    let html = br#"
            <link rel="icon" href="/icon1.png">
            <link rel="apple-touch-icon" href="/icon2.png">
            <meta name="msapplication-TileImage" content="/icon3.png">
        "#;
    let result = extract_favicons(html, "https://example.com/");
    // 3 explicit + 1 fallback favicon.ico
    assert!(result.urls.len() >= 3);
    assert!(result.urls.iter().any(|u| u.ends_with("icon1.png")));
    assert!(result.urls.iter().any(|u| u.ends_with("icon2.png")));
    assert!(result.urls.iter().any(|u| u.ends_with("icon3.png")));
}

#[test]
fn non_favicon_link_tags_ignored() {
    let html = br#"
            <link rel="stylesheet" href="/style.css">
            <link rel="canonical" href="https://example.com/">
        "#;
    let result = extract_favicons(html, "https://example.com/");
    // Only the fallback favicon.ico
    assert_eq!(result.urls.len(), 1);
    assert!(result.urls[0].ends_with("/favicon.ico"));
}

#[test]
fn empty_body() {
    let result = extract_favicons(b"", "https://example.com/");
    assert_eq!(result.urls.len(), 1); // Just the fallback
    assert!(result.urls[0].ends_with("/favicon.ico"));
}

#[test]
fn case_insensitive_rel() {
    let html = br#"<LINK REL="ICON" HREF="/fav.png">"#;
    let result = extract_favicons(html, "https://example.com/");
    assert!(result.urls.iter().any(|u| u.ends_with("fav.png")));
}

#[test]
fn result_lists_everything_in_scan_order() {
    let html = br#"<META NAME="msapplication-tileimage" CONTENT="/d.png">
        <meta name="msapplication-TileImage" content="/c.png">
        <LINK REL="Mask-Icon" HREF="/b.png">
        <link rel="icon" href="/a.png">
        <link rel="icon" href="data:image/png;base64,aGk=">"#;
    let result = extract_favicons(html, "https://example.com/dir/page");
    assert_eq!(
        result.urls,
        vec![
            "https://example.com/a.png",
            "https://example.com/b.png",
            "https://example.com/c.png",
            "https://example.com/d.png",
            "https://example.com/favicon.ico",
        ]
    );
    assert_eq!(result.inline_favicons, vec![b"hi".to_vec()]);
}

#[test]
fn default_result_is_empty() {
    let result = FaviconResult::default();
    assert!(result.urls.is_empty());
    assert!(result.inline_favicons.is_empty());
}

#[test]
fn favicon_ref_holds_what_it_was_given() {
    let reference = FaviconRef { url: "/x.png".to_string(), inline_data: Some(vec![1, 2]) };
    let copy = reference.clone();
    assert_eq!(copy.url, "/x.png");
    assert_eq!(copy.inline_data, Some(vec![1, 2]));
}

#[test]
fn page_without_scheme_has_no_default_location() {
    let result = extract_favicons(b"<p>nothing</p>", "example.com/page");
    assert!(result.urls.is_empty());
    let result = extract_favicons(br#"<link rel=icon href="x.png">"#, "example.com/page");
    assert_eq!(result.urls, vec!["x.png"]);
}

#[test]
fn unquoted_attributes_are_read() {
    let html = b"<link rel=icon href=/icons/fav.png><link rel=icon href=fav.png >";
    let result = extract_favicons(html, "https://example.com/a/b");
    assert_eq!(
        result.urls,
        vec![
            "https://example.com/icons/fav.png",
            "https://example.com/a/fav.png",
            "https://example.com/favicon.ico",
        ]
    );
}

#[test]
fn close_inside_quotes_does_not_end_a_tag() {
    let html = br#"<link data-x="a>b" rel="icon" href='/q>r".png'>"#;
    let result = extract_favicons(html, "https://example.com/");
    assert_eq!(result.urls[0], "https://example.com/q>r\".png");
}

#[test]
fn scan_stops_at_an_unclosed_tag() {
    let html = br#"<link rel="icon" href="/a.png"><link rel="icon <link rel=icon href=/b.png>"#;
    let result = extract_favicons(html, "https://example.com/");
    assert_eq!(
        result.urls,
        vec!["https://example.com/a.png", "https://example.com/favicon.ico"]
    );
}

#[test]
fn overlong_tag_ends_the_scan() {
    let mut html = b"<link rel=\"icon\" href=\"/".to_vec();
    html.extend(vec![b'x'; 4096]);
    html.extend(b"\"><link rel=\"icon\" href=\"/b.png\">");
    let result = extract_favicons(&html, "https://example.com/");
    assert_eq!(result.urls, vec!["https://example.com/favicon.ico"]);
}

#[test]
fn mixed_case_tag_names_are_scanned() {
    let result =
        extract_favicons(br#"<Link rel="icon" href="/a.png">"#, "https://example.com/");
    assert_eq!(
        result.urls,
        vec!["https://example.com/a.png", "https://example.com/favicon.ico"]
    );
    let html = br#"<mEta name="msapplication-TileImage" content="/b.png">"#;
    let result = extract_favicons(html, "https://example.com/");
    assert_eq!(
        result.urls,
        vec!["https://example.com/b.png", "https://example.com/favicon.ico"]
    );
}

#[test]
fn mixed_case_tags_come_behind_the_others() {
    let html = br#"<lINK rel="icon" href="m1"><liNk rel="icon" href="m2">
        <LINK rel="icon" href="u"><link rel="icon" href="l">
        <Meta name="msapplication-TileImage" content="mm">
        <META name="msapplication-TileImage" content="mu">
        <meta name="msapplication-TileImage" content="ml">"#;
    let result = extract_favicons(html, "no scheme");
    assert_eq!(result.urls, vec!["l", "u", "m1", "m2", "ml", "mu", "mm"]);
}

#[test]
fn other_tag_names_are_not_scanned() {
    let html = br#"<Linka rel="icon" href="a"><Lin rel="icon" href="b">< Link rel="icon" href="c"><Link"#;
    assert!(extract_favicons(html, "no scheme").urls.is_empty());
}

#[test]
fn reference_inside_another_value_is_none() {
    let html = br#"<link title="a href=x" rel="icon"><link title="rel=icon href=y" href="z">"#;
    assert!(extract_favicons(html, "no scheme").urls.is_empty());
    let html = br#"<link title=" href=x rel=next " rel="icon" href="y=z">"#;
    assert_eq!(extract_favicons(html, "no scheme").urls, vec!["y=z"]);
}

#[test]
fn prefixed_attribute_names_do_not_match() {
    let html = br#"<link rel="icon" data-href="/no.png" href="/yes.png">"#;
    let result = extract_favicons(html, "https://e.com/");
    assert_eq!(result.urls[0], "https://e.com/yes.png");
}

#[test]
fn url_in_several_tags_is_listed_once() {
    let html = br#"<link rel="icon" href="/a.png"><link rel="mask-icon" href="https://e.com/a.png">"#;
    let result = extract_favicons(html, "https://e.com/");
    assert_eq!(result.urls, vec!["https://e.com/a.png", "https://e.com/favicon.ico"]);
}

#[test]
fn page_without_tags_has_the_default_location_only() {
    let result = extract_favicons(b"<linker rel=icon><metal>", "http://e.com");
    assert_eq!(result.urls, vec!["http://e.com/favicon.ico"]);
    assert!(result.inline_favicons.is_empty());
}

#[test]
fn process_skips_what_is_no_text_or_blank() {
    let mut result = FaviconResult::default();
    process_favicon_value(&[0xff, 0xfe], "https://e.com/", &mut result);
    process_favicon_value(&[0x61, 0xc3], "https://e.com/", &mut result);
    process_favicon_value(b"", "https://e.com/", &mut result);
    process_favicon_value(b" \t\n", "https://e.com/", &mut result);
    assert!(result.urls.is_empty());
    assert!(result.inline_favicons.is_empty());
}

#[test]
fn process_trims_and_decodes_text() {
    let mut result = FaviconResult::default();
    process_favicon_value(" \u{a0}/\u{e4}.png\u{2003} ".as_bytes(), "https://e.com/", &mut result);
    assert_eq!(result.urls, vec!["https://e.com/\u{e4}.png"]);
}

#[test]
fn process_data_uris() {
    let mut result = FaviconResult::default();
    // No comma, a broken symbol, and no content add nothing.
    process_favicon_value(b"data:image/png;base64", "https://e.com/", &mut result);
    process_favicon_value(b"data:,ab!d", "https://e.com/", &mut result);
    process_favicon_value(b"data:image/png;base64,", "https://e.com/", &mut result);
    process_favicon_value(b"data:,=aGk=", "https://e.com/", &mut result);
    assert!(result.inline_favicons.is_empty());
    // Whitespace in the data does not count, and the data begins at the first comma.
    process_favicon_value(b"data:image/png;base64, aG\n Vs bG8=", "https://e.com/", &mut result);
    assert_eq!(result.inline_favicons, vec![b"hello".to_vec()]);
    process_favicon_value(b"data:a,b,c", "https://e.com/", &mut result);
    assert_eq!(result.inline_favicons.len(), 1);
    // Inline favicons are not told apart.
    process_favicon_value(b"data:,aGVsbG8=", "https://e.com/", &mut result);
    assert_eq!(result.inline_favicons.len(), 2);
    assert!(result.urls.is_empty());
}

#[test]
fn upper_case_data_prefix_is_a_reference() {
    let mut result = FaviconResult::default();
    process_favicon_value(b"DATA:,aGk=", "https://e.com/x/", &mut result);
    assert_eq!(result.urls, vec!["https://e.com/x/DATA:,aGk="]);
}

#[test]
fn rel_values_that_mark_favicons() {
    for rel in ["icon", "Shortcut Icon", "MASK-ICON", "apple-touch-icon"] {
        assert!(marks_favicon(rel.as_bytes()));
    }
    for rel in ["", "icons", "shortcut  icon", "apple-touch-icon-precomposed", "stylesheet"] {
        assert!(!marks_favicon(rel.as_bytes()));
    }
}

#[test]
fn references_of_single_tags() {
    assert_eq!(link_reference(b"<link rel='icon' href='a'>"), Some(&b"a"[..]));
    assert_eq!(link_reference(b"<link rel='next' href='a'>"), None);
    assert_eq!(link_reference(b"<link href='a'>"), None);
    assert_eq!(link_reference(b"<link rel='icon'>"), None);
    assert_eq!(
        meta_reference(b"<meta content=t.png name=MSAPPLICATION-TILEIMAGE>"),
        Some(&b"t.png"[..])
    );
    assert_eq!(meta_reference(b"<meta name='viewport' content='x'>"), None);
    assert_eq!(meta_reference(b"<meta name='msapplication-TileImage'>"), None);
}

#[test]
fn scanners_add_to_what_is_there() {
    let html = br#"<link rel="icon" href="a"><meta name="msapplication-TileImage" content="b">"#;
    let mut result = FaviconResult::default();
    result.urls.push("z".to_string());
    scan_link_tags(html, &TagOpening::Exact(b"<link "), "p", &mut result);
    assert_eq!(result.urls, vec!["z", "a"]);
    scan_meta_tags(html, &TagOpening::Exact(b"<meta "), "p", &mut result);
    assert_eq!(result.urls, vec!["z", "a", "b"]);
    scan_link_tags(html, &TagOpening::Exact(b"<LINK "), "p", &mut result);
    scan_link_tags(html, &TagOpening::Mixed(b"<link "), "p", &mut result);
    assert_eq!(result.urls, vec!["z", "a", "b"]);
}
