use onion_crawler_core::url::{build_root_favicon_url, resolve_url};

#[test]
fn resolve_absolute() {
    assert_eq!(
        resolve_url("https://a.com/x", "https://b.com/y"),
        "https://b.com/y"
    );
}

#[test]
fn resolve_root_relative() {
    assert_eq!(
        resolve_url("https://a.com/dir/page", "/img/fav.ico"),
        "https://a.com/img/fav.ico"
    );
}

#[test]
fn resolve_relative() {
    assert_eq!(
        resolve_url("https://a.com/dir/page", "img/fav.ico"),
        "https://a.com/dir/img/fav.ico"
    );
}

#[test]
fn resolve_protocol_relative() {
    assert_eq!(
        resolve_url("https://a.com/x", "//cdn.a.com/fav.ico"),
        "https://cdn.a.com/fav.ico"
    );
}

#[test]
fn page_without_path_has_the_root_directory() {
    assert_eq!(resolve_url("http://a.com", "x.png"), "http://a.com/x.png");
    assert_eq!(resolve_url("http://a.com", "/x.png"), "http://a.com/x.png");
}

#[test]
fn page_without_scheme_resolves_nothing() {
    assert_eq!(resolve_url("a.com/dir/", "x.png"), "x.png");
    assert_eq!(resolve_url("a.com/dir/", "//b.com/x.png"), "//b.com/x.png");
    assert_eq!(build_root_favicon_url("a.com/dir/"), None);
}

#[test]
fn directory_ends_at_the_last_slash() {
    assert_eq!(resolve_url("https://a.com/d/e/", "x.png"), "https://a.com/d/e/x.png");
    assert_eq!(resolve_url("https://a.com/p?q=/r/s", "x"), "https://a.com/p?q=/r/x");
}

#[test]
fn resolving_again_changes_nothing() {
    let once = resolve_url("https://a.com/d/p", "x.png");
    assert_eq!(resolve_url("http://other.org/", &once), once);
}

#[test]
fn other_schemes_are_kept() {
    assert_eq!(resolve_url("ftp://h/a/b", "//c/d"), "ftp://c/d");
    assert_eq!(resolve_url("ftp://h/a/b", "c"), "ftp://h/a/c");
}

#[test]
fn first_scheme_mark_counts() {
    assert_eq!(resolve_url("http://a.com/?u=ftp://b/c", "/x"), "http://a.com/x");
}

#[test]
fn default_location_of_a_site() {
    assert_eq!(
        build_root_favicon_url("https://a.com:8080/d/e?f").as_deref(),
        Some("https://a.com:8080/favicon.ico")
    );
    assert_eq!(
        build_root_favicon_url("http://a.com").as_deref(),
        Some("http://a.com/favicon.ico")
    );
    assert_eq!(
        build_root_favicon_url("http://a.com/x"),
        Some(resolve_url("http://a.com/x", "/favicon.ico"))
    );
}

#[test]
fn text_beyond_ascii_is_kept() {
    assert_eq!(resolve_url("https://\u{fc}.de/\u{e4}/b", "\u{f6}"), "https://\u{fc}.de/\u{e4}/\u{f6}");
}
