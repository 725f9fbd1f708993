//! Favicon references in HTML pages, found by byte scanning.
//!
//! The scanner jumps from tag to tag with a substring search and parses only
//! the bytes of candidate tags; it builds no document tree. It looks for
//!
//! 1. `<link rel="icon" href="...">`, the standard favicon;
//! 2. `<link rel="shortcut icon" href="...">`, the legacy form;
//! 3. `<link rel="mask-icon" href="...">`, pinned tabs;
//! 4. `<link rel="apple-touch-icon" href="...">`, home screens;
//! 5. `<meta name="msapplication-TileImage" content="...">`, tiles;
//!
//! with tag names in any case, and decodes `data:` URIs in any of these as
//! inline favicons. The default location `{scheme}://{host}/favicon.ico` is
//! always added.

use vstd::prelude::*;

use crate::ascii::ascii;
use crate::ascii::ascii_bytes;
use crate::ascii::eq_ascii_nocase;
use crate::ascii::eq_ignore_ascii_case;
use crate::base64::base64_decode_chars;
use crate::base64::decoded;
use crate::opening::find_opening_from;
use crate::opening::first_opening;
use crate::opening::Opening;
use crate::opening::TagOpening;
use crate::search::first_index;
use crate::search::starts_with;
use crate::tag::attribute;
use crate::tag::extract_attribute;
use crate::tag::find_tag_end;
use crate::tag::tag_end;
use crate::text::chars_of;
use crate::text::find_char_from;
use crate::text::has_prefix;
use crate::text::strip_whitespace;
use crate::text::trim;
use crate::text::trimmed;
use crate::text::utf8_text;
use crate::text::without_space;
use crate::url::build_root_favicon_url;
use crate::url::resolve_url;
use crate::url::resolved;
use crate::url::root_favicon;

verus! {

/// A favicon reference found in an HTML page: either a URL that points to the
/// favicon, or a `data:` URI that holds the favicon itself.
#[derive(Debug, Clone)]
pub struct FaviconRef {
    /// The favicon URL, absolute or relative, or the `data:` URI.
    pub url: String,
    /// The decoded favicon where the reference was a `data:` URI.
    pub inline_data: Option<Vec<u8>>,
}

/// Result of scanning one HTML page for favicon references.
#[derive(Debug)]
pub struct FaviconResult {
    /// Favicon URLs found in `<link>` and `<meta>` tags, made absolute.
    pub urls: Vec<String>,
    /// Decoded inline favicons from `data:` URIs.
    pub inline_favicons: Vec<Vec<u8>>,
}

/// The favicons of a page, as sequences.
pub struct Favicons {
    pub urls: Seq<Seq<char>>,
    pub inline_favicons: Seq<Seq<u8>>,
}

impl View for FaviconResult {
    type V = Favicons;

    open spec fn view(&self) -> Favicons {
        Favicons {
            urls: Seq::new(self.urls@.len(), |i: int| self.urls@[i]@),
            inline_favicons: Seq::new(
                self.inline_favicons@.len(),
                |i: int| self.inline_favicons@[i]@,
            ),
        }
    }
}

/// No favicons.
pub open spec fn no_favicons() -> Favicons {
    Favicons { urls: Seq::empty(), inline_favicons: Seq::empty() }
}

impl Default for FaviconResult {
    fn default() -> (r: FaviconResult)
        ensures
            r@ == no_favicons(),
    {
        let r = FaviconResult { urls: Vec::new(), inline_favicons: Vec::new() };
        assert(r@.urls =~= Seq::empty());
        assert(r@.inline_favicons =~= Seq::empty());
        r
    }
}

/// Adds a URL that is not there yet.
pub open spec fn with_url(found: Favicons, url: Seq<char>) -> Favicons {
    if found.urls.contains(url) {
        found
    } else {
        Favicons { urls: found.urls.push(url), inline_favicons: found.inline_favicons }
    }
}

/// Adds an inline favicon that is not empty.
pub open spec fn with_inline(found: Favicons, data: Seq<u8>) -> Favicons {
    if data.len() == 0 {
        found
    } else {
        Favicons { urls: found.urls, inline_favicons: found.inline_favicons.push(data) }
    }
}

/// What the `data:` URI `uri` decodes to: the base64 data behind the first
/// comma that follows the prefix, whitespace left out. `None` where there is
/// no comma or the data is no base64.
pub open spec fn data_uri_content(uri: Seq<char>) -> Option<Seq<u8>> {
    match first_index(uri, ',', 5) {
        Some(comma) => decoded(without_space(uri.subrange(comma + 1, uri.len() as int))),
        None => None,
    }
}

/// Adds what a reference stands for: the content of a `data:` URI as an inline
/// favicon, anything else as a URL resolved against the page. An empty
/// reference adds nothing.
pub open spec fn with_reference(found: Favicons, reference: Seq<char>, page: Seq<char>) -> Favicons {
    if reference.len() == 0 {
        found
    } else if starts_with(reference, "data:"@) {
        match data_uri_content(reference) {
            Some(data) => with_inline(found, data),
            None => found,
        }
    } else {
        with_url(found, resolved(page, reference))
    }
}

/// Adds what an attribute value stands for. A value that is no UTF-8 adds
/// nothing; whitespace around it does not count.
pub open spec fn with_value(found: Favicons, value: Seq<u8>, page: Seq<char>) -> Favicons {
    if vstd::utf8::valid_utf8(value) {
        with_reference(found, trimmed(vstd::utf8::decode_utf8(value)), page)
    } else {
        found
    }
}

/// Adds what attribute values stand for, one after the other.
pub open spec fn with_values(found: Favicons, values: Seq<Seq<u8>>, page: Seq<char>) -> Favicons
    decreases values.len(),
{
    if values.len() == 0 {
        found
    } else {
        with_values(with_value(found, values[0], page), values.drop_first(), page)
    }
}

/// The tags that open as `opening` says in the part of `body` from `pos` on.
///
/// The search for the next tag goes on behind the end of the last one, and
/// stops at a tag that is not closed.
pub open spec fn tags_from(body: Seq<u8>, opening: Opening, pos: int) -> Seq<Seq<u8>>
    decreases body.len() - pos,
    when 0 <= pos
{
    match first_opening(body, opening, pos) {
        None => Seq::empty(),
        Some(start) => match tag_end(body, start) {
            None => Seq::empty(),
            Some(end) => {
                proof {
                    crate::opening::first_opening_is_least(body, opening, pos);
                    crate::tag::tag_end_is_first_unquoted_close(body, start);
                }
                seq![body.subrange(start, end)] + tags_from(body, opening, end)
            },
        },
    }
}

/// The tags of a page that open as `opening` says, in order.
pub open spec fn tags(body: Seq<u8>, opening: Opening) -> Seq<Seq<u8>> {
    tags_from(body, opening, 0)
}

/// Whether a `rel` value, in any case, marks a favicon.
pub open spec fn is_favicon_rel(rel: Seq<u8>) -> bool {
    ||| eq_ascii_nocase(rel, ascii("icon"@))
    ||| eq_ascii_nocase(rel, ascii("shortcut icon"@))
    ||| eq_ascii_nocase(rel, ascii("mask-icon"@))
    ||| eq_ascii_nocase(rel, ascii("apple-touch-icon"@))
}

/// The favicon reference of a `<link>` tag: its `href`, where its `rel` marks
/// a favicon.
pub open spec fn link_value(tag: Seq<u8>) -> Option<Seq<u8>> {
    match attribute(tag, ascii("rel"@)) {
        Some(rel) => if is_favicon_rel(rel) {
            attribute(tag, ascii("href"@))
        } else {
            None
        },
        None => None,
    }
}

/// The favicon reference of a `<meta>` tag: its `content`, where its `name`
/// is, in any case, `msapplication-TileImage`.
pub open spec fn meta_value(tag: Seq<u8>) -> Option<Seq<u8>> {
    match attribute(tag, ascii("name"@)) {
        Some(name) => if eq_ascii_nocase(name, ascii("msapplication-TileImage"@)) {
            attribute(tag, ascii("content"@))
        } else {
            None
        },
        None => None,
    }
}

/// A sequence of the value that is there, or of none.
pub open spec fn as_seq(value: Option<Seq<u8>>) -> Seq<Seq<u8>> {
    match value {
        Some(v) => seq![v],
        None => Seq::empty(),
    }
}

/// The favicon references of `<link>` tags, in order.
pub open spec fn link_values(tags: Seq<Seq<u8>>) -> Seq<Seq<u8>>
    decreases tags.len(),
{
    if tags.len() == 0 {
        Seq::empty()
    } else {
        as_seq(link_value(tags[0])) + link_values(tags.drop_first())
    }
}

/// The favicon references of `<meta>` tags, in order.
pub open spec fn meta_values(tags: Seq<Seq<u8>>) -> Seq<Seq<u8>>
    decreases tags.len(),
{
    if tags.len() == 0 {
        Seq::empty()
    } else {
        as_seq(meta_value(tags[0])) + meta_values(tags.drop_first())
    }
}

/// The favicon references of the `<link>` tags of a page, in the order in which
/// they are processed: tags named in lower case, in upper case, in mixed case.
pub open spec fn page_link_values(body: Seq<u8>) -> Seq<Seq<u8>> {
    link_values(tags(body, Opening::Exact(ascii("<link "@)))) + link_values(
        tags(body, Opening::Exact(ascii("<LINK "@))),
    ) + link_values(tags(body, Opening::Mixed(ascii("<link "@))))
}

/// The favicon references of the `<meta>` tags of a page, in the order in which
/// they are processed: tags named in lower case, in upper case, in mixed case.
pub open spec fn page_meta_values(body: Seq<u8>) -> Seq<Seq<u8>> {
    meta_values(tags(body, Opening::Exact(ascii("<meta "@)))) + meta_values(
        tags(body, Opening::Exact(ascii("<META "@))),
    ) + meta_values(tags(body, Opening::Mixed(ascii("<meta "@))))
}

/// The favicon references of a page in the order in which they are processed:
/// those of `<link>` tags, then those of `<meta>` tags.
pub open spec fn page_values(body: Seq<u8>) -> Seq<Seq<u8>> {
    page_link_values(body) + page_meta_values(body)
}

/// The favicons of a page: what its references stand for, and the default
/// location where the page URL has a scheme.
pub open spec fn page_favicons(body: Seq<u8>, page: Seq<char>) -> Favicons {
    let found = with_values(no_favicons(), page_values(body), page);
    match root_favicon(page) {
        Some(url) => with_url(found, url),
        None => found,
    }
}

/// Adds a URL to a result unless it is there already.
fn add_url(result: &mut FaviconResult, url: String)
    ensures
        final(result)@ == with_url(old(result)@, url@),
{
    let mut i: usize = 0;
    while i < result.urls.len()
        invariant
            result@ == old(result)@,
            i <= result.urls@.len(),
            forall|j: int| 0 <= j < i ==> result@.urls[j] != url@,
        decreases result.urls@.len() - i,
    {
        if result.urls[i] == url {
            assert(result@.urls[i as int] == url@);
            return;
        }
        i += 1;
    }
    result.urls.push(url);
    assert(result@.urls =~= old(result)@.urls.push(url@));
    assert(result@.inline_favicons =~= old(result)@.inline_favicons);
}

/// Adds an inline favicon to a result unless it is empty.
fn add_inline(result: &mut FaviconResult, data: Vec<u8>)
    ensures
        final(result)@ == with_inline(old(result)@, data@),
{
    if data.len() > 0 {
        result.inline_favicons.push(data);
        assert(result@.urls =~= old(result)@.urls);
        assert(result@.inline_favicons =~= old(result)@.inline_favicons.push(data@));
    }
}

/// Processes a favicon attribute value and adds what it stands for.
///
/// A `data:` URI is decoded and stored as an inline favicon; everything else
/// is resolved against the page URL and stored as a URL, once. Values that are
/// no UTF-8, that are blank, or whose base64 data is broken or empty are
/// skipped.
pub fn process_favicon_value(value: &[u8], page_url: &str, result: &mut FaviconResult)
    ensures
        final(result)@ == with_value(old(result)@, value@, page_url@),
{
    let text: &str = match utf8_text(value) {
        Some(text) => trim(text),
        None => {
            return;
        },
    };
    if text.is_empty() {
        return;
    }
    let chars: Vec<char> = chars_of(text);
    if has_prefix(&chars, "data:") {
        proof {
            reveal_strlit("data:");
        }
        match find_char_from(&chars, ',', 5) {
            Some(comma) => {
                proof {
                    crate::search::first_index_is_least(chars@, ',', 5);
                }
                let cleaned: Vec<char> = strip_whitespace(&chars, comma + 1);
                match base64_decode_chars(&cleaned) {
                    Ok(bytes) => add_inline(result, bytes),
                    Err(_) => {},
                }
            },
            None => {},
        }
    } else {
        add_url(result, resolve_url(page_url, text));
    }
}

/// Whether a `rel` value marks a favicon.
pub fn marks_favicon(rel: &[u8]) -> (r: bool)
    ensures
        r == is_favicon_rel(rel@),
{
    proof {
        reveal_strlit("icon");
        reveal_strlit("shortcut icon");
        reveal_strlit("mask-icon");
        reveal_strlit("apple-touch-icon");
    }
    eq_ignore_ascii_case(rel, ascii_bytes("icon")) || eq_ignore_ascii_case(
        rel,
        ascii_bytes("shortcut icon"),
    ) || eq_ignore_ascii_case(rel, ascii_bytes("mask-icon")) || eq_ignore_ascii_case(
        rel,
        ascii_bytes("apple-touch-icon"),
    )
}

/// The favicon reference of a `<link>` tag.
pub fn link_reference<'a>(tag: &'a [u8]) -> (r: Option<&'a [u8]>)
    ensures
        crate::tag::bytes_view(r) == link_value(tag@),
{
    proof {
        reveal_strlit("rel");
        reveal_strlit("href");
    }
    match extract_attribute(tag, ascii_bytes("rel")) {
        Some(rel) => {
            if marks_favicon(rel) {
                extract_attribute(tag, ascii_bytes("href"))
            } else {
                None
            }
        },
        None => None,
    }
}

/// The favicon reference of a `<meta>` tag.
pub fn meta_reference<'a>(tag: &'a [u8]) -> (r: Option<&'a [u8]>)
    ensures
        crate::tag::bytes_view(r) == meta_value(tag@),
{
    proof {
        reveal_strlit("name");
        reveal_strlit("msapplication-TileImage");
        reveal_strlit("content");
    }
    match extract_attribute(tag, ascii_bytes("name")) {
        Some(name) => {
            if eq_ignore_ascii_case(name, ascii_bytes("msapplication-TileImage")) {
                extract_attribute(tag, ascii_bytes("content"))
            } else {
                None
            }
        },
        None => None,
    }
}

/// The bounds of the next tag that opens as `opening` says at or after `pos`.
fn next_tag(body: &[u8], opening: &TagOpening, pos: usize) -> (r: Option<(usize, usize)>)
    requires
        pos <= body@.len(),
    ensures
        match r {
            Some(bounds) => pos <= bounds.0 < bounds.1 <= body@.len() && tags_from(
                body@,
                opening@,
                pos as int,
            ) == seq![body@.subrange(bounds.0 as int, bounds.1 as int)] + tags_from(
                body@,
                opening@,
                bounds.1 as int,
            ),
            None => tags_from(body@, opening@, pos as int) == Seq::<Seq<u8>>::empty(),
        },
{
    proof {
        crate::opening::first_opening_is_least(body@, opening@, pos as int);
    }
    match find_opening_from(body, opening, pos) {
        Some(start) => {
            proof {
                crate::tag::tag_end_is_first_unquoted_close(body@, start as int);
            }
            match find_tag_end(body, start) {
                Some(end) => Some((start, end)),
                None => None,
            }
        },
        None => None,
    }
}

/// Scans for `<link>` tags, which open as `opening` says, and adds what those
/// with a favicon `rel` refer to.
pub fn scan_link_tags(
    body: &[u8],
    opening: &TagOpening,
    page_url: &str,
    result: &mut FaviconResult,
)
    ensures
        final(result)@ == with_values(
            old(result)@,
            link_values(tags(body@, opening@)),
            page_url@,
        ),
{
    let mut pos: usize = 0;
    while pos < body.len()
        invariant
            pos <= body@.len(),
            with_values(
                result@,
                link_values(tags_from(body@, opening@, pos as int)),
                page_url@,
            ) == with_values(old(result)@, link_values(tags(body@, opening@)), page_url@),
        decreases body@.len() - pos,
    {
        let (start, end): (usize, usize) = match next_tag(body, opening, pos) {
            Some(bounds) => bounds,
            None => {
                return;
            },
        };
        let tag: &[u8] = vstd::slice::slice_subrange(body, start, end);
        proof {
            let rest = tags_from(body@, opening@, end as int);
            let all = seq![tag@] + rest;
            assert(all.drop_first() =~= rest);
            assert(link_values(all) == as_seq(link_value(tag@)) + link_values(rest));
            lemma_one_value(result@, link_value(tag@), link_values(rest), page_url@);
        }
        match link_reference(tag) {
            Some(href) => process_favicon_value(href, page_url, result),
            None => {},
        }
        pos = end;
    }
    proof {
        lemma_no_tag_at_end(body@, opening@);
    }
}

/// Scans for `<meta>` tags, which open as `opening` says, and adds what those
/// named `msapplication-TileImage` refer to.
pub fn scan_meta_tags(
    body: &[u8],
    opening: &TagOpening,
    page_url: &str,
    result: &mut FaviconResult,
)
    ensures
        final(result)@ == with_values(
            old(result)@,
            meta_values(tags(body@, opening@)),
            page_url@,
        ),
{
    let mut pos: usize = 0;
    while pos < body.len()
        invariant
            pos <= body@.len(),
            with_values(
                result@,
                meta_values(tags_from(body@, opening@, pos as int)),
                page_url@,
            ) == with_values(old(result)@, meta_values(tags(body@, opening@)), page_url@),
        decreases body@.len() - pos,
    {
        let (start, end): (usize, usize) = match next_tag(body, opening, pos) {
            Some(bounds) => bounds,
            None => {
                return;
            },
        };
        let tag: &[u8] = vstd::slice::slice_subrange(body, start, end);
        proof {
            let rest = tags_from(body@, opening@, end as int);
            let all = seq![tag@] + rest;
            assert(all.drop_first() =~= rest);
            assert(meta_values(all) == as_seq(meta_value(tag@)) + meta_values(rest));
            lemma_one_value(result@, meta_value(tag@), meta_values(rest), page_url@);
        }
        match meta_reference(tag) {
            Some(content) => process_favicon_value(content, page_url, result),
            None => {},
        }
        pos = end;
    }
    proof {
        lemma_no_tag_at_end(body@, opening@);
    }
}

/// Extracts the favicon references of an HTML page.
///
/// `page_url` is the URL of the page: relative references are resolved against
/// it, and the default location is built from it.
pub fn extract_favicons(body: &[u8], page_url: &str) -> (r: FaviconResult)
    ensures
        r@ == page_favicons(body@, page_url@),
{
    let mut result = FaviconResult::default();
    proof {
        reveal_strlit("<link ");
        reveal_strlit("<LINK ");
        reveal_strlit("<meta ");
        reveal_strlit("<META ");
    }
    scan_link_tags(body, &TagOpening::Exact(ascii_bytes("<link ")), page_url, &mut result);
    scan_link_tags(body, &TagOpening::Exact(ascii_bytes("<LINK ")), page_url, &mut result);
    scan_link_tags(body, &TagOpening::Mixed(ascii_bytes("<link ")), page_url, &mut result);
    proof {
        let a = link_values(tags(body@, Opening::Exact(ascii("<link "@))));
        let b = link_values(tags(body@, Opening::Exact(ascii("<LINK "@))));
        let c = link_values(tags(body@, Opening::Mixed(ascii("<link "@))));
        values_add_up(no_favicons(), a + b, c, page_url@);
        values_add_up(no_favicons(), a, b, page_url@);
        assert(result@ == with_values(no_favicons(), page_link_values(body@), page_url@));
    }
    let ghost links = result@;
    scan_meta_tags(body, &TagOpening::Exact(ascii_bytes("<meta ")), page_url, &mut result);
    scan_meta_tags(body, &TagOpening::Exact(ascii_bytes("<META ")), page_url, &mut result);
    scan_meta_tags(body, &TagOpening::Mixed(ascii_bytes("<meta ")), page_url, &mut result);
    proof {
        let a = meta_values(tags(body@, Opening::Exact(ascii("<meta "@))));
        let b = meta_values(tags(body@, Opening::Exact(ascii("<META "@))));
        let c = meta_values(tags(body@, Opening::Mixed(ascii("<meta "@))));
        values_add_up(links, a + b, c, page_url@);
        values_add_up(links, a, b, page_url@);
        values_add_up(no_favicons(), page_link_values(body@), page_meta_values(body@), page_url@);
    }
    match build_root_favicon_url(page_url) {
        Some(root) => add_url(&mut result, root),
        None => {},
    }
    result
}

proof fn lemma_no_tag_at_end(body: Seq<u8>, opening: Opening)
    ensures
        tags_from(body, opening, body.len() as int) == Seq::<Seq<u8>>::empty(),
{
    crate::opening::first_opening_is_least(body, opening, body.len() as int);
    if let Some(start) = first_opening(body, opening, body.len() as int) {
        crate::tag::tag_end_is_first_unquoted_close(body, start);
    }
}

proof fn lemma_one_value(
    found: Favicons,
    value: Option<Seq<u8>>,
    rest: Seq<Seq<u8>>,
    page: Seq<char>,
)
    ensures
        with_values(found, as_seq(value) + rest, page) == match value {
            Some(v) => with_values(with_value(found, v, page), rest, page),
            None => with_values(found, rest, page),
        },
{
    match value {
        Some(v) => {
            assert((seq![v] + rest).drop_first() =~= rest);
        },
        None => {
            assert(as_seq(value) + rest =~= rest);
        },
    }
}

/// Processing one list of values and then another is processing the two lists
/// joined.
pub proof fn values_add_up(
    found: Favicons,
    first: Seq<Seq<u8>>,
    second: Seq<Seq<u8>>,
    page: Seq<char>,
)
    ensures
        with_values(found, first + second, page) == with_values(
            with_values(found, first, page),
            second,
            page,
        ),
    decreases first.len(),
{
    if first.len() == 0 {
        assert(first + second =~= second);
    } else {
        assert((first + second).drop_first() =~= first.drop_first() + second);
        values_add_up(with_value(found, first[0], page), first.drop_first(), second, page);
    }
}

} // verus!
