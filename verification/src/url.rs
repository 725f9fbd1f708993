//! Resolution of favicon references against the URL of their page.
//!
//! Only the common forms are handled: absolute, protocol-relative,
//! root-relative and relative references.

use vstd::prelude::*;
use vstd::string::StrSliceExecFns;
use vstd::string::StringExecFns;

use crate::search::first_index;
use crate::search::first_match;
use crate::search::last_index;
use crate::search::starts_with;
use crate::text::chars_of;
use crate::text::find_char_from;
use crate::text::find_last_char;
use crate::text::find_text;
use crate::text::has_prefix;

verus! {

/// Whether a reference needs no base: it begins with `http://` or `https://`.
pub open spec fn is_absolute(reference: Seq<char>) -> bool {
    starts_with(reference, "http://"@) || starts_with(reference, "https://"@)
}

/// Whether a URL has a scheme: `://` occurs in it.
pub open spec fn has_scheme(url: Seq<char>) -> bool {
    first_match(url, "://"@, 0) is Some
}

/// The part of a URL in front of its first `://`.
pub open spec fn scheme(url: Seq<char>) -> Seq<char> {
    url.subrange(0, first_match(url, "://"@, 0)->0)
}

/// The position behind the first `://` of a URL.
pub open spec fn host_start(url: Seq<char>) -> int {
    first_match(url, "://"@, 0)->0 + 3
}

/// The first `/` behind the scheme of a URL.
pub open spec fn first_slash(url: Seq<char>) -> Option<int> {
    first_index(url, '/', host_start(url))
}

/// The host of a URL: what stands between the scheme and the next `/`.
pub open spec fn host(url: Seq<char>) -> Seq<char> {
    match first_slash(url) {
        Some(slash) => url.subrange(host_start(url), slash),
        None => url.subrange(host_start(url), url.len() as int),
    }
}

/// The directory of a URL's path: from the first `/` behind the scheme to the
/// last `/` of the URL, and `/` where the URL has no path.
pub open spec fn directory(url: Seq<char>) -> Seq<char> {
    match first_slash(url) {
        Some(slash) => url.subrange(slash, last_index(url, '/')->0 + 1),
        None => "/"@,
    }
}

/// The origin of a URL: scheme, `://` and host.
pub open spec fn origin(url: Seq<char>) -> Seq<char> {
    scheme(url) + "://"@ + host(url)
}

/// The URL that `reference` stands for on the page `base`.
pub open spec fn resolved(base: Seq<char>, reference: Seq<char>) -> Seq<char> {
    if is_absolute(reference) || !has_scheme(base) {
        reference
    } else if starts_with(reference, "//"@) {
        scheme(base) + ":"@ + reference
    } else if starts_with(reference, "/"@) {
        origin(base) + reference
    } else {
        origin(base) + directory(base) + reference
    }
}

/// The default favicon location of a page's site, where the page has a scheme.
pub open spec fn root_favicon(page: Seq<char>) -> Option<Seq<char>> {
    if has_scheme(page) {
        Some(origin(page) + "/favicon.ico"@)
    } else {
        None
    }
}

/// The text of an optional string.
pub open spec fn string_view(r: Option<String>) -> Option<Seq<char>> {
    match r {
        Some(text) => Some(text@),
        None => None,
    }
}

/// Where the scheme of a URL ends, its host ends, and whether a path follows.
struct UrlBounds {
    scheme_end: usize,
    host_end: usize,
    has_path: bool,
}

impl UrlBounds {
    spec fn describes(self, url: Seq<char>) -> bool {
        &&& has_scheme(url)
        &&& host_start(url) == self.scheme_end + 3
        &&& self.scheme_end + 3 <= self.host_end <= url.len()
        &&& scheme(url) == url.subrange(0, self.scheme_end as int)
        &&& host(url) == url.subrange(self.scheme_end + 3, self.host_end as int)
        &&& self.has_path ==> first_slash(url) == Some(self.host_end as int)
        &&& !self.has_path ==> first_slash(url) is None
    }
}

fn url_bounds(chars: &Vec<char>) -> (r: Option<UrlBounds>)
    ensures
        r is Some == has_scheme(chars@),
        r matches Some(bounds) ==> bounds.describes(chars@),
{
    let scheme_end: usize = match find_text(chars, "://") {
        Some(i) => i,
        None => {
            return None;
        },
    };
    proof {
        reveal_strlit("://");
        crate::search::first_match_is_least(chars@, "://"@, 0);
    }
    let n: usize = chars.len();
    let start: usize = scheme_end + 3;
    proof {
        crate::search::first_index_is_least(chars@, '/', start as int);
    }
    match find_char_from(chars, '/', start) {
        Some(slash) => Some(UrlBounds { scheme_end, host_end: slash, has_path: true }),
        None => Some(UrlBounds { scheme_end, host_end: n, has_path: false }),
    }
}

/// The origin of the URL whose bounds are given.
fn origin_of(url: &str, bounds: &UrlBounds) -> (r: String)
    requires
        bounds.describes(url@),
    ensures
        r@ == origin(url@),
{
    let mut text: String = url.substring_char(0, bounds.scheme_end).to_owned();
    text.append("://");
    text.append(url.substring_char(bounds.scheme_end + 3, bounds.host_end));
    text
}

/// Resolves a possibly relative URL against the URL of its page.
///
/// An absolute reference is returned as it is, and so is any reference where
/// the page URL has no scheme. `//host/path` gets the page's scheme, `/path`
/// the page's origin, and anything else the page's origin and directory.
pub fn resolve_url(base_url: &str, relative: &str) -> (r: String)
    ensures
        r@ == resolved(base_url@, relative@),
{
    let reference: Vec<char> = chars_of(relative);
    if has_prefix(&reference, "http://") || has_prefix(&reference, "https://") {
        return relative.to_owned();
    }
    let base: Vec<char> = chars_of(base_url);
    let bounds: UrlBounds = match url_bounds(&base) {
        Some(bounds) => bounds,
        None => {
            return relative.to_owned();
        },
    };
    if has_prefix(&reference, "//") {
        let mut text: String = base_url.substring_char(0, bounds.scheme_end).to_owned();
        text.append(":");
        text.append(relative);
        text
    } else if has_prefix(&reference, "/") {
        let mut text: String = origin_of(base_url, &bounds);
        text.append(relative);
        text
    } else {
        let mut text: String = origin_of(base_url, &bounds);
        if bounds.has_path {
            proof {
                crate::search::first_index_is_least(base@, '/', host_start(base@));
                crate::search::last_index_is_greatest(base@, '/');
            }
            let n: usize = base.len();
            let end: usize = match find_last_char(&base, '/') {
                Some(last) => last + 1,
                None => n,
            };
            text.append(base_url.substring_char(bounds.host_end, end));
        } else {
            text.append("/");
        }
        text.append(relative);
        text
    }
}

/// Builds the default `{scheme}://{host}/favicon.ico` URL of a page's site.
pub fn build_root_favicon_url(page_url: &str) -> (r: Option<String>)
    ensures
        string_view(r) == root_favicon(page_url@),
{
    let page: Vec<char> = chars_of(page_url);
    match url_bounds(&page) {
        Some(bounds) => {
            let mut text: String = origin_of(page_url, &bounds);
            text.append("/favicon.ico");
            Some(text)
        },
        None => None,
    }
}

/// An absolute reference is left as it is.
pub proof fn absolute_reference_is_kept(base: Seq<char>, reference: Seq<char>)
    requires
        is_absolute(reference),
    ensures
        resolved(base, reference) == reference,
{
}

/// Whether a page URL has the scheme `http` or `https`.
pub open spec fn is_web_page(url: Seq<char>) -> bool {
    has_scheme(url) && (scheme(url) == "http"@ || scheme(url) == "https"@)
}

/// On a web page every reference resolves to an absolute URL.
pub proof fn web_references_become_absolute(base: Seq<char>, reference: Seq<char>)
    requires
        is_web_page(base),
    ensures
        is_absolute(resolved(base, reference)),
{
    reveal_strlit("http");
    reveal_strlit("https");
    reveal_strlit("http://");
    reveal_strlit("https://");
    reveal_strlit("://");
    reveal_strlit(":");
    reveal_strlit("//");
    let url = resolved(base, reference);
    if !is_absolute(reference) {
        let opening = if scheme(base) == "http"@ {
            "http://"@
        } else {
            "https://"@
        };
        if starts_with(reference, "//"@) {
            assert(reference[0] == reference.subrange(0, 2)[0]);
            assert(reference[1] == reference.subrange(0, 2)[1]);
        }
        assert(opening =~= scheme(base) + "://"@);
        assert(url.subrange(0, opening.len() as int) =~= opening);
    }
}

/// Resolving an already resolved URL changes nothing.
pub proof fn resolving_twice_is_resolving_once(base: Seq<char>, reference: Seq<char>)
    requires
        is_web_page(base),
    ensures
        resolved(base, resolved(base, reference)) == resolved(base, reference),
{
    web_references_become_absolute(base, reference);
}

/// The default favicon location is what `/favicon.ico` stands for on the page.
pub proof fn root_favicon_is_a_root_reference(page: Seq<char>)
    requires
        has_scheme(page),
    ensures
        root_favicon(page) == Some(resolved(page, "/favicon.ico"@)),
{
    reveal_strlit("http://");
    reveal_strlit("https://");
    reveal_strlit("//");
    reveal_strlit("/");
    reveal_strlit("/favicon.ico");
    let reference = "/favicon.ico"@;
    assert(reference[0] == '/');
    assert(reference.subrange(0, 1) =~= "/"@);
    assert(reference.subrange(0, 2)[1] != "//"@[1]);
    assert(reference.subrange(0, 7)[0] != "http://"@[0]);
    assert(reference.subrange(0, 8)[0] != "https://"@[0]);
}

/// A reference that names no host stays on the page's site.
pub proof fn hostless_reference_keeps_origin(base: Seq<char>, reference: Seq<char>)
    requires
        has_scheme(base),
        !is_absolute(reference),
        !starts_with(reference, "//"@),
    ensures
        starts_with(resolved(base, reference), origin(base)),
{
    let url = resolved(base, reference);
    assert(url.subrange(0, origin(base).len() as int) =~= origin(base));
}

/// A plain relative reference replaces what stands behind the last `/` of a
/// page URL that has a path.
pub proof fn relative_reference_replaces_last_segment(base: Seq<char>, reference: Seq<char>)
    requires
        has_scheme(base),
        first_slash(base) is Some,
        !is_absolute(reference),
        !starts_with(reference, "/"@),
        !starts_with(reference, "//"@),
    ensures
        resolved(base, reference) == base.subrange(0, last_index(base, '/')->0 + 1) + reference,
{
    reveal_strlit("://");
    crate::search::first_match_is_least(base, "://"@, 0);
    crate::search::first_index_is_least(base, '/', host_start(base));
    crate::search::last_index_is_greatest(base, '/');
    let at = first_match(base, "://"@, 0)->0;
    let slash = first_slash(base)->0;
    assert(base.subrange(at, at + 3) == "://"@);
    assert forall|i: int| at <= i < at + 3 implies base[i] == "://"@[i - at] by {
        assert(base.subrange(at, at + 3)[i - at] == base[i]);
    }
    assert(origin(base) =~= base.subrange(0, slash));
    assert(origin(base) + directory(base) =~= base.subrange(0, last_index(base, '/')->0 + 1));
}

} // verus!
