//! What holds of the favicons of every page.

use vstd::prelude::*;

use crate::ascii::ascii;
use crate::ascii::eq_ascii_nocase;
use crate::favicon_search::data_uri_content;
use crate::favicon_search::is_favicon_rel;
use crate::favicon_search::no_favicons;
use crate::favicon_search::page_favicons;
use crate::favicon_search::page_values;
use crate::favicon_search::tags;
use crate::favicon_search::with_url;
use crate::favicon_search::with_value;
use crate::favicon_search::with_values;
use crate::favicon_search::Favicons;
use crate::opening::first_opening;
use crate::opening::is_part_nocase;
use crate::opening::occurs_nocase_at;
use crate::opening::Opening;
use crate::search::starts_with;
use crate::text::trimmed;
use crate::url::resolved;
use crate::url::root_favicon;

verus! {

/// The reference that an attribute value holds, where it holds one: its text,
/// trimmed and not empty.
pub open spec fn reference_of(value: Seq<u8>) -> Option<Seq<char>> {
    if vstd::utf8::valid_utf8(value) && trimmed(vstd::utf8::decode_utf8(value)).len() > 0 {
        Some(trimmed(vstd::utf8::decode_utf8(value)))
    } else {
        None
    }
}

/// Whether `url` is what an attribute value refers to on a page.
pub open spec fn refers_to_url(value: Seq<u8>, page: Seq<char>, url: Seq<char>) -> bool {
    reference_of(value) matches Some(reference) && !starts_with(reference, "data:"@) && url
        == resolved(page, reference)
}

/// Whether `data` is the inline favicon that an attribute value holds.
pub open spec fn holds_inline(value: Seq<u8>, data: Seq<u8>) -> bool {
    reference_of(value) matches Some(reference) && starts_with(reference, "data:"@)
        && data_uri_content(reference) == Some(data) && data.len() > 0
}

/// What every list of favicons built by the scanner satisfies: no URL stands
/// in it twice, and no inline favicon is empty.
pub open spec fn well_formed(found: Favicons) -> bool {
    &&& found.urls.no_duplicates()
    &&& forall|i: int|
        0 <= i < found.inline_favicons.len() ==> (#[trigger] found.inline_favicons[i]).len() > 0
}

/// Whether `later` has all of `earlier`, in place, and perhaps more behind it.
pub open spec fn extends(earlier: Favicons, later: Favicons) -> bool {
    &&& starts_with(later.urls, earlier.urls)
    &&& starts_with(later.inline_favicons, earlier.inline_favicons)
}

/// Processing a value keeps a result well formed and loses nothing of it.
pub proof fn value_keeps_well_formed(found: Favicons, value: Seq<u8>, page: Seq<char>)
    ensures
        well_formed(found) ==> well_formed(with_value(found, value, page)),
        extends(found, with_value(found, value, page)),
{
    let after = with_value(found, value, page);
    assert(found.urls.subrange(0, found.urls.len() as int) =~= found.urls);
    assert(found.inline_favicons.subrange(0, found.inline_favicons.len() as int)
        =~= found.inline_favicons);
    assert(after.urls.subrange(0, found.urls.len() as int) =~= found.urls);
    assert(after.inline_favicons.subrange(0, found.inline_favicons.len() as int)
        =~= found.inline_favicons);
    if well_formed(found) {
        if after.urls != found.urls {
            let url = after.urls.last();
            assert(after.urls == found.urls.push(url) && !found.urls.contains(url));
            assert forall|i: int, j: int|
                0 <= i < after.urls.len() && 0 <= j < after.urls.len() && i
                    != j implies after.urls[i] != after.urls[j] by {
                if i < found.urls.len() {
                    assert(found.urls.contains(found.urls[i]));
                }
                if j < found.urls.len() {
                    assert(found.urls.contains(found.urls[j]));
                }
            }
        }
    }
}

proof fn lemma_values_keep_well_formed(found: Favicons, values: Seq<Seq<u8>>, page: Seq<char>)
    ensures
        well_formed(found) ==> well_formed(with_values(found, values, page)),
        extends(found, with_values(found, values, page)),
    decreases values.len(),
{
    if values.len() == 0 {
        assert(found.urls.subrange(0, found.urls.len() as int) =~= found.urls);
        assert(found.inline_favicons.subrange(0, found.inline_favicons.len() as int)
            =~= found.inline_favicons);
    } else {
        let next = with_value(found, values[0], page);
        value_keeps_well_formed(found, values[0], page);
        lemma_values_keep_well_formed(next, values.drop_first(), page);
        let last = with_values(found, values, page);
        assert(last.urls.subrange(0, found.urls.len() as int) =~= next.urls.subrange(
            0,
            found.urls.len() as int,
        )) by {
            assert forall|i: int| 0 <= i < next.urls.len() implies last.urls[i] == next.urls[i] by {
                assert(last.urls.subrange(0, next.urls.len() as int)[i] == next.urls[i]);
            }
        }
        assert(last.inline_favicons.subrange(0, found.inline_favicons.len() as int)
            =~= next.inline_favicons.subrange(0, found.inline_favicons.len() as int)) by {
            assert forall|i: int| 0 <= i < next.inline_favicons.len() implies
                last.inline_favicons[i] == next.inline_favicons[i] by {
                assert(last.inline_favicons.subrange(0, next.inline_favicons.len() as int)[i]
                    == next.inline_favicons[i]);
            }
        }
    }
}

/// The favicons of a page are well formed: every URL is listed once, and every
/// inline favicon has content.
pub proof fn page_favicons_are_well_formed(body: Seq<u8>, page: Seq<char>)
    ensures
        well_formed(page_favicons(body, page)),
{
    lemma_values_keep_well_formed(no_favicons(), page_values(body), page);
    let found = with_values(no_favicons(), page_values(body), page);
    if let Some(root) = root_favicon(page) {
        lemma_url_keeps_unique(found, root);
    }
}

proof fn lemma_url_keeps_unique(found: Favicons, url: Seq<char>)
    requires
        found.urls.no_duplicates(),
    ensures
        with_url(found, url).urls.no_duplicates(),
        with_url(found, url).urls.contains(url),
{
    let after = with_url(found, url);
    if !found.urls.contains(url) {
        assert forall|i: int, j: int|
            0 <= i < after.urls.len() && 0 <= j < after.urls.len() && i != j implies after.urls[i]
            != after.urls[j] by {
            if i < found.urls.len() {
                assert(found.urls.contains(found.urls[i]));
            }
            if j < found.urls.len() {
                assert(found.urls.contains(found.urls[j]));
            }
        }
        assert(after.urls[found.urls.len() as int] == url);
    }
}

/// The default location is always listed, whatever the page holds, and listed
/// once even where a tag names it too.
pub proof fn default_location_is_always_listed(body: Seq<u8>, page: Seq<char>)
    ensures
        root_favicon(page) matches Some(root) ==> page_favicons(body, page).urls.contains(root)
            && page_favicons(body, page).urls.no_duplicates(),
{
    lemma_values_keep_well_formed(no_favicons(), page_values(body), page);
    if let Some(root) = root_favicon(page) {
        lemma_url_keeps_unique(with_values(no_favicons(), page_values(body), page), root);
    }
}

/// A page in which neither a `<link>` nor a `<meta>` tag opens, in any case,
/// has the default location and nothing else.
pub proof fn page_without_tags_has_default_only(body: Seq<u8>, page: Seq<char>)
    requires
        !is_part_nocase(body, ascii("<link "@)),
        !is_part_nocase(body, ascii("<meta "@)),
    ensures
        page_favicons(body, page).inline_favicons.len() == 0,
        page_favicons(body, page).urls == match root_favicon(page) {
            Some(root) => seq![root],
            None => Seq::empty(),
        },
{
    reveal_strlit("<link ");
    reveal_strlit("<LINK ");
    reveal_strlit("<meta ");
    reveal_strlit("<META ");
    lemma_no_tags(body, Opening::Exact(ascii("<link "@)), ascii("<link "@));
    lemma_no_tags(body, Opening::Exact(ascii("<LINK "@)), ascii("<link "@));
    lemma_no_tags(body, Opening::Mixed(ascii("<link "@)), ascii("<link "@));
    lemma_no_tags(body, Opening::Exact(ascii("<meta "@)), ascii("<meta "@));
    lemma_no_tags(body, Opening::Exact(ascii("<META "@)), ascii("<meta "@));
    lemma_no_tags(body, Opening::Mixed(ascii("<meta "@)), ascii("<meta "@));
    assert(page_values(body) =~= Seq::empty());
    if let Some(root) = root_favicon(page) {
        assert(page_favicons(body, page).urls =~= seq![root]);
    }
}

proof fn lemma_no_tags(body: Seq<u8>, opening: Opening, text: Seq<u8>)
    requires
        eq_ascii_nocase(opening.text(), text),
        !is_part_nocase(body, text),
    ensures
        tags(body, opening) == Seq::<Seq<u8>>::empty(),
{
    crate::opening::first_opening_is_least(body, opening, 0);
    if let Some(start) = first_opening(body, opening, 0) {
        let seen = body.subrange(start, start + text.len());
        lemma_nocase_class(seen, opening.text(), text);
        assert(occurs_nocase_at(body, text, start));
    }
}

/// Nothing found is dropped: every URL reference and every inline favicon
/// among the values of a page is in its result.
pub proof fn every_reference_is_listed(body: Seq<u8>, page: Seq<char>, k: int)
    requires
        0 <= k < page_values(body).len(),
    ensures
        forall|url: Seq<char>| #[trigger]
            refers_to_url(page_values(body)[k], page, url) ==> page_favicons(
                body,
                page,
            ).urls.contains(url),
        forall|data: Seq<u8>| #[trigger]
            holds_inline(page_values(body)[k], data) ==> page_favicons(
                body,
                page,
            ).inline_favicons.contains(data),
{
    let values = page_values(body);
    let found = with_values(no_favicons(), values, page);
    let all = page_favicons(body, page);
    lemma_listed(no_favicons(), values, page, k);
    assert forall|url: Seq<char>| found.urls.contains(url) implies all.urls.contains(url) by {
        let i = choose|i: int| 0 <= i < found.urls.len() && found.urls[i] == url;
        assert(all.urls[i] == url);
    }
}

proof fn lemma_listed(found: Favicons, values: Seq<Seq<u8>>, page: Seq<char>, k: int)
    requires
        0 <= k < values.len(),
    ensures
        forall|url: Seq<char>| #[trigger]
            refers_to_url(values[k], page, url) ==> with_values(found, values, page).urls.contains(
                url,
            ),
        forall|data: Seq<u8>| #[trigger]
            holds_inline(values[k], data) ==> with_values(
                found,
                values,
                page,
            ).inline_favicons.contains(data),
    decreases values.len(),
{
    let next = with_value(found, values[0], page);
    let rest = values.drop_first();
    let last = with_values(found, values, page);
    if k == 0 {
        lemma_values_keep_well_formed(next, rest, page);
        assert forall|i: int| 0 <= i < next.urls.len() implies last.urls[i] == next.urls[i] by {
            assert(last.urls.subrange(0, next.urls.len() as int)[i] == next.urls[i]);
        }
        assert forall|i: int| 0 <= i < next.inline_favicons.len() implies last.inline_favicons[i]
            == next.inline_favicons[i] by {
            assert(last.inline_favicons.subrange(0, next.inline_favicons.len() as int)[i]
                == next.inline_favicons[i]);
        }
        assert forall|url: Seq<char>| #[trigger]
            refers_to_url(values[0], page, url) implies last.urls.contains(url) by {
            if found.urls.contains(url) {
                let i = choose|i: int| 0 <= i < found.urls.len() && found.urls[i] == url;
                assert(next.urls[i] == url && last.urls[i] == url);
            } else {
                let i = found.urls.len() as int;
                assert(next.urls[i] == url && last.urls[i] == url);
            }
        }
        assert forall|data: Seq<u8>| #[trigger]
            holds_inline(values[0], data) implies last.inline_favicons.contains(data) by {
            let i = found.inline_favicons.len() as int;
            assert(next.inline_favicons[i] == data && last.inline_favicons[i] == data);
        }
    } else {
        lemma_listed(next, rest, page, k - 1);
        assert(rest[k - 1] == values[k]);
    }
}

/// Whether some value refers to `url`.
pub open spec fn has_url_source(values: Seq<Seq<u8>>, page: Seq<char>, url: Seq<char>) -> bool {
    exists|k: int| 0 <= k < values.len() && refers_to_url(#[trigger] values[k], page, url)
}

/// Whether some value holds the inline favicon `data`.
pub open spec fn has_inline_source(values: Seq<Seq<u8>>, data: Seq<u8>) -> bool {
    exists|k: int| 0 <= k < values.len() && holds_inline(#[trigger] values[k], data)
}

/// Nothing is made up: a URL in the result is the default location or what
/// some value of the page refers to, and an inline favicon is held by some
/// value of the page.
pub proof fn every_listing_has_a_source(body: Seq<u8>, page: Seq<char>)
    ensures
        forall|url: Seq<char>| #[trigger]
            page_favicons(body, page).urls.contains(url) ==> root_favicon(page) == Some(url)
                || has_url_source(page_values(body), page, url),
        forall|data: Seq<u8>| #[trigger]
            page_favicons(body, page).inline_favicons.contains(data) ==> has_inline_source(
                page_values(body),
                data,
            ),
{
    let values = page_values(body);
    let found = with_values(no_favicons(), values, page);
    let all = page_favicons(body, page);
    assert forall|url: Seq<char>| #[trigger] all.urls.contains(url) implies root_favicon(page)
        == Some(url) || has_url_source(values, page, url) by {
        let i = choose|i: int| 0 <= i < all.urls.len() && all.urls[i] == url;
        if i < found.urls.len() {
            assert(found.urls[i] == url);
            lemma_url_sourced(no_favicons(), values, page, url);
        }
    }
    assert forall|data: Seq<u8>| #[trigger]
        all.inline_favicons.contains(data) implies has_inline_source(values, data) by {
        lemma_inline_sourced(no_favicons(), values, page, data);
    }
}

proof fn lemma_url_sourced(
    found: Favicons,
    values: Seq<Seq<u8>>,
    page: Seq<char>,
    url: Seq<char>,
)
    requires
        with_values(found, values, page).urls.contains(url),
    ensures
        found.urls.contains(url) || has_url_source(values, page, url),
    decreases values.len(),
{
    if values.len() > 0 {
        let next = with_value(found, values[0], page);
        let rest = values.drop_first();
        lemma_url_sourced(next, rest, page, url);
        if next.urls.contains(url) {
            let i = choose|i: int| 0 <= i < next.urls.len() && next.urls[i] == url;
            if i < found.urls.len() {
                assert(found.urls[i] == url);
            } else {
                assert(refers_to_url(values[0], page, url));
            }
        } else {
            let k = choose|k: int|
                0 <= k < rest.len() && refers_to_url(#[trigger] rest[k], page, url);
            assert(values[k + 1] == rest[k]);
        }
    }
}

proof fn lemma_inline_sourced(
    found: Favicons,
    values: Seq<Seq<u8>>,
    page: Seq<char>,
    data: Seq<u8>,
)
    requires
        with_values(found, values, page).inline_favicons.contains(data),
    ensures
        found.inline_favicons.contains(data) || has_inline_source(values, data),
    decreases values.len(),
{
    if values.len() > 0 {
        let next = with_value(found, values[0], page);
        let rest = values.drop_first();
        lemma_inline_sourced(next, rest, page, data);
        if next.inline_favicons.contains(data) {
            let i = choose|i: int|
                0 <= i < next.inline_favicons.len() && next.inline_favicons[i] == data;
            if i < found.inline_favicons.len() {
                assert(found.inline_favicons[i] == data);
            } else {
                assert(holds_inline(values[0], data));
            }
        } else {
            let k = choose|k: int| 0 <= k < rest.len() && holds_inline(#[trigger] rest[k], data);
            assert(values[k + 1] == rest[k]);
        }
    }
}

/// A URL reference met again adds nothing.
pub proof fn repeated_url_adds_nothing(found: Favicons, value: Seq<u8>, page: Seq<char>)
    requires
        reference_of(value) matches Some(reference) && !starts_with(reference, "data:"@),
    ensures
        with_value(with_value(found, value, page), value, page) == with_value(found, value, page),
{
    let url = resolved(page, reference_of(value)->0);
    let once = with_value(found, value, page);
    if !found.urls.contains(url) {
        assert(once.urls[found.urls.len() as int] == url);
    }
}

/// The case of a `rel` value does not matter.
pub proof fn rel_is_matched_in_any_case(rel: Seq<u8>, other: Seq<u8>)
    requires
        eq_ascii_nocase(rel, other),
    ensures
        is_favicon_rel(rel) == is_favicon_rel(other),
{
    lemma_nocase_class(rel, other, ascii("icon"@));
    lemma_nocase_class(rel, other, ascii("shortcut icon"@));
    lemma_nocase_class(rel, other, ascii("mask-icon"@));
    lemma_nocase_class(rel, other, ascii("apple-touch-icon"@));
}

proof fn lemma_nocase_class(a: Seq<u8>, b: Seq<u8>, c: Seq<u8>)
    requires
        eq_ascii_nocase(a, b),
    ensures
        eq_ascii_nocase(a, c) == eq_ascii_nocase(b, c),
{
    if a.len() == c.len() {
        assert forall|i: int| 0 <= i < a.len() implies crate::ascii::ascii_lower(#[trigger] a[i])
            == crate::ascii::ascii_lower(b[i]) by {}
        if eq_ascii_nocase(a, c) {
            assert forall|i: int| 0 <= i < b.len() implies crate::ascii::ascii_lower(
                #[trigger] b[i],
            ) == crate::ascii::ascii_lower(c[i]) by {
                assert(crate::ascii::ascii_lower(a[i]) == crate::ascii::ascii_lower(c[i]));
            }
        }
        if eq_ascii_nocase(b, c) {
            assert forall|i: int| 0 <= i < a.len() implies crate::ascii::ascii_lower(
                #[trigger] a[i],
            ) == crate::ascii::ascii_lower(c[i]) by {
                assert(crate::ascii::ascii_lower(b[i]) == crate::ascii::ascii_lower(c[i]));
            }
        }
    }
}

} // verus!
