//! What single tags, single values and whole pages contribute to a result.

use vstd::prelude::*;

use crate::ascii::ascii;
use crate::ascii::eq_ascii_nocase;
use crate::base64::decoded;
use crate::favicon_search::as_seq;
use crate::favicon_search::data_uri_content;
use crate::favicon_search::link_value;
use crate::favicon_search::link_values;
use crate::favicon_search::meta_value;
use crate::favicon_search::meta_values;
use crate::favicon_search::no_favicons;
use crate::favicon_search::page_favicons;
use crate::favicon_search::page_values;
use crate::favicon_search::tags;
use crate::favicon_search::with_value;
use crate::favicon_search::with_values;
use crate::favicon_search::FaviconResult;
use crate::favicon_search::Favicons;
use crate::opening::Opening;
use crate::tag::attribute;
use crate::tag::bytes_view;
use crate::text::trimmed;
use crate::text::without_space;
use crate::url::resolved;
use crate::url::root_favicon;

verus! {

/// The reference of a `<link>` tag is its `href`, where its `rel` is `icon`,
/// `shortcut icon`, `mask-icon` or `apple-touch-icon` in any case, whatever
/// else stands in the tag and in whatever order; any other `rel`, or none,
/// makes no reference.
pub proof fn link_reference_is_the_href_of_a_favicon_rel(tag: Seq<u8>)
    ensures
        attribute(tag, ascii("rel"@)) is None ==> link_value(tag) is None,
        attribute(tag, ascii("rel"@)) matches Some(rel) ==> {
            let marks = eq_ascii_nocase(rel, ascii("icon"@)) || eq_ascii_nocase(
                rel,
                ascii("shortcut icon"@),
            ) || eq_ascii_nocase(rel, ascii("mask-icon"@)) || eq_ascii_nocase(
                rel,
                ascii("apple-touch-icon"@),
            );
            &&& marks ==> link_value(tag) == attribute(tag, ascii("href"@))
            &&& !marks ==> link_value(tag) is None
        },
{
}

/// The reference of a `<meta>` tag is its `content`, where its `name` is
/// `msapplication-TileImage` in any case, whatever else stands in the tag and
/// in whatever order; any other name, or none, makes no reference.
pub proof fn meta_reference_is_the_content_of_a_tile_image(tag: Seq<u8>)
    ensures
        attribute(tag, ascii("name"@)) is None ==> meta_value(tag) is None,
        attribute(tag, ascii("name"@)) matches Some(name) ==> {
            let marks = eq_ascii_nocase(name, ascii("msapplication-TileImage"@));
            &&& marks ==> meta_value(tag) == attribute(tag, ascii("content"@))
            &&& !marks ==> meta_value(tag) is None
        },
{
}

/// Letters are compared by their alphabet place alone: two byte strings are
/// equal without regard to case where they are equally long and each byte is
/// the same, or the same letter in the other case.
pub proof fn case_is_all_that_is_ignored(a: Seq<u8>, b: Seq<u8>)
    ensures
        eq_ascii_nocase(a, b) <==> a.len() == b.len() && forall|i: int|
            0 <= i < a.len() ==> #[trigger] a[i] == b[i] || (65 <= a[i] <= 90 && b[i] == a[i] + 32)
                || (65 <= b[i] <= 90 && a[i] == b[i] + 32),
{
    if eq_ascii_nocase(a, b) {
        assert forall|i: int| 0 <= i < a.len() implies #[trigger] a[i] == b[i] || (65 <= a[i] <= 90
            && b[i] == a[i] + 32) || (65 <= b[i] <= 90 && a[i] == b[i] + 32) by {
            assert(crate::ascii::ascii_lower(a[i]) == crate::ascii::ascii_lower(b[i]));
        }
    }
    if a.len() == b.len() && forall|i: int|
        0 <= i < a.len() ==> #[trigger] a[i] == b[i] || (65 <= a[i] <= 90 && b[i] == a[i] + 32) || (
        65 <= b[i] <= 90 && a[i] == b[i] + 32) {
        assert forall|i: int| 0 <= i < a.len() implies crate::ascii::ascii_lower(#[trigger] a[i])
            == crate::ascii::ascii_lower(b[i]) by {}
    }
}

/// The bytes of a text are those of its characters, one by one.
pub proof fn text_is_written_byte_by_byte(text: Seq<char>)
    ensures
        ascii(text).len() == text.len(),
        forall|i: int| 0 <= i < text.len() ==> #[trigger] ascii(text)[i] == text[i] as u8,
{
}

/// A value that is no UTF-8, and one that is blank, adds nothing.
pub proof fn value_without_text_adds_nothing(found: Favicons, value: Seq<u8>, page: Seq<char>)
    requires
        !vstd::utf8::valid_utf8(value) || trimmed(vstd::utf8::decode_utf8(value)).len() == 0,
    ensures
        with_value(found, value, page) == found,
{
}

/// Whether a text begins with `data:`.
pub open spec fn is_data_uri(text: Seq<char>) -> bool {
    text.len() >= 5 && text[0] == 'd' && text[1] == 'a' && text[2] == 't' && text[3] == 'a'
        && text[4] == ':'
}

proof fn lemma_data_uri(text: Seq<char>)
    ensures
        is_data_uri(text) == crate::search::starts_with(text, "data:"@),
{
    reveal_strlit("data:");
    if text.len() >= 5 {
        let front = text.subrange(0, 5);
        assert(front[0] == text[0] && front[1] == text[1] && front[2] == text[2] && front[3]
            == text[3] && front[4] == text[4]);
        if is_data_uri(text) {
            assert(front =~= "data:"@);
        }
    }
}

/// A value that is text but no `data:` URI adds the URL that it stands for on
/// the page, behind the others, unless that is there already, and nothing else.
pub proof fn reference_adds_its_url_once(found: Favicons, value: Seq<u8>, page: Seq<char>)
    requires
        vstd::utf8::valid_utf8(value),
        trimmed(vstd::utf8::decode_utf8(value)).len() > 0,
        !is_data_uri(trimmed(vstd::utf8::decode_utf8(value))),
    ensures
        ({
            let url = resolved(page, trimmed(vstd::utf8::decode_utf8(value)));
            let after = with_value(found, value, page);
            let known = exists|i: int| 0 <= i < found.urls.len() && #[trigger] found.urls[i] == url;
            &&& after.inline_favicons == found.inline_favicons
            &&& known ==> after.urls == found.urls
            &&& !known ==> after.urls == found.urls + seq![url]
        }),
{
    let text = trimmed(vstd::utf8::decode_utf8(value));
    let url = resolved(page, text);
    lemma_data_uri(text);
    assert(found.urls.push(url) =~= found.urls + seq![url]);
    assert(found.urls.contains(url) == exists|i: int|
        0 <= i < found.urls.len() && #[trigger] found.urls[i] == url);
}

/// A value that is a `data:` URI adds its content, behind the others and
/// whether or not it is there already, where it has content, and nothing else.
pub proof fn data_uri_adds_its_content(found: Favicons, value: Seq<u8>, page: Seq<char>)
    requires
        vstd::utf8::valid_utf8(value),
        is_data_uri(trimmed(vstd::utf8::decode_utf8(value))),
    ensures
        ({
            let content = data_uri_content(trimmed(vstd::utf8::decode_utf8(value)));
            let after = with_value(found, value, page);
            &&& after.urls == found.urls
            &&& content is Some && content->0.len() > 0 ==> after.inline_favicons
                == found.inline_favicons + seq![content->0]
            &&& content is None || content->0.len() == 0 ==> after.inline_favicons
                == found.inline_favicons
        }),
{
    let text = trimmed(vstd::utf8::decode_utf8(value));
    lemma_data_uri(text);
    if let Some(data) = data_uri_content(text) {
        assert(found.inline_favicons.push(data) =~= found.inline_favicons + seq![data]);
    }
}

/// The content of a `data:` URI is what the text behind its first comma decodes
/// to, whitespace left out; without a comma there is none.
pub proof fn content_stands_behind_the_first_comma(media_type: Seq<char>, data: Seq<char>)
    requires
        !media_type.contains(','),
    ensures
        data_uri_content(seq!['d', 'a', 't', 'a', ':'] + media_type + seq![','] + data) == decoded(
            without_space(data),
        ),
        data_uri_content(seq!['d', 'a', 't', 'a', ':'] + media_type) is None,
{
    let start = seq!['d', 'a', 't', 'a', ':'];
    let uri = start + media_type + seq![','] + data;
    let comma = 5 + media_type.len() as int;
    assert forall|j: int| 5 <= j < comma implies uri[j] != ',' by {
        assert(uri[j] == media_type[j - 5]);
        assert(media_type.contains(media_type[j - 5]));
    }
    assert(uri[comma] == ',');
    crate::search::lemma_first_index_found(uri, ',', 5, comma);
    assert(uri.subrange(comma + 1, uri.len() as int) =~= data);
    let short = start + media_type;
    assert forall|j: int| 5 <= j < short.len() implies short[j] != ',' by {
        assert(short[j] == media_type[j - 5]);
        assert(media_type.contains(media_type[j - 5]));
    }
    crate::search::lemma_first_index_absent(short, ',', 5);
}

/// Values are processed one by one, in their order: none changes nothing, one
/// is processed by itself, and two lists one behind the other.
pub proof fn values_are_processed_one_by_one(
    found: Favicons,
    value: Seq<u8>,
    first: Seq<Seq<u8>>,
    second: Seq<Seq<u8>>,
    page: Seq<char>,
)
    ensures
        with_values(found, Seq::empty(), page) == found,
        with_values(found, seq![value], page) == with_value(found, value, page),
        with_values(found, first + second, page) == with_values(
            with_values(found, first, page),
            second,
            page,
        ),
{
    assert(seq![value].drop_first() =~= Seq::empty());
    assert(with_values(with_value(found, value, page), seq![value].drop_first(), page)
        == with_value(found, value, page));
    crate::favicon_search::values_add_up(found, first, second, page);
}

/// The references of `<link>` tags are those of each tag, in order.
pub proof fn links_refer_one_by_one(tag: Seq<u8>, first: Seq<Seq<u8>>, second: Seq<Seq<u8>>)
    ensures
        link_values(Seq::empty()) == Seq::<Seq<u8>>::empty(),
        link_value(tag) is None ==> link_values(seq![tag]) == Seq::<Seq<u8>>::empty(),
        link_value(tag) matches Some(v) ==> link_values(seq![tag]) == seq![v],
        link_values(first + second) == link_values(first) + link_values(second),
    decreases first.len(),
{
    let one = seq![tag];
    assert(one.drop_first() =~= Seq::empty());
    assert(link_values(one.drop_first()) =~= Seq::empty());
    assert(link_values(one) =~= as_seq(link_value(tag)));
    if first.len() == 0 {
        assert(first + second =~= second);
        assert(link_values(first) + link_values(second) =~= link_values(second));
    } else {
        assert((first + second).drop_first() =~= first.drop_first() + second);
        links_refer_one_by_one(tag, first.drop_first(), second);
        assert(link_values(first + second) =~= link_values(first) + link_values(second));
    }
}

/// The references of `<meta>` tags are those of each tag, in order.
pub proof fn metas_refer_one_by_one(tag: Seq<u8>, first: Seq<Seq<u8>>, second: Seq<Seq<u8>>)
    ensures
        meta_values(Seq::empty()) == Seq::<Seq<u8>>::empty(),
        meta_value(tag) is None ==> meta_values(seq![tag]) == Seq::<Seq<u8>>::empty(),
        meta_value(tag) matches Some(v) ==> meta_values(seq![tag]) == seq![v],
        meta_values(first + second) == meta_values(first) + meta_values(second),
    decreases first.len(),
{
    let one = seq![tag];
    assert(one.drop_first() =~= Seq::empty());
    assert(meta_values(one.drop_first()) =~= Seq::empty());
    assert(meta_values(one) =~= as_seq(meta_value(tag)));
    if first.len() == 0 {
        assert(first + second =~= second);
        assert(meta_values(first) + meta_values(second) =~= meta_values(second));
    } else {
        assert((first + second).drop_first() =~= first.drop_first() + second);
        metas_refer_one_by_one(tag, first.drop_first(), second);
        assert(meta_values(first + second) =~= meta_values(first) + meta_values(second));
    }
}

/// The references of a page are those of all its `<link>` tags and then those
/// of all its `<meta>` tags: lower case first, then upper case, then mixed.
pub proof fn page_refers_through_all_its_tags(body: Seq<u8>)
    ensures
        page_values(body) == link_values(
            tags(body, Opening::Exact(ascii("<link "@))) + tags(
                body,
                Opening::Exact(ascii("<LINK "@)),
            ) + tags(body, Opening::Mixed(ascii("<link "@))),
        ) + meta_values(
            tags(body, Opening::Exact(ascii("<meta "@))) + tags(
                body,
                Opening::Exact(ascii("<META "@)),
            ) + tags(body, Opening::Mixed(ascii("<meta "@))),
        ),
{
    let a = tags(body, Opening::Exact(ascii("<link "@)));
    let b = tags(body, Opening::Exact(ascii("<LINK "@)));
    let c = tags(body, Opening::Mixed(ascii("<link "@)));
    links_refer_one_by_one(Seq::empty(), a + b, c);
    links_refer_one_by_one(Seq::empty(), a, b);
    let d = tags(body, Opening::Exact(ascii("<meta "@)));
    let e = tags(body, Opening::Exact(ascii("<META "@)));
    let f = tags(body, Opening::Mixed(ascii("<meta "@)));
    metas_refer_one_by_one(Seq::empty(), d + e, f);
    metas_refer_one_by_one(Seq::empty(), d, e);
}

/// The favicons of a page are what its references add, one by one, and behind
/// them the default location, unless it is there already or the page URL has no
/// scheme.
pub proof fn page_adds_its_references_and_the_default(body: Seq<u8>, page: Seq<char>)
    ensures
        ({
            let empty = Favicons { urls: Seq::empty(), inline_favicons: Seq::empty() };
            let found = with_values(empty, page_values(body), page);
            let all = page_favicons(body, page);
            &&& all.inline_favicons == found.inline_favicons
            &&& root_favicon(page) is None ==> all.urls == found.urls
            &&& root_favicon(page) matches Some(root) ==> {
                let known = exists|i: int|
                    0 <= i < found.urls.len() && #[trigger] found.urls[i] == root;
                &&& known ==> all.urls == found.urls
                &&& !known ==> all.urls == found.urls + seq![root]
            }
        }),
{
    let empty = Favicons { urls: Seq::empty(), inline_favicons: Seq::empty() };
    assert(no_favicons() == empty);
    let found = with_values(empty, page_values(body), page);
    if let Some(root) = root_favicon(page) {
        assert(found.urls.push(root) =~= found.urls + seq![root]);
        assert(found.urls.contains(root) == exists|i: int|
            0 <= i < found.urls.len() && #[trigger] found.urls[i] == root);
    }
}

/// A result is viewed whole: all its URLs and inline favicons, in order.
pub proof fn result_is_viewed_whole(result: FaviconResult)
    ensures
        result@.urls.len() == result.urls@.len(),
        forall|i: int|
            0 <= i < result.urls@.len() ==> #[trigger] result@.urls[i] == result.urls@[i]@,
        result@.inline_favicons.len() == result.inline_favicons@.len(),
        forall|i: int|
            0 <= i < result.inline_favicons@.len() ==> #[trigger] result@.inline_favicons[i]
                == result.inline_favicons@[i]@,
{
}

/// Optional slices, texts and numbers are viewed whole.
pub proof fn options_are_viewed_whole(
    bytes: Option<&[u8]>,
    text: Option<String>,
    index: Option<usize>,
)
    ensures
        bytes_view(bytes) is Some <==> bytes is Some,
        bytes matches Some(b) ==> bytes_view(bytes) == Some(b@),
        crate::url::string_view(text) is Some <==> text is Some,
        text matches Some(t) ==> crate::url::string_view(text) == Some(t@),
        crate::search::index_view(index) is Some <==> index is Some,
        index matches Some(i) ==> crate::search::index_view(index) == Some(i as int),
{
}

} // verus!
