//! Favicons that a page declares are found.

use vstd::prelude::*;

use crate::ascii::ascii;
use crate::ascii::ascii_lower;
use crate::ascii::eq_ascii_nocase;
use crate::ascii::is_ascii_space;
use crate::base64::encoded;
use crate::favicon_laws::holds_inline;
use crate::favicon_laws::refers_to_url;
use crate::favicon_search::as_seq;
use crate::favicon_search::data_uri_content;
use crate::favicon_search::is_favicon_rel;
use crate::favicon_search::link_value;
use crate::favicon_search::link_values;
use crate::favicon_search::meta_value;
use crate::favicon_search::meta_values;
use crate::favicon_search::page_favicons;
use crate::favicon_search::page_link_values;
use crate::favicon_search::page_values;
use crate::favicon_search::tags;
use crate::favicon_search::tags_from;
use crate::opening::first_opening;
use crate::opening::is_lower;
use crate::opening::is_mixed_case;
use crate::opening::is_upper;
use crate::opening::lemma_spelling_keeps_marks;
use crate::opening::opens_at;
use crate::opening::Opening;
use crate::search::is_part;
use crate::search::occurs_at;
use crate::tag::closes_tag;
use crate::tag::first_close;
use crate::tag::is_quote;
use crate::tag::open_quote;
use crate::tag::tag_end;
use crate::tag::MAX_TAG_LEN;
use crate::tag_laws::written_tag;
use crate::text::without_space;

verus! {

/// The openings of `<link>` tags that are looked for.
pub open spec fn is_link_opening(opening: Opening) -> bool {
    ||| opening == Opening::Exact(ascii("<link "@))
    ||| opening == Opening::Exact(ascii("<LINK "@))
    ||| opening == Opening::Mixed(ascii("<link "@))
}

/// The openings of `<meta>` tags that are looked for.
pub open spec fn is_meta_opening(opening: Opening) -> bool {
    ||| opening == Opening::Exact(ascii("<meta "@))
    ||| opening == Opening::Exact(ascii("<META "@))
    ||| opening == Opening::Mixed(ascii("<meta "@))
}

/// The opening whose scan meets the spelling `spelled` of `text`.
pub open spec fn opening_of(spelled: Seq<u8>, text: Seq<u8>) -> Opening {
    if is_mixed_case(spelled) {
        Opening::Mixed(text)
    } else {
        Opening::Exact(spelled)
    }
}

/// Every spelling of `<link ` and of `<meta ` is looked for.
pub proof fn every_spelling_is_looked_for(spelled: Seq<u8>)
    ensures
        eq_ascii_nocase(spelled, ascii("<link "@)) ==> is_link_opening(
            opening_of(spelled, ascii("<link "@)),
        ),
        eq_ascii_nocase(spelled, ascii("<meta "@)) ==> is_meta_opening(
            opening_of(spelled, ascii("<meta "@)),
        ),
{
    reveal_strlit("<link ");
    reveal_strlit("<LINK ");
    reveal_strlit("<meta ");
    reveal_strlit("<META ");
    if eq_ascii_nocase(spelled, ascii("<link "@)) {
        lemma_one_case(spelled, ascii("<link "@), ascii("<LINK "@));
    }
    if eq_ascii_nocase(spelled, ascii("<meta "@)) {
        lemma_one_case(spelled, ascii("<meta "@), ascii("<META "@));
    }
}

/// A spelling without mixed case is the lower-case or the upper-case one.
proof fn lemma_one_case(spelled: Seq<u8>, lower: Seq<u8>, upper: Seq<u8>)
    requires
        eq_ascii_nocase(spelled, lower),
        eq_ascii_nocase(upper, lower),
        forall|i: int| 0 <= i < lower.len() ==> !is_upper(#[trigger] lower[i]),
        forall|i: int| 0 <= i < upper.len() ==> !is_lower(#[trigger] upper[i]),
    ensures
        is_mixed_case(spelled) || spelled == lower || spelled == upper,
{
    if !exists|i: int| 0 <= i < spelled.len() && is_upper(#[trigger] spelled[i]) {
        assert forall|i: int| 0 <= i < spelled.len() implies spelled[i] == lower[i] by {
            assert(!is_upper(spelled[i]) && !is_upper(lower[i]));
            assert(ascii_lower(spelled[i]) == ascii_lower(lower[i]));
        }
        assert(spelled =~= lower);
    } else if !exists|i: int| 0 <= i < spelled.len() && is_lower(#[trigger] spelled[i]) {
        assert forall|i: int| 0 <= i < spelled.len() implies spelled[i] == upper[i] by {
            assert(!is_lower(spelled[i]) && !is_lower(upper[i]));
            assert(ascii_lower(spelled[i]) == ascii_lower(lower[i]));
            assert(ascii_lower(upper[i]) == ascii_lower(lower[i]));
        }
        assert(spelled =~= upper);
    }
}

/// A `<link>` tag with a quoted `rel` and a quoted `href`.
pub open spec fn written_link(
    opening: Seq<u8>,
    rel: Seq<u8>,
    href: Seq<u8>,
    quote: u8,
) -> Seq<u8> {
    written_tag(
        opening + ascii("rel"@) + seq!['=' as u8],
        rel,
        seq![' ' as u8] + ascii("href"@) + seq!['=' as u8],
        href,
        quote,
    )
}

/// A `<meta>` tag with a quoted `name` and a quoted `content`.
pub open spec fn written_meta(
    opening: Seq<u8>,
    name: Seq<u8>,
    content: Seq<u8>,
    quote: u8,
) -> Seq<u8> {
    written_tag(
        opening + ascii("name"@) + seq!['=' as u8],
        name,
        seq![' ' as u8] + ascii("content"@) + seq!['=' as u8],
        content,
        quote,
    )
}

/// Every scanned tag is a piece of the page that begins as was asked for, ends
/// in its `>`, and is no longer than a tag may be.
pub proof fn scanned_tags_are_whole(body: Seq<u8>, opening: Opening, k: int)
    requires
        0 <= k < tags(body, opening).len(),
        !opening.text().contains('>' as u8),
    ensures
        is_part(body, tags(body, opening)[k]),
        opens_at(tags(body, opening)[k], opening, 0),
        tags(body, opening)[k].last() == '>' as u8,
        tags(body, opening)[k].len() <= MAX_TAG_LEN,
{
    lemma_whole_tags(body, opening, 0, k);
}

proof fn lemma_whole_tags(body: Seq<u8>, opening: Opening, pos: int, k: int)
    requires
        0 <= pos,
        0 <= k < tags_from(body, opening, pos).len(),
        !opening.text().contains('>' as u8),
    ensures
        is_part(body, tags_from(body, opening, pos)[k]),
        opens_at(tags_from(body, opening, pos)[k], opening, 0),
        tags_from(body, opening, pos)[k].last() == '>' as u8,
        tags_from(body, opening, pos)[k].len() <= MAX_TAG_LEN,
    decreases k,
{
    crate::opening::first_opening_is_least(body, opening, pos);
    let start = first_opening(body, opening, pos)->0;
    crate::tag::tag_end_is_first_unquoted_close(body, start);
    let end = tag_end(body, start)->0;
    let tag = body.subrange(start, end);
    if k == 0 {
        let n = opening.text().len();
        let seen = body.subrange(start, start + n);
        assert(occurs_at(body, tag, start));
        if end - 1 < start + n {
            assert(seen[end - 1 - start] == '>' as u8);
            lemma_spelling_keeps_marks(opening, seen, end - 1 - start, '>' as u8);
            assert(opening.text().contains(opening.text()[end - 1 - start]));
        }
        assert(tag.subrange(0, n as int) =~= seen);
    } else {
        lemma_whole_tags(body, opening, end, k - 1);
        assert(tags_from(body, opening, pos)[k] == tags_from(body, opening, end)[k - 1]);
    }
}

/// What a scanned `<link>` tag refers to is a favicon reference of the page.
pub proof fn every_link_counts(body: Seq<u8>, opening: Opening, k: int)
    requires
        is_link_opening(opening),
        0 <= k < tags(body, opening).len(),
    ensures
        link_value(tags(body, opening)[k]) matches Some(v) ==> page_values(body).contains(v),
{
    if let Some(v) = link_value(tags(body, opening)[k]) {
        lemma_link_values(tags(body, opening), k);
        let lower = link_values(tags(body, Opening::Exact(ascii("<link "@)))).len();
        let upper = link_values(tags(body, Opening::Exact(ascii("<LINK "@)))).len();
        let i = choose|i: int|
            0 <= i < link_values(tags(body, opening)).len() && link_values(tags(body, opening))[i]
                == v;
        if opening == Opening::Exact(ascii("<link "@)) {
            assert(page_values(body)[i] == v);
        } else if opening == Opening::Exact(ascii("<LINK "@)) {
            assert(page_values(body)[lower + i] == v);
        } else {
            assert(page_values(body)[lower + upper + i] == v);
        }
    }
}

/// What a scanned `<meta>` tag refers to is a favicon reference of the page.
pub proof fn every_meta_counts(body: Seq<u8>, opening: Opening, k: int)
    requires
        is_meta_opening(opening),
        0 <= k < tags(body, opening).len(),
    ensures
        meta_value(tags(body, opening)[k]) matches Some(v) ==> page_values(body).contains(v),
{
    if let Some(v) = meta_value(tags(body, opening)[k]) {
        lemma_meta_values(tags(body, opening), k);
        let links = page_link_values(body).len();
        let lower = meta_values(tags(body, Opening::Exact(ascii("<meta "@)))).len();
        let upper = meta_values(tags(body, Opening::Exact(ascii("<META "@)))).len();
        let i = choose|i: int|
            0 <= i < meta_values(tags(body, opening)).len() && meta_values(tags(body, opening))[i]
                == v;
        if opening == Opening::Exact(ascii("<meta "@)) {
            assert(page_values(body)[links + i] == v);
        } else if opening == Opening::Exact(ascii("<META "@)) {
            assert(page_values(body)[links + lower + i] == v);
        } else {
            assert(page_values(body)[links + lower + upper + i] == v);
        }
    }
}

proof fn lemma_link_values(tags: Seq<Seq<u8>>, k: int)
    requires
        0 <= k < tags.len(),
    ensures
        link_value(tags[k]) matches Some(v) ==> link_values(tags).contains(v),
    decreases tags.len(),
{
    if let Some(v) = link_value(tags[k]) {
        let front = as_seq(link_value(tags[0]));
        if k == 0 {
            assert(link_values(tags)[0] == v);
        } else {
            let rest = tags.drop_first();
            assert(rest[k - 1] == tags[k]);
            lemma_link_values(rest, k - 1);
            let i = choose|i: int| 0 <= i < link_values(rest).len() && link_values(rest)[i] == v;
            assert(link_values(tags)[front.len() + i] == v);
        }
    }
}

proof fn lemma_meta_values(tags: Seq<Seq<u8>>, k: int)
    requires
        0 <= k < tags.len(),
    ensures
        meta_value(tags[k]) matches Some(v) ==> meta_values(tags).contains(v),
    decreases tags.len(),
{
    if let Some(v) = meta_value(tags[k]) {
        let front = as_seq(meta_value(tags[0]));
        if k == 0 {
            assert(meta_values(tags)[0] == v);
        } else {
            let rest = tags.drop_first();
            assert(rest[k - 1] == tags[k]);
            lemma_meta_values(rest, k - 1);
            let i = choose|i: int| 0 <= i < meta_values(rest).len() && meta_values(rest)[i] == v;
            assert(meta_values(tags)[front.len() + i] == v);
        }
    }
}

/// Spelling in another case brings in no byte below the letters.
pub proof fn lemma_nocase_excludes(text: Seq<u8>, word: Seq<u8>, b: u8)
    requires
        eq_ascii_nocase(text, word),
        !word.contains(b),
        b < 0x41,
    ensures
        !text.contains(b),
{
    assert forall|i: int| 0 <= i < text.len() implies text[i] != b by {
        assert(ascii_lower(text[i]) == ascii_lower(word[i]));
        assert(word.contains(word[i]));
    }
}

/// A `rel` value that marks a favicon holds no quotation mark.
proof fn lemma_favicon_rel_is_unquoted(rel: Seq<u8>, b: u8)
    requires
        is_favicon_rel(rel),
        is_quote(b),
    ensures
        !rel.contains(b),
{
    reveal_strlit("icon");
    reveal_strlit("shortcut icon");
    reveal_strlit("mask-icon");
    reveal_strlit("apple-touch-icon");
    if eq_ascii_nocase(rel, ascii("icon"@)) {
        lemma_nocase_excludes(rel, ascii("icon"@), b);
    } else if eq_ascii_nocase(rel, ascii("shortcut icon"@)) {
        lemma_nocase_excludes(rel, ascii("shortcut icon"@), b);
    } else if eq_ascii_nocase(rel, ascii("mask-icon"@)) {
        lemma_nocase_excludes(rel, ascii("mask-icon"@), b);
    } else {
        lemma_nocase_excludes(rel, ascii("apple-touch-icon"@), b);
    }
}

/// The `href` of a `<link>` tag whose `rel` marks a favicon is read back,
/// however the tag is spelled, in quotation marks of either kind.
pub proof fn written_link_is_read_back(
    opening: Seq<u8>,
    rel: Seq<u8>,
    href: Seq<u8>,
    quote: u8,
)
    requires
        eq_ascii_nocase(opening, ascii("<link "@)),
        is_quote(quote),
        is_favicon_rel(rel),
        !href.contains(quote),
    ensures
        link_value(written_link(opening, rel, href, quote)) == Some(href),
{
    reveal_strlit("<link ");
    reveal_strlit("rel");
    reveal_strlit("href");
    lemma_favicon_rel_is_unquoted(rel, quote);
    lemma_nocase_excludes(opening, ascii("<link "@), '=' as u8);
    assert(ascii_lower(opening[5]) == ascii_lower(ascii("<link "@)[5]));
    let front = opening + ascii("rel"@);
    assert(front.last() == 'l' as u8);
    assert(crate::ascii::trimmed_end(front) == front);
    assert(!eq_ascii_nocase(front.subrange(5, 9), ascii("href"@))) by {
        assert(ascii_lower(front.subrange(5, 9)[0]) != ascii_lower(ascii("href"@)[0]));
    }
    assert(is_ascii_space(opening.last()));
    crate::tag_laws::written_attributes_are_read_back(
        opening,
        ascii("rel"@),
        rel,
        ascii("href"@),
        href,
        quote,
    );
}

/// The `content` of a `<meta>` tag named `msapplication-TileImage`, in any
/// case, is read back, however the tag is spelled, in quotation marks of either
/// kind.
pub proof fn written_meta_is_read_back(
    opening: Seq<u8>,
    name: Seq<u8>,
    content: Seq<u8>,
    quote: u8,
)
    requires
        eq_ascii_nocase(opening, ascii("<meta "@)),
        is_quote(quote),
        eq_ascii_nocase(name, ascii("msapplication-TileImage"@)),
        !content.contains(quote),
    ensures
        meta_value(written_meta(opening, name, content, quote)) == Some(content),
{
    reveal_strlit("<meta ");
    reveal_strlit("name");
    reveal_strlit("content");
    reveal_strlit("msapplication-TileImage");
    lemma_nocase_excludes(name, ascii("msapplication-TileImage"@), '=' as u8);
    lemma_nocase_excludes(name, ascii("msapplication-TileImage"@), quote);
    lemma_nocase_excludes(opening, ascii("<meta "@), '=' as u8);
    assert(ascii_lower(opening[5]) == ascii_lower(ascii("<meta "@)[5]));
    let front = opening + ascii("name"@);
    assert(front.last() == 'e' as u8);
    assert(crate::ascii::trimmed_end(front) == front);
    assert(!eq_ascii_nocase(front.subrange(3, 10), ascii("content"@))) by {
        assert(ascii_lower(opening[3]) == ascii_lower(ascii("<meta "@)[3]));
        assert(ascii_lower(front.subrange(3, 10)[0]) != ascii_lower(ascii("content"@)[0]));
    }
    assert(is_ascii_space(opening.last()));
    crate::tag_laws::written_attributes_are_read_back(
        opening,
        ascii("name"@),
        name,
        ascii("content"@),
        content,
        quote,
    );
}

/// Whether every tag that opens as `opening` says in the part of `text` from
/// `pos` on is closed within `text`.
pub open spec fn all_closed_from(text: Seq<u8>, opening: Opening, pos: int) -> bool
    decreases text.len() - pos,
    when 0 <= pos
{
    match first_opening(text, opening, pos) {
        None => true,
        Some(start) => match tag_end(text, start) {
            None => false,
            Some(end) => {
                proof {
                    crate::opening::first_opening_is_least(text, opening, pos);
                    crate::tag::tag_end_is_first_unquoted_close(text, start);
                }
                all_closed_from(text, opening, end)
            },
        },
    }
}

/// Whether every tag in `text` that opens as `opening` says is closed in it.
pub open spec fn all_closed(text: Seq<u8>, opening: Opening) -> bool {
    all_closed_from(text, opening, 0)
}

proof fn lemma_same_quote(text: Seq<u8>, rest: Seq<u8>, start: int, i: int)
    requires
        0 <= start,
        i <= text.len(),
    ensures
        open_quote(text + rest, start, i) == open_quote(text, start, i),
    decreases i - start,
{
    if i > start {
        lemma_same_quote(text, rest, start, i - 1);
    }
}

proof fn lemma_same_close(text: Seq<u8>, rest: Seq<u8>, start: int, i: int)
    requires
        0 <= start <= i,
        first_close(text, start, i) is Some,
    ensures
        first_close(text + rest, start, i) == first_close(text, start, i),
    decreases text.len() - i,
{
    lemma_same_quote(text, rest, start, i);
    if !closes_tag(text, start, i) {
        lemma_same_close(text, rest, start, i + 1);
    }
}

proof fn lemma_same_opening(text: Seq<u8>, rest: Seq<u8>, opening: Opening, i: int)
    requires
        0 <= i,
        i + opening.text().len() <= text.len(),
    ensures
        opens_at(text + rest, opening, i) == opens_at(text, opening, i),
{
    let n = opening.text().len();
    assert((text + rest).subrange(i, i + n) =~= text.subrange(i, i + n));
}

/// The scan of a page reaches a tag that stands behind closed tags.
pub proof fn lemma_scan_reaches(
    before: Seq<u8>,
    opening: Opening,
    tag: Seq<u8>,
    after: Seq<u8>,
    pos: int,
)
    requires
        0 <= pos <= before.len(),
        all_closed_from(before, opening, pos),
        opening.text().len() > 0,
        opening.text()[0] == '<' as u8,
        forall|i: int| 1 <= i < opening.text().len() ==> #[trigger] opening.text()[i] != '<' as u8,
        opens_at(tag, opening, 0),
        tag_end(before + tag + after, before.len() as int) == Some(
            (before.len() + tag.len()) as int,
        ),
    ensures
        tags_from(before + tag + after, opening, pos).contains(tag),
    decreases before.len() - pos,
{
    let rest = tag + after;
    let body = before + tag + after;
    assert(body =~= before + rest);
    let at = before.len() as int;
    let n = opening.text().len();
    crate::opening::first_opening_is_least(before, opening, pos);
    match first_opening(before, opening, pos) {
        None => {
            let own = tag.subrange(0, n as int);
            assert(body.subrange(at, at + n) =~= own);
            lemma_spelling_keeps_marks(opening, own, 0, '<' as u8);
            assert forall|j: int| pos <= j < at implies !opens_at(body, opening, j) by {
                if j + n <= at {
                    lemma_same_opening(before, rest, opening, j);
                } else if opens_at(body, opening, j) {
                    let seen = body.subrange(j, j + n);
                    assert(own[0] == body[at] && seen[at - j] == body[at]);
                    lemma_spelling_keeps_marks(opening, seen, at - j, '<' as u8);
                }
            }
            crate::opening::lemma_first_opening_found(body, opening, pos, at);
            assert(body.subrange(at, at + tag.len()) =~= tag);
            assert(tags_from(body, opening, pos)[0] == tag);
        },
        Some(start) => {
            crate::tag::tag_end_is_first_unquoted_close(before, start);
            let end = tag_end(before, start)->0;
            assert forall|j: int| pos <= j < start implies !opens_at(body, opening, j) by {
                lemma_same_opening(before, rest, opening, j);
            }
            lemma_same_opening(before, rest, opening, start);
            crate::opening::lemma_first_opening_found(body, opening, pos, start);
            lemma_same_close(before, rest, start, start);
            lemma_scan_reaches(before, opening, tag, after, end);
            let later = tags_from(body, opening, end);
            let k = choose|k: int| 0 <= k < later.len() && later[k] == tag;
            assert(tags_from(body, opening, pos)[k + 1] == tag);
        },
    }
}

/// What a reference of a page stands for is listed.
pub proof fn lemma_listed_value(body: Seq<u8>, page: Seq<char>, value: Seq<u8>)
    requires
        page_values(body).contains(value),
    ensures
        forall|url: Seq<char>| #[trigger]
            refers_to_url(value, page, url) ==> page_favicons(body, page).urls.contains(url),
        forall|data: Seq<u8>| #[trigger]
            holds_inline(value, data) ==> page_favicons(body, page).inline_favicons.contains(data),
{
    let k = choose|k: int| 0 <= k < page_values(body).len() && page_values(body)[k] == value;
    crate::favicon_laws::every_reference_is_listed(body, page, k);
}

/// A favicon that a page declares in a `<link>` tag is listed: the URL that the
/// `href` stands for, or the inline favicon that it holds. The tag may be
/// spelled in any case and stand anywhere, as long as the tags that are scanned
/// before it in the same pass are closed before it.
pub proof fn declared_link_is_listed(
    before: Seq<u8>,
    opening: Seq<u8>,
    rel: Seq<u8>,
    href: Seq<u8>,
    quote: u8,
    after: Seq<u8>,
    page: Seq<char>,
)
    requires
        eq_ascii_nocase(opening, ascii("<link "@)),
        is_quote(quote),
        is_favicon_rel(rel),
        !href.contains(quote),
        written_link(opening, rel, href, quote).len() <= MAX_TAG_LEN,
        all_closed(before, opening_of(opening, ascii("<link "@))),
    ensures
        ({
            let body = before + written_link(opening, rel, href, quote) + after;
            &&& forall|url: Seq<char>| #[trigger]
                refers_to_url(href, page, url) ==> page_favicons(body, page).urls.contains(url)
            &&& forall|data: Seq<u8>| #[trigger]
                holds_inline(href, data) ==> page_favicons(body, page).inline_favicons.contains(
                    data,
                )
        }),
{
    reveal_strlit("<link ");
    reveal_strlit("rel");
    reveal_strlit("href");
    let tag = written_link(opening, rel, href, quote);
    let body = before + tag + after;
    lemma_favicon_rel_is_unquoted(rel, quote);
    crate::tag_laws::written_tag_ends_at_its_close(
        before,
        opening + ascii("rel"@) + seq!['=' as u8],
        rel,
        seq![' ' as u8] + ascii("href"@) + seq!['=' as u8],
        href,
        quote,
        after,
    );
    assert(tag.subrange(0, opening.len() as int) =~= opening);
    let scan = opening_of(opening, ascii("<link "@));
    assert forall|i: int| 0 <= i < 6 implies (#[trigger] opening[i] == '<' as u8 <==> i == 0) by {
        assert(ascii_lower(opening[i]) == ascii_lower(ascii("<link "@)[i]));
    }
    lemma_scan_reaches(before, scan, tag, after, 0);
    let k = choose|k: int| 0 <= k < tags(body, scan).len() && tags(body, scan)[k] == tag;
    every_spelling_is_looked_for(opening);
    written_link_is_read_back(opening, rel, href, quote);
    every_link_counts(body, scan, k);
    lemma_listed_value(body, page, href);
}

/// A favicon that a page declares in a `<meta>` tag is listed. The tag may be
/// spelled in any case and stand anywhere, as long as the tags that are scanned
/// before it in the same pass are closed before it.
pub proof fn declared_meta_is_listed(
    before: Seq<u8>,
    opening: Seq<u8>,
    name: Seq<u8>,
    content: Seq<u8>,
    quote: u8,
    after: Seq<u8>,
    page: Seq<char>,
)
    requires
        eq_ascii_nocase(opening, ascii("<meta "@)),
        is_quote(quote),
        eq_ascii_nocase(name, ascii("msapplication-TileImage"@)),
        !content.contains(quote),
        written_meta(opening, name, content, quote).len() <= MAX_TAG_LEN,
        all_closed(before, opening_of(opening, ascii("<meta "@))),
    ensures
        ({
            let body = before + written_meta(opening, name, content, quote) + after;
            &&& forall|url: Seq<char>| #[trigger]
                refers_to_url(content, page, url) ==> page_favicons(body, page).urls.contains(url)
            &&& forall|data: Seq<u8>| #[trigger]
                holds_inline(content, data) ==> page_favicons(
                    body,
                    page,
                ).inline_favicons.contains(data)
        }),
{
    reveal_strlit("<meta ");
    reveal_strlit("name");
    reveal_strlit("content");
    reveal_strlit("msapplication-TileImage");
    let tag = written_meta(opening, name, content, quote);
    let body = before + tag + after;
    lemma_nocase_excludes(name, ascii("msapplication-TileImage"@), quote);
    crate::tag_laws::written_tag_ends_at_its_close(
        before,
        opening + ascii("name"@) + seq!['=' as u8],
        name,
        seq![' ' as u8] + ascii("content"@) + seq!['=' as u8],
        content,
        quote,
        after,
    );
    assert(tag.subrange(0, opening.len() as int) =~= opening);
    let scan = opening_of(opening, ascii("<meta "@));
    assert forall|i: int| 0 <= i < 6 implies (#[trigger] opening[i] == '<' as u8 <==> i == 0) by {
        assert(ascii_lower(opening[i]) == ascii_lower(ascii("<meta "@)[i]));
    }
    lemma_scan_reaches(before, scan, tag, after, 0);
    let k = choose|k: int| 0 <= k < tags(body, scan).len() && tags(body, scan)[k] == tag;
    every_spelling_is_looked_for(opening);
    written_meta_is_read_back(opening, name, content, quote);
    every_meta_counts(body, scan, k);
    lemma_listed_value(body, page, content);
}

/// A `data:` URI gives back the bytes whose base64 form it holds, whatever its
/// media type, and with any whitespace and padding in the data.
pub proof fn inline_data_is_given_back(
    media_type: Seq<char>,
    data: Seq<char>,
    bytes: Seq<u8>,
    padding: Seq<char>,
)
    requires
        !media_type.contains(','),
        without_space(data) == encoded(bytes) + padding,
        padding.len() > 0 ==> padding[0] == '=',
    ensures
        data_uri_content("data:"@ + media_type + seq![','] + data) == Some(bytes),
{
    reveal_strlit("data:");
    let uri = "data:"@ + media_type + seq![','] + data;
    let comma = 5 + media_type.len() as int;
    assert(uri[comma] == ',');
    assert forall|j: int| 5 <= j < comma implies uri[j] != ',' by {
        assert(uri[j] == media_type[j - 5]);
        assert(media_type.contains(media_type[j - 5]));
    }
    crate::search::lemma_first_index_found(uri, ',', 5, comma);
    assert(uri.subrange(comma + 1, uri.len() as int) =~= data);
    crate::base64::decoding_inverts_encoding(bytes, padding);
}

} // verus!
