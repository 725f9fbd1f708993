//! What the scan of a page gives, tag by tag.
//!
//! In every page either no tag opens, or the first one that opens is closed, or
//! it is not; so the three laws on scans here speak of every page.

use vstd::prelude::*;

use crate::ascii::eq_ascii_nocase;
use crate::favicon_search::tags;
use crate::favicon_search::tags_from;
use crate::opening::first_opening;
use crate::opening::opens_at;
use crate::opening::Opening;
use crate::tag::first_close;
use crate::tag::open_quote;
use crate::tag::tag_end;

verus! {

/// A tag opens in one spelling where each byte stands as it is, and in mixed
/// case where the text stands in any case, with some letter of upper and some
/// of lower case.
pub proof fn openings_are_spelled_out(body: Seq<u8>, text: Seq<u8>, i: int)
    requires
        0 <= i,
    ensures
        opens_at(body, Opening::Exact(text), i) <==> i + text.len() <= body.len() && forall|k: int|
            0 <= k < text.len() ==> #[trigger] text[k] == body[i + k],
        opens_at(body, Opening::Mixed(text), i) <==> i + text.len() <= body.len()
            && eq_ascii_nocase(body.subrange(i, i + text.len()), text) && (exists|k: int|
            i <= k < i + text.len() && 65 <= #[trigger] body[k] <= 90) && (exists|k: int|
            i <= k < i + text.len() && 97 <= #[trigger] body[k] <= 122),
{
    crate::text_laws::occurrence_is_element_by_element(body, text, i);
    if i + text.len() <= body.len() {
        let seen = body.subrange(i, i + text.len());
        assert forall|k: int| 0 <= k < seen.len() implies #[trigger] seen[k] == body[i + k] by {}
        if crate::opening::is_mixed_case(seen) {
            let a = choose|a: int|
                0 <= a < seen.len() && crate::opening::is_upper(#[trigger] seen[a]);
            let b = choose|b: int|
                0 <= b < seen.len() && crate::opening::is_lower(#[trigger] seen[b]);
            assert(body[i + a] == seen[a] && body[i + b] == seen[b]);
        }
        if (exists|k: int| i <= k < i + text.len() && 65 <= #[trigger] body[k] <= 90) && (exists|
            k: int,
        | i <= k < i + text.len() && 97 <= #[trigger] body[k] <= 122) {
            let a = choose|k: int| i <= k < i + text.len() && 65 <= #[trigger] body[k] <= 90;
            let b = choose|k: int| i <= k < i + text.len() && 97 <= #[trigger] body[k] <= 122;
            assert(crate::opening::is_upper(seen[a - i]));
            assert(crate::opening::is_lower(seen[b - i]));
        }
    }
}

/// Where no tag opens, the scan gives nothing.
pub proof fn scan_without_openings_is_empty(body: Seq<u8>, opening: Opening)
    requires
        forall|i: int| 0 <= i ==> !#[trigger] opens_at(body, opening, i),
    ensures
        tags(body, opening) == Seq::<Seq<u8>>::empty(),
{
    crate::opening::lemma_first_opening_absent(body, opening, 0);
}

/// Where the first tag that opens is not closed, the scan gives nothing.
pub proof fn scan_ends_at_an_unclosed_tag(body: Seq<u8>, opening: Opening, start: int)
    requires
        0 <= start,
        opens_at(body, opening, start),
        forall|i: int| 0 <= i < start ==> !#[trigger] opens_at(body, opening, i),
        tag_end(body, start) is None,
    ensures
        tags(body, opening) == Seq::<Seq<u8>>::empty(),
{
    crate::opening::lemma_first_opening_found(body, opening, 0, start);
}

/// Where the first tag that opens is closed, the scan gives that tag and then
/// what the scan of the text behind it gives.
pub proof fn scan_goes_on_behind_a_closed_tag(
    before: Seq<u8>,
    opening: Opening,
    tag: Seq<u8>,
    after: Seq<u8>,
)
    requires
        opens_at(before + tag + after, opening, before.len() as int),
        forall|i: int|
            0 <= i < before.len() ==> !#[trigger] opens_at(before + tag + after, opening, i),
        tag_end(before + tag + after, before.len() as int) == Some(
            (before.len() + tag.len()) as int,
        ),
    ensures
        tags(before + tag + after, opening) == seq![tag] + tags(after, opening),
{
    let body = before + tag + after;
    let start = before.len() as int;
    let end = start + tag.len();
    crate::opening::lemma_first_opening_found(body, opening, 0, start);
    assert(body.subrange(start, end) =~= tag);
    lemma_shifted_tags(before + tag, after, opening, 0);
}

proof fn lemma_shifted_opening(front: Seq<u8>, body: Seq<u8>, opening: Opening, i: int)
    requires
        0 <= i,
    ensures
        opens_at(front + body, opening, front.len() + i) == opens_at(body, opening, i),
{
    let n = opening.text().len();
    let at = front.len() + i;
    if i + n <= body.len() {
        assert((front + body).subrange(at, at + n) =~= body.subrange(i, i + n));
    }
}

proof fn lemma_shifted_first(front: Seq<u8>, body: Seq<u8>, opening: Opening, from: int)
    requires
        0 <= from,
    ensures
        first_opening(front + body, opening, front.len() + from) == match first_opening(
            body,
            opening,
            from,
        ) {
            Some(i) => Some(front.len() + i),
            None => None,
        },
    decreases body.len() + 1 - from,
{
    lemma_shifted_opening(front, body, opening, from);
    if from + opening.text().len() <= body.len() && !opens_at(body, opening, from) {
        lemma_shifted_first(front, body, opening, from + 1);
    }
}

proof fn lemma_shifted_quote(front: Seq<u8>, body: Seq<u8>, start: int, i: int)
    requires
        0 <= start,
        i <= body.len(),
    ensures
        open_quote(front + body, front.len() + start, front.len() + i) == open_quote(
            body,
            start,
            i,
        ),
    decreases i - start,
{
    if i > start {
        lemma_shifted_quote(front, body, start, i - 1);
        assert((front + body)[front.len() + i - 1] == body[i - 1]);
    }
}

proof fn lemma_shifted_close(front: Seq<u8>, body: Seq<u8>, start: int, i: int)
    requires
        0 <= start <= i,
    ensures
        first_close(front + body, front.len() + start, front.len() + i) == match first_close(
            body,
            start,
            i,
        ) {
            Some(k) => Some(front.len() + k),
            None => None,
        },
    decreases body.len() - i,
{
    if i < body.len() {
        lemma_shifted_quote(front, body, start, i);
        assert((front + body)[front.len() + i] == body[i]);
        lemma_shifted_close(front, body, start, i + 1);
    }
}

proof fn lemma_shifted_tags(front: Seq<u8>, body: Seq<u8>, opening: Opening, pos: int)
    requires
        0 <= pos,
    ensures
        tags_from(front + body, opening, front.len() + pos) == tags_from(body, opening, pos),
    decreases body.len() - pos,
{
    lemma_shifted_first(front, body, opening, pos);
    crate::opening::first_opening_is_least(body, opening, pos);
    if let Some(start) = first_opening(body, opening, pos) {
        lemma_shifted_close(front, body, start, start);
        crate::tag::tag_end_is_first_unquoted_close(body, start);
        if let Some(end) = tag_end(body, start) {
            assert((front + body).subrange(front.len() + start, front.len() + end)
                =~= body.subrange(start, end));
            lemma_shifted_tags(front, body, opening, end);
        }
    }
}

} // verus!
