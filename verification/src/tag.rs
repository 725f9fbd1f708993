//! Hand parsing of a single HTML tag, on raw bytes and without a DOM.
//!
//! Pages in web archives are often malformed, so nothing here assumes that a
//! tag is closed, that quotes are balanced, or that the bytes are text.

use vstd::prelude::*;

use crate::ascii::eq_ignore_ascii_case;
use crate::ascii::is_ascii_whitespace;
use crate::ascii::trim_end_ascii;
use crate::search::find_byte_from;

verus! {

/// How far from its start a tag may close. No real tag is longer; the bound
/// keeps malformed input from being scanned to its end.
pub const MAX_TAG_LEN: usize = 4096;

/// A single or a double quotation mark.
pub open spec fn is_quote(b: u8) -> bool {
    b == 0x22 || b == 0x27
}

/// The quotation mark that is open just before position `i` of a tag that
/// begins at `start`, if there is one. A mark of the other kind inside an open
/// quotation is ordinary text.
pub open spec fn open_quote(body: Seq<u8>, start: int, i: int) -> Option<u8>
    decreases i - start,
{
    if i <= start {
        None
    } else {
        let before = open_quote(body, start, i - 1);
        let b = body[i - 1];
        if before == Some(b) {
            None
        } else if before is None && is_quote(b) {
            Some(b)
        } else {
            before
        }
    }
}

/// Whether the tag that begins at `start` closes at `i`: a `>` stands there,
/// outside any quotation.
pub open spec fn closes_tag(body: Seq<u8>, start: int, i: int) -> bool {
    body[i] == '>' as u8 && open_quote(body, start, i) is None
}

/// The least position at or after `i` where the tag closes, within the body
/// and within reach of the tag's start.
pub open spec fn first_close(body: Seq<u8>, start: int, i: int) -> Option<int>
    decreases body.len() - i,
{
    if i >= body.len() || i >= start + MAX_TAG_LEN {
        None
    } else if closes_tag(body, start, i) {
        Some(i)
    } else {
        first_close(body, start, i + 1)
    }
}

/// The position just behind the `>` that closes the tag at `start`.
pub open spec fn tag_end(body: Seq<u8>, start: int) -> Option<int> {
    match first_close(body, start, start) {
        Some(i) => Some(i + 1),
        None => None,
    }
}

/// The first position at or after `i` that holds no ASCII whitespace.
pub open spec fn skip_space(tag: Seq<u8>, i: int) -> int
    decreases tag.len() - i,
{
    if i < tag.len() && crate::ascii::is_ascii_space(tag[i]) {
        skip_space(tag, i + 1)
    } else {
        i
    }
}

/// Whether `b` ends an unquoted attribute value: whitespace or `>`.
pub open spec fn ends_bare_value(b: u8) -> bool {
    crate::ascii::is_ascii_space(b) || b == '>' as u8
}

/// The end of the unquoted value that begins at `i`.
pub open spec fn bare_end(tag: Seq<u8>, i: int) -> int
    decreases tag.len() - i,
{
    if i < tag.len() && !ends_bare_value(tag[i]) {
        bare_end(tag, i + 1)
    } else {
        i
    }
}

/// The attribute value that follows an `=` whose next position is `start`.
///
/// Whitespace in front is skipped. A value that begins with a quotation mark
/// runs to the next mark of the same kind and is absent where there is none;
/// any other value runs to the next byte that ends a bare value and is absent
/// where it would be empty.
pub open spec fn value_after(tag: Seq<u8>, start: int) -> Option<Seq<u8>> {
    let i = skip_space(tag, start);
    if i >= tag.len() {
        None
    } else if is_quote(tag[i]) {
        match crate::search::first_index(tag, tag[i], i + 1) {
            Some(end) => Some(tag.subrange(i + 1, end)),
            None => None,
        }
    } else {
        let end = bare_end(tag, i);
        if end > i {
            Some(tag.subrange(i, end))
        } else {
            None
        }
    }
}

/// The position behind the attribute value that follows an `=` whose next
/// position is `start`: behind the closing quotation mark, at the byte that
/// ends a bare value, or at the end of the tag where a quotation is not closed.
pub open spec fn value_end(tag: Seq<u8>, start: int) -> int {
    let i = skip_space(tag, start);
    if i >= tag.len() {
        tag.len() as int
    } else if is_quote(tag[i]) {
        match crate::search::first_index(tag, tag[i], i + 1) {
            Some(end) => end + 1,
            None => tag.len() as int,
        }
    } else {
        bare_end(tag, i)
    }
}

/// Whether the bytes in front of an `=` end in the attribute name `name`:
/// spelled in any case, perhaps followed by whitespace, and standing either
/// behind whitespace or, where `segment` begins the tag, at its very beginning.
pub open spec fn ends_in_name(segment: Seq<u8>, name: Seq<u8>, begins_tag: bool) -> bool {
    let text = crate::ascii::trimmed_end(segment);
    let at = text.len() - name.len();
    &&& at >= 0
    &&& crate::ascii::eq_ascii_nocase(text.subrange(at, text.len() as int), name)
    &&& if at == 0 {
        begins_tag
    } else {
        crate::ascii::is_ascii_space(text[at - 1])
    }
}

/// The value of the attribute `name` in the part of `tag` from `pos` on, where
/// `pos` is the beginning of the tag or the end of an attribute value.
///
/// An attribute is what stands in front of the next `=` and the value behind
/// it. The first one with this name counts; the values of others are passed
/// over, so that nothing inside them is taken for an attribute.
pub open spec fn attribute_from(tag: Seq<u8>, name: Seq<u8>, pos: int) -> Option<Seq<u8>>
    decreases tag.len() - pos,
    when 0 <= pos
{
    match crate::search::first_index(tag, '=' as u8, pos) {
        None => None,
        Some(eq) => if ends_in_name(tag.subrange(pos, eq), name, pos == 0) {
            value_after(tag, eq + 1)
        } else {
            proof {
                crate::search::first_index_is_least(tag, '=' as u8, pos);
                lemma_value_end(tag, eq + 1);
            }
            attribute_from(tag, name, value_end(tag, eq + 1))
        },
    }
}

/// The value of the attribute `name` of a tag.
pub open spec fn attribute(tag: Seq<u8>, name: Seq<u8>) -> Option<Seq<u8>> {
    attribute_from(tag, name, 0)
}

/// The bytes of an optional slice.
pub open spec fn bytes_view(r: Option<&[u8]>) -> Option<Seq<u8>> {
    match r {
        Some(v) => Some(v@),
        None => None,
    }
}

/// Finds the end of the HTML tag that begins at `tag_start`: the position just
/// behind its closing `>`.
///
/// A `>` inside a quoted attribute value, as in `data-x="a>b"`, does not close
/// the tag. The search gives up `MAX_TAG_LEN` bytes behind the tag's start.
pub fn find_tag_end(body: &[u8], tag_start: usize) -> (r: Option<usize>)
    ensures
        crate::search::index_view(r) == tag_end(body@, tag_start as int),
{
    if tag_start >= body.len() {
        return None;
    }
    let limit: usize = if body.len() - tag_start > MAX_TAG_LEN {
        tag_start + MAX_TAG_LEN
    } else {
        body.len()
    };
    let mut quote: Option<u8> = None;
    let mut i: usize = tag_start;
    while i < limit
        invariant
            tag_start <= i <= limit <= body@.len(),
            limit == tag_start + MAX_TAG_LEN || (limit == body@.len() && limit <= tag_start
                + MAX_TAG_LEN),
            quote == open_quote(body@, tag_start as int, i as int),
            first_close(body@, tag_start as int, i as int) == first_close(
                body@,
                tag_start as int,
                tag_start as int,
            ),
        decreases limit - i,
    {
        let b: u8 = body[i];
        match quote {
            Some(q) => {
                if b == q {
                    quote = None;
                }
            },
            None => {
                if b == '>' as u8 {
                    return Some(i + 1);
                }
                if b == 0x22 || b == 0x27 {
                    quote = Some(b);
                }
            },
        }
        i += 1;
    }
    None
}

/// The first position at or after `start` that holds no ASCII whitespace.
fn find_non_space(tag: &[u8], start: usize) -> (r: usize)
    ensures
        r == skip_space(tag@, start as int),
        start <= r,
{
    let mut i: usize = start;
    while i < tag.len() && is_ascii_whitespace(tag[i])
        invariant
            start <= i,
            skip_space(tag@, i as int) == skip_space(tag@, start as int),
        decreases tag@.len() - i,
    {
        i += 1;
    }
    i
}

/// The end of the unquoted value that begins at `start`.
fn find_bare_end(tag: &[u8], start: usize) -> (r: usize)
    requires
        start <= tag@.len(),
    ensures
        r == bare_end(tag@, start as int),
        start <= r <= tag@.len(),
{
    let mut end: usize = start;
    while end < tag.len() && !is_ascii_whitespace(tag[end]) && tag[end] != '>' as u8
        invariant
            start <= end <= tag@.len(),
            bare_end(tag@, end as int) == bare_end(tag@, start as int),
        decreases tag@.len() - end,
    {
        end += 1;
    }
    end
}

/// Extracts the value behind an `=` sign, given the position behind the sign:
/// `"quoted"`, `'quoted'`, or bare, which ends at whitespace or `>`.
pub fn extract_quoted_or_bare_value(tag: &[u8], start: usize) -> (r: Option<&[u8]>)
    ensures
        bytes_view(r) == value_after(tag@, start as int),
{
    let i: usize = find_non_space(tag, start);
    if i >= tag.len() {
        return None;
    }
    let first: u8 = tag[i];
    if first == 0x22 || first == 0x27 {
        match find_byte_from(tag, first, i + 1) {
            Some(end) => {
                proof {
                    crate::search::first_index_is_least(tag@, first, i + 1);
                }
                Some(vstd::slice::slice_subrange(tag, i + 1, end))
            },
            None => None,
        }
    } else {
        let end: usize = find_bare_end(tag, i);
        if end > i {
            Some(vstd::slice::slice_subrange(tag, i, end))
        } else {
            None
        }
    }
}

/// Passes over the value behind an `=` sign, given the position behind the
/// sign.
fn skip_value(tag: &[u8], start: usize) -> (r: usize)
    requires
        start <= tag@.len(),
    ensures
        r == value_end(tag@, start as int),
        start <= r <= tag@.len(),
{
    let i: usize = find_non_space(tag, start);
    if i >= tag.len() {
        return tag.len();
    }
    let first: u8 = tag[i];
    if first == 0x22 || first == 0x27 {
        proof {
            crate::search::first_index_is_least(tag@, first, i + 1);
        }
        match find_byte_from(tag, first, i + 1) {
            Some(end) => end + 1,
            None => tag.len(),
        }
    } else {
        find_bare_end(tag, i)
    }
}

/// Extracts the value of an attribute from a tag's bytes, without its quotes.
///
/// The name is matched in any case. `None` where the tag has no such
/// attribute or the attribute has no value; what stands inside the value of
/// another attribute is no attribute of the tag.
pub fn extract_attribute<'a>(tag: &'a [u8], attr_name: &[u8]) -> (r: Option<&'a [u8]>)
    ensures
        bytes_view(r) == attribute(tag@, attr_name@),
{
    let mut pos: usize = 0;
    while pos < tag.len()
        invariant
            pos <= tag@.len(),
            attribute_from(tag@, attr_name@, pos as int) == attribute(tag@, attr_name@),
        decreases tag@.len() - pos,
    {
        let eq_pos: usize = match find_byte_from(tag, '=' as u8, pos) {
            Some(p) => p,
            None => {
                return None;
            },
        };
        proof {
            crate::search::first_index_is_least(tag@, '=' as u8, pos as int);
        }
        let trimmed: &[u8] = trim_end_ascii(vstd::slice::slice_subrange(tag, pos, eq_pos));
        if trimmed.len() >= attr_name.len() {
            let name_start: usize = trimmed.len() - attr_name.len();
            let candidate: &[u8] = vstd::slice::slice_subrange(trimmed, name_start, trimmed.len());
            let stands_alone: bool = if name_start == 0 {
                pos == 0
            } else {
                is_ascii_whitespace(trimmed[name_start - 1])
            };
            if stands_alone && eq_ignore_ascii_case(candidate, attr_name) {
                return extract_quoted_or_bare_value(tag, eq_pos + 1);
            }
        }
        pos = skip_value(tag, eq_pos + 1);
    }
    None
}

/// A closing position is real: a `>` outside quotations, behind the start of
/// the tag, within `MAX_TAG_LEN` of it and inside the body; and no earlier
/// position closes the tag.
pub proof fn tag_end_is_first_unquoted_close(body: Seq<u8>, start: int)
    requires
        0 <= start,
    ensures
        match tag_end(body, start) {
            Some(end) => start < end <= body.len() && end <= start + MAX_TAG_LEN && closes_tag(
                body,
                start,
                end - 1,
            ) && forall|j: int| start <= j < end - 1 ==> !closes_tag(body, start, j),
            None => forall|j: int|
                start <= j < body.len() && j < start + MAX_TAG_LEN ==> !closes_tag(body, start, j),
        },
{
    lemma_first_close(body, start, start);
}

proof fn lemma_first_close(body: Seq<u8>, start: int, i: int)
    requires
        0 <= start <= i,
    ensures
        match first_close(body, start, i) {
            Some(k) => i <= k < body.len() && k < start + MAX_TAG_LEN && closes_tag(body, start, k)
                && forall|j: int| i <= j < k ==> !closes_tag(body, start, j),
            None => forall|j: int|
                i <= j < body.len() && j < start + MAX_TAG_LEN ==> !closes_tag(body, start, j),
        },
    decreases body.len() - i,
{
    if i < body.len() && i < start + MAX_TAG_LEN && !closes_tag(body, start, i) {
        lemma_first_close(body, start, i + 1);
    }
}

/// Attribute names are matched in any case: spelling the name otherwise finds
/// the same value.
pub proof fn attribute_ignores_name_case(tag: Seq<u8>, name: Seq<u8>, other: Seq<u8>)
    requires
        crate::ascii::eq_ascii_nocase(name, other),
    ensures
        attribute(tag, name) == attribute(tag, other),
{
    lemma_attribute_case(tag, name, other, 0);
}

proof fn lemma_ends_in_name_case(
    segment: Seq<u8>,
    name: Seq<u8>,
    other: Seq<u8>,
    begins_tag: bool,
)
    requires
        crate::ascii::eq_ascii_nocase(name, other),
    ensures
        ends_in_name(segment, name, begins_tag) == ends_in_name(segment, other, begins_tag),
{
    let text = crate::ascii::trimmed_end(segment);
    let at = text.len() - name.len();
    if at >= 0 {
        let tail = text.subrange(at, text.len() as int);
        assert forall|i: int| 0 <= i < tail.len() implies crate::ascii::ascii_lower(
            #[trigger] name[i],
        ) == crate::ascii::ascii_lower(other[i]) by {}
        if crate::ascii::eq_ascii_nocase(tail, name) {
            assert forall|i: int| 0 <= i < tail.len() implies crate::ascii::ascii_lower(
                #[trigger] tail[i],
            ) == crate::ascii::ascii_lower(other[i]) by {
                assert(crate::ascii::ascii_lower(name[i]) == crate::ascii::ascii_lower(other[i]));
            }
        }
        if crate::ascii::eq_ascii_nocase(tail, other) {
            assert forall|i: int| 0 <= i < tail.len() implies crate::ascii::ascii_lower(
                #[trigger] tail[i],
            ) == crate::ascii::ascii_lower(name[i]) by {
                assert(crate::ascii::ascii_lower(name[i]) == crate::ascii::ascii_lower(other[i]));
            }
        }
    }
}

proof fn lemma_attribute_case(tag: Seq<u8>, name: Seq<u8>, other: Seq<u8>, pos: int)
    requires
        0 <= pos,
        crate::ascii::eq_ascii_nocase(name, other),
    ensures
        attribute_from(tag, name, pos) == attribute_from(tag, other, pos),
    decreases tag.len() - pos,
{
    crate::search::first_index_is_least(tag, '=' as u8, pos);
    if let Some(eq) = crate::search::first_index(tag, '=' as u8, pos) {
        lemma_ends_in_name_case(tag.subrange(pos, eq), name, other, pos == 0);
        lemma_value_end(tag, eq + 1);
        lemma_attribute_case(tag, name, other, value_end(tag, eq + 1));
    }
}

/// An attribute value is always a piece of its tag.
pub proof fn attribute_value_is_part_of_tag(tag: Seq<u8>, name: Seq<u8>)
    ensures
        attribute(tag, name) matches Some(v) ==> crate::search::is_part(tag, v),
{
    lemma_attribute_part(tag, name, 0);
}

proof fn lemma_attribute_part(tag: Seq<u8>, name: Seq<u8>, pos: int)
    requires
        0 <= pos,
    ensures
        attribute_from(tag, name, pos) matches Some(v) ==> crate::search::is_part(tag, v),
    decreases tag.len() - pos,
{
    crate::search::first_index_is_least(tag, '=' as u8, pos);
    if let Some(eq) = crate::search::first_index(tag, '=' as u8, pos) {
        if ends_in_name(tag.subrange(pos, eq), name, pos == 0) {
            lemma_value_part(tag, eq + 1);
        } else {
            lemma_value_end(tag, eq + 1);
            lemma_attribute_part(tag, name, value_end(tag, eq + 1));
        }
    }
}

proof fn lemma_value_part(tag: Seq<u8>, start: int)
    requires
        0 <= start,
    ensures
        value_after(tag, start) matches Some(v) ==> crate::search::is_part(tag, v),
{
    lemma_skip_space(tag, start);
    let i = skip_space(tag, start);
    if i < tag.len() {
        if is_quote(tag[i]) {
            crate::search::first_index_is_least(tag, tag[i], i + 1);
            if let Some(end) = crate::search::first_index(tag, tag[i], i + 1) {
                let at = i + 1;
                assert(value_after(tag, start) == Some(tag.subrange(at, end)));
                assert(crate::search::occurs_at(tag, tag.subrange(at, end), at));
            }
        } else {
            lemma_bare_end(tag, i);
            let end = bare_end(tag, i);
            if end > i {
                assert(value_after(tag, start) == Some(tag.subrange(i, end)));
                assert(crate::search::occurs_at(tag, tag.subrange(i, end), i));
            }
        }
    }
}

/// The end of a value lies behind its `=` and within the tag.
pub proof fn lemma_value_end(tag: Seq<u8>, start: int)
    requires
        0 <= start <= tag.len(),
    ensures
        start <= value_end(tag, start) <= tag.len(),
{
    lemma_skip_space(tag, start);
    let i = skip_space(tag, start);
    if i < tag.len() {
        if is_quote(tag[i]) {
            crate::search::first_index_is_least(tag, tag[i], i + 1);
        } else {
            lemma_bare_end(tag, i);
        }
    }
}

proof fn lemma_skip_space(tag: Seq<u8>, i: int)
    ensures
        i <= skip_space(tag, i),
    decreases tag.len() - i,
{
    if i < tag.len() && crate::ascii::is_ascii_space(tag[i]) {
        lemma_skip_space(tag, i + 1);
    }
}

proof fn lemma_bare_end(tag: Seq<u8>, i: int)
    requires
        i <= tag.len(),
    ensures
        i <= bare_end(tag, i) <= tag.len(),
    decreases tag.len() - i,
{
    if i < tag.len() && !ends_bare_value(tag[i]) {
        lemma_bare_end(tag, i + 1);
    }
}

} // verus!
