//! Tags and attributes that are written as usual are read back.

use vstd::prelude::*;

use crate::ascii::is_ascii_space;
use crate::ascii::trimmed_end;
use crate::search::first_index;
use crate::tag::attribute;
use crate::tag::attribute_from;
use crate::tag::bare_end;
use crate::tag::closes_tag;
use crate::tag::ends_bare_value;
use crate::tag::ends_in_name;
use crate::tag::first_close;
use crate::tag::is_quote;
use crate::tag::open_quote;
use crate::tag::skip_space;
use crate::tag::tag_end;
use crate::tag::value_after;
use crate::tag::value_end;
use crate::tag::MAX_TAG_LEN;

verus! {

/// A value between two quotation marks.
pub open spec fn quoted(quote: u8, value: Seq<u8>) -> Seq<u8> {
    seq![quote] + value + seq![quote]
}

/// A value between quotation marks is read back, whatever stands around it.
pub proof fn quoted_value_is_read_back(
    before: Seq<u8>,
    quote: u8,
    value: Seq<u8>,
    after: Seq<u8>,
)
    requires
        is_quote(quote),
        !value.contains(quote),
    ensures
        value_after(before + quoted(quote, value) + after, before.len() as int) == Some(value),
{
    let tag = before + quoted(quote, value) + after;
    lemma_quoted_at(tag, before.len() as int, quote, value);
}

/// An unquoted value is read back where whitespace, a `>` or the end of the
/// tag follows it.
pub proof fn bare_value_is_read_back(before: Seq<u8>, value: Seq<u8>, after: Seq<u8>)
    requires
        value.len() > 0,
        !is_quote(value[0]),
        forall|i: int| 0 <= i < value.len() ==> !ends_bare_value(#[trigger] value[i]),
        after.len() > 0 ==> ends_bare_value(after[0]),
    ensures
        value_after(before + value + after, before.len() as int) == Some(value),
{
    let tag = before + value + after;
    let i = before.len() as int;
    assert(tag[i] == value[0]);
    assert forall|j: int| i <= j < i + value.len() implies !ends_bare_value(#[trigger] tag[j]) by {
        assert(tag[j] == value[j - i]);
    }
    if after.len() > 0 {
        assert(tag[i + value.len()] == after[0]);
    }
    lemma_bare_end_is(tag, i, i + value.len());
    assert(tag.subrange(i, i + value.len()) =~= value);
}

proof fn lemma_bare_end_is(tag: Seq<u8>, i: int, end: int)
    requires
        0 <= i <= end <= tag.len(),
        forall|j: int| i <= j < end ==> !ends_bare_value(#[trigger] tag[j]),
        end == tag.len() || ends_bare_value(tag[end]),
    ensures
        bare_end(tag, i) == end,
    decreases end - i,
{
    if i < end {
        lemma_bare_end_is(tag, i + 1, end);
    }
}

/// What stands at position `i` of a tag in quotation marks is the value there.
proof fn lemma_quoted_at(tag: Seq<u8>, i: int, quote: u8, value: Seq<u8>)
    requires
        0 <= i,
        i + value.len() + 2 <= tag.len(),
        is_quote(quote),
        !value.contains(quote),
        tag[i] == quote,
        tag[i + 1 + value.len()] == quote,
        forall|j: int| 0 <= j < value.len() ==> #[trigger] value[j] == tag[i + 1 + j],
    ensures
        value_after(tag, i) == Some(value),
{
    let end = i + 1 + value.len();
    assert forall|j: int| i + 1 <= j < end implies tag[j] != quote by {
        assert(value[j - i - 1] == tag[i + 1 + (j - i - 1)]);
        assert(value.contains(value[j - i - 1]));
    }
    crate::search::lemma_first_index_found(tag, quote, i + 1, end);
    assert(tag.subrange(i + 1, end) =~= value) by {
        assert forall|j: int| 0 <= j < value.len() implies tag.subrange(i + 1, end)[j]
            == value[j] by {}
    }
}

/// Whether the attribute value behind an `=` whose next position is `start` is
/// whole: there is something, and a quotation that it opens is closed.
pub open spec fn value_is_whole(text: Seq<u8>, start: int) -> bool {
    let i = skip_space(text, start);
    i < text.len() && (is_quote(text[i]) ==> first_index(text, text[i], i + 1) is Some)
}

/// Whether the attributes in the part of `text` from `pos` on have whole
/// values.
pub open spec fn whole_attributes_from(text: Seq<u8>, pos: int) -> bool
    decreases text.len() - pos,
    when 0 <= pos
{
    match first_index(text, '=' as u8, pos) {
        None => true,
        Some(eq) => {
            proof {
                crate::search::first_index_is_least(text, '=' as u8, pos);
                crate::tag::lemma_value_end(text, eq + 1);
            }
            value_is_whole(text, eq + 1) && whole_attributes_from(text, value_end(text, eq + 1))
        },
    }
}

/// Whether all attributes in `text` have whole values.
pub open spec fn whole_attributes(text: Seq<u8>) -> bool {
    whole_attributes_from(text, 0)
}

/// Whether an attribute in the part of `text` from `pos` on is named `name`.
pub open spec fn has_attribute_from(text: Seq<u8>, name: Seq<u8>, pos: int) -> bool
    decreases text.len() - pos,
    when 0 <= pos
{
    match first_index(text, '=' as u8, pos) {
        None => false,
        Some(eq) => {
            proof {
                crate::search::first_index_is_least(text, '=' as u8, pos);
                crate::tag::lemma_value_end(text, eq + 1);
            }
            ends_in_name(text.subrange(pos, eq), name, pos == 0) || has_attribute_from(
                text,
                name,
                value_end(text, eq + 1),
            )
        },
    }
}

/// Whether an attribute in `text` is named `name`.
pub open spec fn has_attribute(text: Seq<u8>, name: Seq<u8>) -> bool {
    has_attribute_from(text, name, 0)
}

/// An attribute that the tag does not have is not found, whatever the values of
/// its attributes hold.
pub proof fn absent_attribute_is_not_found(tag: Seq<u8>, name: Seq<u8>)
    requires
        !has_attribute(tag, name),
    ensures
        attribute(tag, name) is None,
{
    lemma_absent_from(tag, name, 0);
}

proof fn lemma_absent_from(tag: Seq<u8>, name: Seq<u8>, pos: int)
    requires
        0 <= pos,
        !has_attribute_from(tag, name, pos),
    ensures
        attribute_from(tag, name, pos) is None,
    decreases tag.len() - pos,
{
    crate::search::first_index_is_least(tag, '=' as u8, pos);
    if let Some(eq) = first_index(tag, '=' as u8, pos) {
        crate::tag::lemma_value_end(tag, eq + 1);
        lemma_absent_from(tag, name, value_end(tag, eq + 1));
    }
}

/// The value of an attribute is what follows its `=`, where the name stands
/// behind whitespace and in front of it are whole attributes with other names,
/// whatever their values hold.
pub proof fn attribute_is_read_back(before: Seq<u8>, name: Seq<u8>, after: Seq<u8>)
    requires
        before.len() > 0,
        is_ascii_space(before.last()),
        whole_attributes(before),
        !has_attribute(before, name),
        is_attribute_name(name),
    ensures
        attribute(before + name + seq!['=' as u8] + after, name) == value_after(
            before + name + seq!['=' as u8] + after,
            (before.len() + name.len() + 1) as int,
        ),
{
    lemma_read_back_from(before, name, after, 0);
}

proof fn lemma_read_back_from(before: Seq<u8>, name: Seq<u8>, after: Seq<u8>, pos: int)
    requires
        0 <= pos < before.len(),
        is_ascii_space(before.last()),
        whole_attributes_from(before, pos),
        !has_attribute_from(before, name, pos),
        is_attribute_name(name),
    ensures
        attribute_from(before + name + seq!['=' as u8] + after, name, pos) == value_after(
            before + name + seq!['=' as u8] + after,
            (before.len() + name.len() + 1) as int,
        ),
    decreases before.len() - pos,
{
    let rest = name + seq!['=' as u8] + after;
    let tag = before + name + seq!['=' as u8] + after;
    assert(tag =~= before + rest);
    crate::search::first_index_is_least(before, '=' as u8, pos);
    match first_index(before, '=' as u8, pos) {
        None => {
            let eq = (before.len() + name.len()) as int;
            assert forall|j: int| pos <= j < eq implies tag[j] != '=' as u8 by {
                if j < before.len() {
                    assert(tag[j] == before[j]);
                } else {
                    assert(tag[j] == name[j - before.len()]);
                    assert(name.contains(name[j - before.len()]));
                }
            }
            assert(tag[eq] == '=' as u8);
            crate::search::lemma_first_index_found(tag, '=' as u8, pos, eq);
            let front = before.subrange(pos, before.len() as int);
            assert(tag.subrange(pos, eq) =~= front + name);
            assert(front.last() == before.last());
            lemma_ends_in_name(front, name, pos == 0);
        },
        Some(eq) => {
            lemma_same_first_index(before, rest, '=' as u8, pos);
            assert(tag.subrange(pos, eq) =~= before.subrange(pos, eq));
            crate::tag::lemma_value_end(before, eq + 1);
            lemma_same_value_end(before, rest, eq + 1);
            lemma_read_back_from(before, name, after, value_end(before, eq + 1));
        },
    }
}

proof fn lemma_same_first_index(text: Seq<u8>, rest: Seq<u8>, b: u8, from: int)
    requires
        0 <= from,
        first_index(text, b, from) is Some,
    ensures
        first_index(text + rest, b, from) == first_index(text, b, from),
{
    crate::search::first_index_is_least(text, b, from);
    let i = first_index(text, b, from)->0;
    assert forall|j: int| from <= j < i implies (text + rest)[j] != b by {
        assert((text + rest)[j] == text[j]);
    }
    crate::search::lemma_first_index_found(text + rest, b, from, i);
}

proof fn lemma_same_skip(text: Seq<u8>, rest: Seq<u8>, i: int)
    requires
        0 <= i,
        skip_space(text, i) < text.len(),
    ensures
        skip_space(text + rest, i) == skip_space(text, i),
        i <= skip_space(text, i),
    decreases text.len() - i,
{
    if i < text.len() && is_ascii_space(text[i]) {
        lemma_same_skip(text, rest, i + 1);
    }
}

/// A bare value in a text that ends in whitespace ends in the text.
proof fn lemma_same_bare_end(text: Seq<u8>, rest: Seq<u8>, i: int)
    requires
        0 <= i < text.len(),
        is_ascii_space(text.last()),
    ensures
        bare_end(text + rest, i) == bare_end(text, i),
        i <= bare_end(text, i) < text.len(),
    decreases text.len() - i,
{
    if !ends_bare_value(text[i]) {
        lemma_same_bare_end(text, rest, i + 1);
    }
}

/// A whole value in a text that ends in whitespace ends in the text.
proof fn lemma_same_value_end(text: Seq<u8>, rest: Seq<u8>, start: int)
    requires
        0 <= start,
        text.len() > 0,
        is_ascii_space(text.last()),
        value_is_whole(text, start),
    ensures
        value_end(text + rest, start) == value_end(text, start),
        start <= value_end(text, start) < text.len(),
{
    lemma_same_skip(text, rest, start);
    let i = skip_space(text, start);
    assert((text + rest)[i] == text[i]);
    if is_quote(text[i]) {
        lemma_same_first_index(text, rest, text[i], i + 1);
        crate::search::first_index_is_least(text, text[i], i + 1);
    } else {
        lemma_same_bare_end(text, rest, i);
    }
}

/// A name behind whitespace is the name that the bytes end in.
proof fn lemma_ends_in_name(before: Seq<u8>, name: Seq<u8>, begins_tag: bool)
    requires
        before.len() > 0,
        is_ascii_space(before.last()),
        name.len() > 0,
        !is_ascii_space(name.last()),
    ensures
        ends_in_name(before + name, name, begins_tag),
{
    let text = before + name;
    assert(text.last() == name.last());
    assert(trimmed_end(text) == text);
    assert(text.subrange(before.len() as int, text.len() as int) =~= name);
    assert(text[before.len() - 1] == before.last());
}

/// A tag with two quoted attributes: `head` ends in the first name and its
/// `=`, `middle` in the second.
pub open spec fn written_tag(
    head: Seq<u8>,
    first: Seq<u8>,
    middle: Seq<u8>,
    second: Seq<u8>,
    quote: u8,
) -> Seq<u8> {
    head + quoted(quote, first) + middle + quoted(quote, second) + seq!['>' as u8]
}

/// Whether bytes neither quote nor close anything.
pub open spec fn is_plain(bytes: Seq<u8>) -> bool {
    forall|i: int|
        0 <= i < bytes.len() ==> !is_quote(#[trigger] bytes[i]) && bytes[i] != '>' as u8
}

/// Nothing opens or closes in a run of plain bytes outside quotations.
pub proof fn lemma_plain_run(body: Seq<u8>, start: int, i: int, j: int)
    requires
        0 <= start <= i <= j,
        open_quote(body, start, i) is None,
        forall|k: int| i <= k < j ==> !is_quote(#[trigger] body[k]) && body[k] != '>' as u8,
    ensures
        open_quote(body, start, j) is None,
        forall|k: int| i <= k < j ==> !closes_tag(body, start, k),
    decreases j - i,
{
    if i < j {
        assert(!is_quote(body[i]));
        assert(open_quote(body, start, i + 1) is None);
        lemma_plain_run(body, start, i + 1, j);
    }
}

/// A quotation stays open, and nothing closes, up to the mark that ends it.
pub proof fn lemma_quoted_run(body: Seq<u8>, start: int, i: int, j: int, quote: u8)
    requires
        0 <= start <= i < j,
        open_quote(body, start, i) is None,
        is_quote(quote),
        body[i] == quote,
        forall|k: int| i < k < j ==> #[trigger] body[k] != quote,
    ensures
        open_quote(body, start, j) == Some(quote),
        forall|k: int| i <= k < j ==> !closes_tag(body, start, k),
    decreases j - i,
{
    if i + 1 < j {
        lemma_quoted_run(body, start, i, j - 1, quote);
        assert(body[j - 1] != quote);
    }
}

proof fn lemma_closes_at(body: Seq<u8>, start: int, i: int, end: int)
    requires
        0 <= start <= i <= end < body.len(),
        end < start + MAX_TAG_LEN,
        closes_tag(body, start, end),
        forall|k: int| i <= k < end ==> !closes_tag(body, start, k),
    ensures
        first_close(body, start, i) == Some(end),
    decreases end - i,
{
    if i < end {
        lemma_closes_at(body, start, i + 1, end);
    }
}

/// A written tag ends where it was written to end, wherever it stands, even if
/// its values hold a `>`.
pub proof fn written_tag_ends_at_its_close(
    before: Seq<u8>,
    head: Seq<u8>,
    first: Seq<u8>,
    middle: Seq<u8>,
    second: Seq<u8>,
    quote: u8,
    after: Seq<u8>,
)
    requires
        is_quote(quote),
        is_plain(head),
        is_plain(middle),
        !first.contains(quote),
        !second.contains(quote),
        written_tag(head, first, middle, second, quote).len() <= MAX_TAG_LEN,
    ensures
        tag_end(
            before + written_tag(head, first, middle, second, quote) + after,
            before.len() as int,
        ) == Some((before.len() + written_tag(head, first, middle, second, quote).len()) as int),
{
    let tag = written_tag(head, first, middle, second, quote);
    let body = before + tag + after;
    let start = before.len() as int;
    let a = start + head.len();
    let b = a + 1 + first.len();
    let c = b + 1 + middle.len();
    let d = c + 1 + second.len();
    assert forall|k: int| start <= k < start + tag.len() implies body[k] == tag[k - start] by {}
    assert forall|k: int| start <= k < a implies !is_quote(#[trigger] body[k]) && body[k]
        != '>' as u8 by {
        assert(body[k] == head[k - start]);
    }
    lemma_plain_run(body, start, start, a);
    assert(body[a] == quote);
    assert forall|k: int| a < k < b implies #[trigger] body[k] != quote by {
        assert(body[k] == first[k - a - 1]);
        assert(first.contains(first[k - a - 1]));
    }
    lemma_quoted_run(body, start, a, b, quote);
    assert(body[b] == quote);
    assert(open_quote(body, start, b + 1) is None);
    assert(!closes_tag(body, start, b));
    assert forall|k: int| b + 1 <= k < c implies !is_quote(#[trigger] body[k]) && body[k]
        != '>' as u8 by {
        assert(body[k] == middle[k - b - 1]);
    }
    lemma_plain_run(body, start, b + 1, c);
    assert(body[c] == quote);
    assert forall|k: int| c < k < d implies #[trigger] body[k] != quote by {
        assert(body[k] == second[k - c - 1]);
        assert(second.contains(second[k - c - 1]));
    }
    lemma_quoted_run(body, start, c, d, quote);
    assert(body[d] == quote);
    assert(open_quote(body, start, d + 1) is None);
    assert(!closes_tag(body, start, d));
    assert(body[d + 1] == '>' as u8);
    lemma_closes_at(body, start, start, d + 1);
}

/// Both attributes of a written tag are read back, whatever the values hold
/// besides the quotation mark.
pub proof fn written_attributes_are_read_back(
    opening: Seq<u8>,
    first_name: Seq<u8>,
    first: Seq<u8>,
    second_name: Seq<u8>,
    second: Seq<u8>,
    quote: u8,
)
    requires
        is_quote(quote),
        opening.len() > 0,
        is_ascii_space(opening.last()),
        !opening.contains('=' as u8),
        is_attribute_name(first_name),
        is_attribute_name(second_name),
        !ends_in_name(opening + first_name, second_name, true),
        !first.contains(quote),
        !second.contains(quote),
    ensures
        ({
            let tag = written_tag(
                opening + first_name + seq!['=' as u8],
                first,
                seq![' ' as u8] + second_name + seq!['=' as u8],
                second,
                quote,
            );
            attribute(tag, first_name) == Some(first) && attribute(tag, second_name) == Some(second)
        }),
{
    let equals = seq!['=' as u8];
    let head = opening + first_name + equals;
    let middle = seq![' ' as u8] + second_name + equals;
    let tag = written_tag(head, first, middle, second, quote);
    let at = head.len() as int;
    let last = quoted(quote, second) + seq!['>' as u8];

    let rest = quoted(quote, first) + middle + last;
    assert(tag =~= opening + first_name + equals + rest);
    assert forall|j: int| 0 <= j < opening.len() implies opening[j] != '=' as u8 by {
        assert(opening.contains(opening[j]));
    }
    crate::search::lemma_first_index_absent(opening, '=' as u8, 0);
    attribute_is_read_back(opening, first_name, rest);
    assert forall|j: int| 0 <= j < first.len() implies #[trigger] first[j] == tag[at + 1 + j] by {}
    assert(tag[at] == quote && tag[at + 1 + first.len()] == quote);
    lemma_quoted_at(tag, at, quote, first);

    let before = head + quoted(quote, first) + seq![' ' as u8];
    assert(tag =~= before + second_name + equals + last);
    lemma_one_attribute(opening, first_name, first, second_name, quote);
    attribute_is_read_back(before, second_name, last);
    let begin = (before.len() + second_name.len() + 1) as int;
    assert forall|j: int| 0 <= j < second.len() implies #[trigger] second[j] == tag[begin + 1
        + j] by {}
    assert(tag[begin] == quote && tag[begin + 1 + second.len()] == quote);
    lemma_quoted_at(tag, begin, quote, second);
}

/// A single quoted attribute is whole and has its own name only.
proof fn lemma_one_attribute(
    opening: Seq<u8>,
    first_name: Seq<u8>,
    first: Seq<u8>,
    other: Seq<u8>,
    quote: u8,
)
    requires
        is_quote(quote),
        !opening.contains('=' as u8),
        is_attribute_name(first_name),
        !ends_in_name(opening + first_name, other, true),
        !first.contains(quote),
    ensures
        ({
            let text = opening + first_name + seq!['=' as u8] + quoted(quote, first)
                + seq![' ' as u8];
            whole_attributes(text) && !has_attribute(text, other)
        }),
{
    let text = opening + first_name + seq!['=' as u8] + quoted(quote, first) + seq![' ' as u8];
    let eq = (opening.len() + first_name.len()) as int;
    let end = eq + 2 + first.len();
    assert forall|j: int| 0 <= j < eq implies text[j] != '=' as u8 by {
        if j < opening.len() {
            assert(text[j] == opening[j]);
            assert(opening.contains(opening[j]));
        } else {
            assert(text[j] == first_name[j - opening.len()]);
            assert(first_name.contains(first_name[j - opening.len()]));
        }
    }
    assert(text[eq] == '=' as u8);
    crate::search::lemma_first_index_found(text, '=' as u8, 0, eq);
    assert(text.subrange(0, eq) =~= opening + first_name);
    assert(text[eq + 1] == quote && text[end] == quote);
    assert(skip_space(text, eq + 1) == eq + 1);
    assert forall|j: int| eq + 2 <= j < end implies text[j] != quote by {
        assert(text[j] == first[j - eq - 2]);
        assert(first.contains(first[j - eq - 2]));
    }
    crate::search::lemma_first_index_found(text, quote, eq + 2, end);
    assert(value_end(text, eq + 1) == end + 1);
    assert(text[end + 1] == ' ' as u8);
    crate::search::lemma_first_index_absent(text, '=' as u8, end + 1);
    assert(whole_attributes_from(text, end + 1));
    assert(!has_attribute_from(text, other, end + 1));
}

/// Whether bytes can be written as an attribute name: at least one, no `=`,
/// and no whitespace at the end.
pub open spec fn is_attribute_name(name: Seq<u8>) -> bool {
    name.len() > 0 && !name.contains('=' as u8) && !is_ascii_space(name.last())
}

} // verus!
