//! What the attributes of a tag are, on tags that are written attribute by
//! attribute.

use vstd::prelude::*;

use crate::ascii::ascii_lower;
use crate::ascii::eq_ascii_nocase;
use crate::ascii::is_ascii_space;
use crate::ascii::trimmed_end;
use crate::tag::attribute;
use crate::tag::attribute_from;
use crate::tag::bare_end;
use crate::tag::ends_in_name;
use crate::tag::skip_space;
use crate::tag::value_after;
use crate::tag::value_end;

verus! {

/// Whether bytes are ASCII whitespace all through.
pub open spec fn is_blank(bytes: Seq<u8>) -> bool {
    forall|i: int| 0 <= i < bytes.len() ==> is_ascii_space(#[trigger] bytes[i])
}

/// Whether bytes hold no ASCII whitespace.
pub open spec fn is_one_word(bytes: Seq<u8>) -> bool {
    forall|i: int| 0 <= i < bytes.len() ==> !is_ascii_space(#[trigger] bytes[i])
}

/// Whether bytes can be an unquoted value: there are some, without whitespace
/// and `>`, and the first is no quotation mark.
pub open spec fn is_bare(value: Seq<u8>) -> bool {
    value.len() > 0 && is_one_word(value) && !value.contains(0x3e) && value[0] != 0x22 && value[0]
        != 0x27
}

/// Whether an unquoted value ends in front of these bytes.
pub open spec fn ends_bare(after: Seq<u8>) -> bool {
    after.len() > 0 ==> is_ascii_space(after[0]) || after[0] == 0x3e
}

proof fn lemma_skip(tag: Seq<u8>, i: int, end: int)
    requires
        0 <= i <= end <= tag.len(),
        forall|j: int| i <= j < end ==> is_ascii_space(#[trigger] tag[j]),
        end < tag.len() ==> !is_ascii_space(tag[end]),
    ensures
        skip_space(tag, i) == end,
    decreases end - i,
{
    if i < end {
        lemma_skip(tag, i + 1, end);
    }
}

proof fn lemma_bare(tag: Seq<u8>, i: int, end: int)
    requires
        0 <= i <= end <= tag.len(),
        forall|j: int|
            i <= j < end ==> !is_ascii_space(#[trigger] tag[j]) && tag[j] != 0x3e,
        end == tag.len() || is_ascii_space(tag[end]) || tag[end] == 0x3e,
    ensures
        bare_end(tag, i) == end,
    decreases end - i,
{
    if i < end {
        lemma_bare(tag, i + 1, end);
    }
}

/// A value between quotation marks, behind any whitespace, is what stands
/// between them.
pub proof fn quoted_value_stands_between_its_marks(
    before: Seq<u8>,
    space: Seq<u8>,
    quote: u8,
    value: Seq<u8>,
    after: Seq<u8>,
)
    requires
        is_blank(space),
        quote == 0x22 || quote == 0x27,
        !value.contains(quote),
    ensures
        value_after(
            before + space + seq![quote] + value + seq![quote] + after,
            before.len() as int,
        ) == Some(value),
        value_end(
            before + space + seq![quote] + value + seq![quote] + after,
            before.len() as int,
        ) == before.len() + space.len() + value.len() + 2,
{
    let tag = before + space + seq![quote] + value + seq![quote] + after;
    let start = before.len() as int;
    let i = start + space.len();
    let end = i + 1 + value.len();
    assert forall|j: int| start <= j < i implies is_ascii_space(#[trigger] tag[j]) by {
        assert(tag[j] == space[j - start]);
    }
    assert(tag[i] == quote && tag[end] == quote);
    lemma_skip(tag, start, i);
    assert forall|j: int| i + 1 <= j < end implies tag[j] != quote by {
        assert(tag[j] == value[j - i - 1]);
        assert(value.contains(value[j - i - 1]));
    }
    crate::search::lemma_first_index_found(tag, quote, i + 1, end);
    assert(tag.subrange(i + 1, end) =~= value);
}

/// A quotation that is not closed holds no value and goes on to the end of the
/// tag.
pub proof fn open_quotation_is_no_value(
    before: Seq<u8>,
    space: Seq<u8>,
    quote: u8,
    value: Seq<u8>,
)
    requires
        is_blank(space),
        quote == 0x22 || quote == 0x27,
        !value.contains(quote),
    ensures
        value_after(before + space + seq![quote] + value, before.len() as int) is None,
        value_end(before + space + seq![quote] + value, before.len() as int) == before.len()
            + space.len() + 1 + value.len(),
{
    let tag = before + space + seq![quote] + value;
    let start = before.len() as int;
    let i = start + space.len();
    assert forall|j: int| start <= j < i implies is_ascii_space(#[trigger] tag[j]) by {
        assert(tag[j] == space[j - start]);
    }
    assert(tag[i] == quote);
    lemma_skip(tag, start, i);
    assert forall|j: int| i + 1 <= j < tag.len() implies tag[j] != quote by {
        assert(tag[j] == value[j - i - 1]);
        assert(value.contains(value[j - i - 1]));
    }
    crate::search::lemma_first_index_absent(tag, quote, i + 1);
}

/// An unquoted value, behind any whitespace, goes on to the next whitespace, to
/// the next `>` or to the end of the tag.
pub proof fn bare_value_goes_on_to_its_end(
    before: Seq<u8>,
    space: Seq<u8>,
    value: Seq<u8>,
    after: Seq<u8>,
)
    requires
        is_blank(space),
        is_bare(value),
        ends_bare(after),
    ensures
        value_after(before + space + value + after, before.len() as int) == Some(value),
        value_end(before + space + value + after, before.len() as int) == before.len() + space.len()
            + value.len(),
{
    let tag = before + space + value + after;
    let start = before.len() as int;
    let i = start + space.len();
    let end = i + value.len();
    assert forall|j: int| start <= j < i implies is_ascii_space(#[trigger] tag[j]) by {
        assert(tag[j] == space[j - start]);
    }
    assert(tag[i] == value[0]);
    lemma_skip(tag, start, i);
    assert forall|j: int| i <= j < end implies !is_ascii_space(#[trigger] tag[j]) && tag[j]
        != 0x3e by {
        assert(tag[j] == value[j - i]);
        assert(value.contains(value[j - i]));
    }
    if after.len() > 0 {
        assert(tag[end] == after[0]);
    }
    lemma_bare(tag, i, end);
    assert(tag.subrange(i, end) =~= value);
}

/// Where nothing but whitespace follows, or a `>` behind it, there is no value.
pub proof fn nothing_is_no_value(before: Seq<u8>, space: Seq<u8>, after: Seq<u8>)
    requires
        is_blank(space),
    ensures
        value_after(before + space, before.len() as int) is None,
        value_end(before + space, before.len() as int) == before.len() + space.len(),
        value_after(before + space + seq![0x3eu8] + after, before.len() as int) is None,
        value_end(before + space + seq![0x3eu8] + after, before.len() as int) == before.len()
            + space.len(),
{
    let start = before.len() as int;
    let i = start + space.len();
    let short = before + space;
    assert forall|j: int| start <= j < i implies is_ascii_space(#[trigger] short[j]) by {
        assert(short[j] == space[j - start]);
    }
    lemma_skip(short, start, i);
    let long = before + space + seq![0x3eu8] + after;
    assert forall|j: int| start <= j < i implies is_ascii_space(#[trigger] long[j]) by {
        assert(long[j] == space[j - start]);
    }
    assert(long[i] == 0x3e);
    lemma_skip(long, start, i);
    lemma_bare(long, i, i);
}

/// How the value of an attribute is written.
pub enum Form {
    /// Between two quotation marks.
    Quoted(u8),
    /// As it is.
    Bare,
    /// Not at all: the attribute is a name only.
    Missing,
}

/// An attribute as it is written: whitespace, the name, and, unless the value
/// is missing, an `=` with whitespace on either side and the value.
pub struct Attr {
    pub space: Seq<u8>,
    pub name: Seq<u8>,
    pub left: Seq<u8>,
    pub right: Seq<u8>,
    pub form: Form,
    pub value: Seq<u8>,
}

impl Attr {
    /// The bytes in front of the value.
    pub open spec fn front(self) -> Seq<u8> {
        self.space + self.name + self.left + seq!['=' as u8] + self.right
    }

    /// The bytes of the attribute.
    pub open spec fn bytes(self) -> Seq<u8> {
        match self.form {
            Form::Quoted(quote) => self.front() + seq![quote] + self.value + seq![quote],
            Form::Bare => self.front() + self.value,
            Form::Missing => self.space + self.name,
        }
    }

    /// Whether the attribute is written as its form says.
    pub open spec fn is_sound(self) -> bool {
        &&& self.space.len() > 0 && is_blank(self.space)
        &&& self.name.len() > 0 && is_one_word(self.name) && !self.name.contains('=' as u8)
        &&& is_blank(self.left) && is_blank(self.right)
        &&& match self.form {
            Form::Quoted(quote) => (quote == 0x22 || quote == 0x27) && !self.value.contains(quote),
            Form::Bare => is_bare(self.value),
            Form::Missing => true,
        }
    }

    /// Whether the attribute has a value and, up to the case of letters, the
    /// given name.
    pub open spec fn gives(self, name: Seq<u8>) -> bool {
        !(self.form is Missing) && eq_ascii_nocase(self.name, name)
    }
}

/// The bytes of attributes, one behind the other.
pub open spec fn attrs_bytes(attrs: Seq<Attr>) -> Seq<u8>
    decreases attrs.len(),
{
    if attrs.len() == 0 {
        Seq::empty()
    } else {
        attrs[0].bytes() + attrs_bytes(attrs.drop_first())
    }
}

/// Whether a tag is written soundly: a head without whitespace and `=`, sound
/// attributes, and a tail without `=` that ends the value in front of it.
pub open spec fn is_sound_tag(head: Seq<u8>, attrs: Seq<Attr>, tail: Seq<u8>) -> bool {
    &&& head.len() > 0 && is_one_word(head) && !head.contains('=' as u8)
    &&& forall|i: int| 0 <= i < attrs.len() ==> (#[trigger] attrs[i]).is_sound()
    &&& !tail.contains('=' as u8)
    &&& attrs.len() > 0 && attrs.last().form is Bare ==> ends_bare(tail)
}

/// The value of the first attribute that gives the name.
spec fn given(attrs: Seq<Attr>, name: Seq<u8>) -> Option<Seq<u8>>
    decreases attrs.len(),
{
    if attrs.len() == 0 {
        None
    } else if attrs[0].gives(name) {
        Some(attrs[0].value)
    } else {
        given(attrs.drop_first(), name)
    }
}

proof fn lemma_trim(text: Seq<u8>, blank: Seq<u8>)
    requires
        text.len() > 0,
        !is_ascii_space(text.last()),
        is_blank(blank),
    ensures
        trimmed_end(text + blank) == text,
    decreases blank.len(),
{
    if blank.len() == 0 {
        assert(text + blank =~= text);
    } else {
        assert((text + blank).last() == blank[blank.len() - 1]);
        assert((text + blank).drop_last() =~= text + blank.drop_last());
        assert forall|i: int| 0 <= i < blank.drop_last().len() implies is_ascii_space(
            #[trigger] blank.drop_last()[i],
        ) by {
            assert(blank.drop_last()[i] == blank[i]);
        }
        lemma_trim(text, blank.drop_last());
    }
}

/// The name in front of an `=` is the word that stands there, and no other.
proof fn lemma_name(
    carry: Seq<u8>,
    space: Seq<u8>,
    word: Seq<u8>,
    left: Seq<u8>,
    name: Seq<u8>,
    begins_tag: bool,
)
    requires
        space.len() > 0,
        is_blank(space),
        word.len() > 0,
        is_one_word(word),
        is_blank(left),
        name.len() > 0,
        is_one_word(name),
    ensures
        ends_in_name(carry + space + word + left, name, begins_tag) == eq_ascii_nocase(word, name),
{
    let text = carry + space + word;
    assert(text.last() == word[word.len() - 1]);
    lemma_trim(text, left);
    let at = text.len() - name.len();
    let cut = text.len() - word.len();
    assert(text[cut - 1] == space[space.len() - 1]);
    if at >= 0 {
        let tail = text.subrange(at, text.len() as int);
        if at == cut {
            assert(tail =~= word);
        } else if at > cut {
            assert(text[at - 1] == word[at - 1 - cut]);
        } else {
            let k = cut - 1 - at;
            assert(tail[k] == text[cut - 1]);
            assert(!is_ascii_space(name[k]));
            assert(ascii_lower(tail[k]) != ascii_lower(name[k]));
        }
    }
}

/// Bytes without an `=` hold no attribute.
proof fn lemma_no_attribute(done: Seq<u8>, rest: Seq<u8>, name: Seq<u8>)
    requires
        !rest.contains('=' as u8),
    ensures
        attribute_from(done + rest, name, done.len() as int) is None,
{
    let tag = done + rest;
    let pos = done.len() as int;
    assert forall|j: int| pos <= j < tag.len() implies tag[j] != '=' as u8 by {
        assert(tag[j] == rest[j - pos]);
        assert(rest.contains(rest[j - pos]));
    }
    crate::search::lemma_first_index_absent(tag, '=' as u8, pos);
}

/// The next attribute either has the name and gives its value, or is passed
/// over.
proof fn lemma_next_attribute(
    done: Seq<u8>,
    carry: Seq<u8>,
    attr: Attr,
    more: Seq<u8>,
    name: Seq<u8>,
)
    requires
        !carry.contains('=' as u8),
        attr.is_sound(),
        !(attr.form is Missing),
        attr.form is Bare ==> ends_bare(more),
        name.len() > 0,
        is_one_word(name),
    ensures
        ({
            let tag = done + carry + attr.bytes() + more;
            attribute_from(tag, name, done.len() as int) == if attr.gives(name) {
                Some(attr.value)
            } else {
                attribute_from(tag, name, (done + carry + attr.bytes()).len() as int)
            }
        }),
{
    let tag = done + carry + attr.bytes() + more;
    let pos = done.len() as int;
    let word = carry + attr.space + attr.name + attr.left;
    let before = done + word + seq!['=' as u8];
    let eq = pos + word.len();
    let value = match attr.form {
        Form::Quoted(quote) => seq![quote] + attr.value + seq![quote],
        _ => attr.value,
    };
    assert(attr.bytes() =~= attr.front() + value);
    assert(tag =~= before + (attr.right + value + more));
    lemma_words_without_equals(carry, attr);
    assert forall|j: int| pos <= j < eq implies tag[j] != '=' as u8 by {
        assert(tag[j] == before[j]);
        assert(before[j] == word[j - pos]);
        assert(word.contains(word[j - pos]));
    }
    assert(tag[eq] == before[eq]);
    crate::search::lemma_first_index_found(tag, '=' as u8, pos, eq);
    assert(tag.subrange(pos, eq) =~= word);
    lemma_name(carry, attr.space, attr.name, attr.left, name, pos == 0);
    assert(before.len() == eq + 1);
    match attr.form {
        Form::Quoted(quote) => {
            assert(tag =~= before + attr.right + seq![quote] + attr.value + seq![quote] + more);
            quoted_value_stands_between_its_marks(before, attr.right, quote, attr.value, more);
        },
        _ => {
            assert(tag =~= before + attr.right + attr.value + more);
            bare_value_goes_on_to_its_end(before, attr.right, attr.value, more);
        },
    }
    assert(value_after(tag, eq + 1) == Some(attr.value));
    assert(value_end(tag, eq + 1) == (done + carry + attr.bytes()).len());
}

proof fn lemma_given(
    done: Seq<u8>,
    carry: Seq<u8>,
    attrs: Seq<Attr>,
    tail: Seq<u8>,
    name: Seq<u8>,
)
    requires
        !carry.contains('=' as u8),
        !tail.contains('=' as u8),
        forall|i: int| 0 <= i < attrs.len() ==> (#[trigger] attrs[i]).is_sound(),
        attrs.len() > 0 && attrs.last().form is Bare ==> ends_bare(tail),
        name.len() > 0,
        is_one_word(name),
    ensures
        attribute_from(done + (carry + attrs_bytes(attrs) + tail), name, done.len() as int)
            == given(attrs, name),
    decreases attrs.len(),
{
    if attrs.len() == 0 {
        let rest = carry + attrs_bytes(attrs) + tail;
        assert forall|j: int| 0 <= j < rest.len() implies rest[j] != '=' as u8 by {
            if j < carry.len() {
                assert(rest[j] == carry[j]);
                assert(carry.contains(carry[j]));
            } else {
                assert(rest[j] == tail[j - carry.len()]);
                assert(tail.contains(tail[j - carry.len()]));
            }
        }
        lemma_no_attribute(done, rest, name);
    } else {
        let attr = attrs[0];
        let others = attrs.drop_first();
        let more = attrs_bytes(others) + tail;
        let tag = done + (carry + attrs_bytes(attrs) + tail);
        assert(attr.is_sound());
        assert forall|i: int| 0 <= i < others.len() implies (#[trigger] others[i]).is_sound() by {
            assert(others[i] == attrs[i + 1]);
        }
        if others.len() > 0 {
            assert(others.last() == attrs.last());
        }
        if attr.form is Missing {
            lemma_words_without_equals(carry, attr);
            let longer = carry + attr.space + attr.name;
            assert(tag =~= done + (longer + attrs_bytes(others) + tail));
            lemma_given(done, longer, others, tail, name);
        } else {
            if attr.form is Bare {
                lemma_more_ends_bare(attrs, tail);
            }
            assert(tag =~= done + carry + attr.bytes() + more);
            lemma_next_attribute(done, carry, attr, more, name);
            let next = done + carry + attr.bytes();
            assert(tag =~= next + (Seq::empty() + attrs_bytes(others) + tail));
            lemma_given(next, Seq::empty(), others, tail, name);
        }
    }
}

proof fn lemma_words_without_equals(carry: Seq<u8>, attr: Attr)
    requires
        !carry.contains('=' as u8),
        attr.is_sound(),
    ensures
        !(carry + attr.space + attr.name).contains('=' as u8),
        !(carry + attr.space + attr.name + attr.left).contains('=' as u8),
{
    let text = carry + attr.space + attr.name + attr.left;
    let a = carry.len();
    let b = a + attr.space.len();
    let c = b + attr.name.len();
    assert forall|j: int| 0 <= j < text.len() implies text[j] != '=' as u8 by {
        if j < a {
            assert(carry.contains(carry[j]));
        } else if j < b {
            assert(is_ascii_space(attr.space[j - a]));
        } else if j < c {
            assert(attr.name.contains(attr.name[j - b]));
        } else {
            assert(is_ascii_space(attr.left[j - c]));
        }
    }
    let short = carry + attr.space + attr.name;
    assert forall|j: int| 0 <= j < short.len() implies short[j] != '=' as u8 by {
        assert(short[j] == text[j]);
    }
}

proof fn lemma_more_ends_bare(attrs: Seq<Attr>, tail: Seq<u8>)
    requires
        attrs.len() > 0,
        attrs[0].form is Bare,
        forall|i: int| 0 <= i < attrs.len() ==> (#[trigger] attrs[i]).is_sound(),
        attrs.last().form is Bare ==> ends_bare(tail),
    ensures
        ends_bare(attrs_bytes(attrs.drop_first()) + tail),
{
    let others = attrs.drop_first();
    let more = attrs_bytes(others) + tail;
    if others.len() == 0 {
        assert(attrs.last() == attrs[0]);
        assert(more =~= tail);
    } else {
        assert(others[0] == attrs[1]);
        assert(attrs[1].is_sound());
        assert(more[0] == attrs[1].space[0]);
    }
}

/// The value of an attribute is that of the first one with its name, in any
/// case, wherever it stands among the others and however they are written.
pub proof fn attribute_is_the_first_with_its_name(
    head: Seq<u8>,
    attrs: Seq<Attr>,
    tail: Seq<u8>,
    name: Seq<u8>,
    k: int,
)
    requires
        is_sound_tag(head, attrs, tail),
        name.len() > 0,
        is_one_word(name),
        0 <= k < attrs.len(),
        attrs[k].gives(name),
        forall|j: int| 0 <= j < k ==> !(#[trigger] attrs[j]).gives(name),
    ensures
        attribute(head + attrs_bytes(attrs) + tail, name) == Some(attrs[k].value),
{
    let tag = head + attrs_bytes(attrs) + tail;
    assert(tag =~= Seq::empty() + (head + attrs_bytes(attrs) + tail));
    lemma_given(Seq::empty(), head, attrs, tail, name);
    lemma_first_given(attrs, name, k);
}

proof fn lemma_first_given(attrs: Seq<Attr>, name: Seq<u8>, k: int)
    requires
        0 <= k < attrs.len(),
        attrs[k].gives(name),
        forall|j: int| 0 <= j < k ==> !(#[trigger] attrs[j]).gives(name),
    ensures
        given(attrs, name) == Some(attrs[k].value),
    decreases k,
{
    if k > 0 {
        let others = attrs.drop_first();
        assert(!attrs[0].gives(name));
        assert forall|j: int| 0 <= j < k - 1 implies !(#[trigger] others[j]).gives(name) by {
            assert(others[j] == attrs[j + 1]);
        }
        lemma_first_given(others, name, k - 1);
    }
}

/// A tag none of whose attributes gives a name has no value for it, whatever
/// the values of its attributes hold.
pub proof fn attribute_that_no_one_gives_is_none(
    head: Seq<u8>,
    attrs: Seq<Attr>,
    tail: Seq<u8>,
    name: Seq<u8>,
)
    requires
        is_sound_tag(head, attrs, tail),
        name.len() > 0,
        is_one_word(name),
        forall|j: int| 0 <= j < attrs.len() ==> !(#[trigger] attrs[j]).gives(name),
    ensures
        attribute(head + attrs_bytes(attrs) + tail, name) is None,
{
    let tag = head + attrs_bytes(attrs) + tail;
    assert(tag =~= Seq::empty() + (head + attrs_bytes(attrs) + tail));
    lemma_given(Seq::empty(), head, attrs, tail, name);
    lemma_none_given(attrs, name);
}

proof fn lemma_none_given(attrs: Seq<Attr>, name: Seq<u8>)
    requires
        forall|j: int| 0 <= j < attrs.len() ==> !(#[trigger] attrs[j]).gives(name),
    ensures
        given(attrs, name) is None,
    decreases attrs.len(),
{
    if attrs.len() > 0 {
        let others = attrs.drop_first();
        assert(!attrs[0].gives(name));
        assert forall|j: int| 0 <= j < others.len() implies !(#[trigger] others[j]).gives(
            name,
        ) by {
            assert(others[j] == attrs[j + 1]);
        }
        lemma_none_given(others, name);
    }
}

/// Whether the word `name`, in any case and perhaps followed by whitespace, is
/// the last in `segment`: it ends at `end`, behind which only whitespace
/// stands, and begins the segment or stands behind whitespace.
pub open spec fn names_at(
    segment: Seq<u8>,
    name: Seq<u8>,
    begins_tag: bool,
    end: int,
) -> bool {
    let at = end - name.len();
    &&& 0 <= at && end <= segment.len()
    &&& forall|i: int| end <= i < segment.len() ==> is_ascii_space(#[trigger] segment[i])
    &&& forall|i: int|
        0 <= i < name.len() ==> ascii_lower(#[trigger] name[i]) == ascii_lower(segment[at + i])
    &&& at == 0 ==> begins_tag
    &&& at > 0 ==> is_ascii_space(segment[at - 1])
}

/// The bytes in front of an `=` end in a name where that name is their last
/// word, and nowhere else.
pub proof fn name_is_the_last_word(segment: Seq<u8>, name: Seq<u8>, begins_tag: bool)
    requires
        name.len() > 0,
        is_one_word(name),
    ensures
        ends_in_name(segment, name, begins_tag) <==> exists|end: int| #[trigger]
            names_at(segment, name, begins_tag, end),
{
    crate::ascii::trimmed_end_is_longest_unspaced_prefix(segment);
    let text = trimmed_end(segment);
    let n = text.len() as int;
    let at = n - name.len();
    if ends_in_name(segment, name, begins_tag) {
        let word = text.subrange(at, n);
        assert forall|i: int| 0 <= i < name.len() implies ascii_lower(#[trigger] name[i])
            == ascii_lower(segment[at + i]) by {
            assert(ascii_lower(word[i]) == ascii_lower(name[i]));
            assert(word[i] == text[at + i] && text[at + i] == segment[at + i]);
        }
        if at > 0 {
            assert(text[at - 1] == segment[at - 1]);
        }
        assert(names_at(segment, name, begins_tag, n));
    }
    if exists|end: int| #[trigger] names_at(segment, name, begins_tag, end) {
        let end = choose|end: int| #[trigger] names_at(segment, name, begins_tag, end);
        let k = name.len() - 1;
        assert(ascii_lower(name[k]) == ascii_lower(segment[end - name.len() + k]));
        assert(!is_ascii_space(name[k]));
        assert(!is_ascii_space(segment[end - 1]));
        if end < n {
            assert(is_ascii_space(segment[n - 1]));
            assert(text.last() == segment[n - 1]);
        }
        if end > n {
            assert(is_ascii_space(segment[end - 1]));
        }
        let word = text.subrange(at, n);
        assert forall|i: int| 0 <= i < word.len() implies ascii_lower(#[trigger] word[i])
            == ascii_lower(name[i]) by {
            assert(word[i] == text[at + i] && text[at + i] == segment[at + i]);
            assert(ascii_lower(name[i]) == ascii_lower(segment[at + i]));
        }
        if at > 0 {
            assert(text[at - 1] == segment[at - 1]);
        }
    }
}

/// A tag without an `=` has no attribute with a value.
pub proof fn tag_without_equals_has_no_values(tag: Seq<u8>, name: Seq<u8>)
    requires
        !tag.contains('=' as u8),
    ensures
        attribute(tag, name) is None,
{
    assert(tag =~= Seq::empty() + tag);
    lemma_no_attribute(Seq::empty(), tag, name);
}

/// On any tag, however malformed: where the bytes in front of the first `=` end
/// in the name, the value behind that `=` counts.
pub proof fn first_attribute_counts_where_named(segment: Seq<u8>, rest: Seq<u8>, name: Seq<u8>)
    requires
        !segment.contains('=' as u8),
        ends_in_name(segment, name, true),
    ensures
        attribute(segment + seq!['=' as u8] + rest, name) == value_after(
            segment + seq!['=' as u8] + rest,
            (segment.len() + 1) as int,
        ),
{
    lemma_first_equals(segment, rest);
    let tag = segment + seq!['=' as u8] + rest;
    assert(tag.subrange(0, segment.len() as int) =~= segment);
}

/// On any tag, however malformed: where the bytes in front of the first `=` do
/// not end in the name, that attribute and its value are passed over, and what
/// counts is what stands behind them, as in a tag of its own.
pub proof fn other_attribute_is_passed_over(
    segment: Seq<u8>,
    value: Seq<u8>,
    rest: Seq<u8>,
    name: Seq<u8>,
)
    requires
        !segment.contains('=' as u8),
        !ends_in_name(segment, name, true),
        value_end(
            segment + seq!['=' as u8] + value + rest,
            (segment.len() + 1) as int,
        ) == segment.len() + 1
            + value.len(),
        name.len() > 0,
        is_one_word(name),
        name[0] != '<' as u8,
    ensures
        attribute(segment + seq!['=' as u8] + value + rest, name) == attribute(
            seq!['<' as u8] + rest,
            name,
        ),
{
    let tag = segment + seq!['=' as u8] + value + rest;
    let done = segment + seq!['=' as u8] + value;
    assert(tag =~= segment + seq!['=' as u8] + (value + rest));
    lemma_first_equals(segment, value + rest);
    assert(tag.subrange(0, segment.len() as int) =~= segment);
    assert(tag =~= done + rest);
    lemma_own_tag(done, rest, name);
}

proof fn lemma_first_equals(segment: Seq<u8>, rest: Seq<u8>)
    requires
        !segment.contains('=' as u8),
    ensures
        crate::search::first_index(segment + seq!['=' as u8] + rest, '=' as u8, 0) == Some(
            segment.len() as int,
        ),
{
    let tag = segment + seq!['=' as u8] + rest;
    assert forall|j: int| 0 <= j < segment.len() implies tag[j] != '=' as u8 by {
        assert(tag[j] == segment[j]);
        assert(segment.contains(segment[j]));
    }
    assert(tag[segment.len() as int] == '=' as u8);
    crate::search::lemma_first_index_found(tag, '=' as u8, 0, segment.len() as int);
}

/// What stands behind attributes is read as behind a `<`.
proof fn lemma_own_tag(done: Seq<u8>, rest: Seq<u8>, name: Seq<u8>)
    requires
        done.len() > 0,
        name.len() > 0,
        is_one_word(name),
        name[0] != '<' as u8,
    ensures
        attribute_from(done + rest, name, done.len() as int) == attribute(
            seq!['<' as u8] + rest,
            name,
        ),
{
    let tag = done + rest;
    let own = seq!['<' as u8] + rest;
    let n = done.len() as int;
    crate::search::first_index_is_least(rest, '=' as u8, 0);
    lemma_moved_index(done, rest, '=' as u8, 0);
    lemma_moved_index(seq!['<' as u8], rest, '=' as u8, 0);
    assert(own[0] == '<' as u8);
    assert(crate::search::first_index(own, '=' as u8, 0) == crate::search::first_index(
        own,
        '=' as u8,
        1,
    ));
    if let Some(eq) = crate::search::first_index(rest, '=' as u8, 0) {
        let segment = rest.subrange(0, eq);
        assert(tag.subrange(n, n + eq) =~= segment);
        assert(own.subrange(0, 1 + eq) =~= seq!['<' as u8] + segment);
        lemma_behind_bracket(segment, name);
        lemma_moved_value(done, rest, eq + 1);
        lemma_moved_value(seq!['<' as u8], rest, eq + 1);
        crate::tag::lemma_value_end(rest, eq + 1);
        lemma_moved_attribute(done, seq!['<' as u8], rest, name, value_end(rest, eq + 1));
    }
}

/// A name behind a `<` counts only behind whitespace.
proof fn lemma_behind_bracket(segment: Seq<u8>, name: Seq<u8>)
    requires
        name.len() > 0,
        is_one_word(name),
        name[0] != '<' as u8,
    ensures
        ends_in_name(segment, name, false) == ends_in_name(
            seq!['<' as u8] + segment,
            name,
            true,
        ),
{
    let longer = seq!['<' as u8] + segment;
    name_is_the_last_word(segment, name, false);
    name_is_the_last_word(longer, name, true);
    if exists|end: int| #[trigger] names_at(segment, name, false, end) {
        let end = choose|end: int| #[trigger] names_at(segment, name, false, end);
        let at = end - name.len();
        assert forall|i: int| end + 1 <= i < longer.len() implies is_ascii_space(
            #[trigger] longer[i],
        ) by {
            assert(longer[i] == segment[i - 1]);
        }
        assert forall|i: int| 0 <= i < name.len() implies ascii_lower(#[trigger] name[i])
            == ascii_lower(longer[at + 1 + i]) by {
            assert(longer[at + 1 + i] == segment[at + i]);
        }
        assert(longer[at] == segment[at - 1]);
        assert(names_at(longer, name, true, end + 1));
    }
    if exists|end: int| #[trigger] names_at(longer, name, true, end) {
        let end = choose|end: int| #[trigger] names_at(longer, name, true, end);
        let at = end - name.len();
        assert(ascii_lower(name[0]) == ascii_lower(longer[at + 0]));
        assert(longer[0] == '<' as u8);
        assert(at > 0);
        assert(is_ascii_space(longer[at - 1]));
        assert(at > 1);
        assert forall|i: int| end - 1 <= i < segment.len() implies is_ascii_space(
            #[trigger] segment[i],
        ) by {
            assert(longer[i + 1] == segment[i]);
        }
        assert forall|i: int| 0 <= i < name.len() implies ascii_lower(#[trigger] name[i])
            == ascii_lower(segment[at - 1 + i]) by {
            assert(longer[at + i] == segment[at - 1 + i]);
        }
        assert(longer[at - 1] == segment[at - 2]);
        assert(names_at(segment, name, false, end - 1));
    }
}

proof fn lemma_moved_index(front: Seq<u8>, rest: Seq<u8>, b: u8, from: int)
    requires
        0 <= from,
    ensures
        crate::search::first_index(front + rest, b, front.len() + from)
            == match crate::search::first_index(rest, b, from) {
            Some(i) => Some(front.len() + i),
            None => None,
        },
    decreases rest.len() - from,
{
    if from < rest.len() {
        assert((front + rest)[front.len() + from] == rest[from]);
        lemma_moved_index(front, rest, b, from + 1);
    }
}

proof fn lemma_moved_skip(front: Seq<u8>, rest: Seq<u8>, i: int)
    requires
        0 <= i,
    ensures
        skip_space(front + rest, front.len() + i) == front.len() + skip_space(rest, i),
        i <= skip_space(rest, i),
    decreases rest.len() - i,
{
    if i < rest.len() {
        assert((front + rest)[front.len() + i] == rest[i]);
        if is_ascii_space(rest[i]) {
            lemma_moved_skip(front, rest, i + 1);
        }
    }
}

proof fn lemma_moved_bare(front: Seq<u8>, rest: Seq<u8>, i: int)
    requires
        0 <= i <= rest.len(),
    ensures
        bare_end(front + rest, front.len() + i) == front.len() + bare_end(rest, i),
        i <= bare_end(rest, i) <= rest.len(),
    decreases rest.len() - i,
{
    if i < rest.len() {
        assert((front + rest)[front.len() + i] == rest[i]);
        if !crate::tag::ends_bare_value(rest[i]) {
            lemma_moved_bare(front, rest, i + 1);
        }
    }
}

/// A value is the same wherever its tag stands.
proof fn lemma_moved_value(front: Seq<u8>, rest: Seq<u8>, start: int)
    requires
        0 <= start <= rest.len(),
    ensures
        value_after(front + rest, front.len() + start) == value_after(rest, start),
        value_end(front + rest, front.len() + start) == front.len() + value_end(rest, start),
{
    let all = front + rest;
    lemma_moved_skip(front, rest, start);
    let i = skip_space(rest, start);
    if i < rest.len() {
        assert(all[front.len() + i] == rest[i]);
        if crate::tag::is_quote(rest[i]) {
            lemma_moved_index(front, rest, rest[i], i + 1);
            crate::search::first_index_is_least(rest, rest[i], i + 1);
            if let Some(end) = crate::search::first_index(rest, rest[i], i + 1) {
                assert(all.subrange(front.len() + i + 1, front.len() + end) =~= rest.subrange(
                    i + 1,
                    end,
                ));
            }
        } else {
            lemma_moved_bare(front, rest, i);
            let end = bare_end(rest, i);
            assert(all.subrange(front.len() + i, front.len() + end) =~= rest.subrange(i, end));
        }
    }
}

/// The attributes behind a value are the same whatever stands in front of it.
proof fn lemma_moved_attribute(
    one: Seq<u8>,
    other: Seq<u8>,
    rest: Seq<u8>,
    name: Seq<u8>,
    pos: int,
)
    requires
        one.len() > 0,
        other.len() > 0,
        0 <= pos <= rest.len(),
    ensures
        attribute_from(one + rest, name, one.len() + pos) == attribute_from(
            other + rest,
            name,
            other.len() + pos,
        ),
    decreases rest.len() - pos,
{
    lemma_moved_index(one, rest, '=' as u8, pos);
    lemma_moved_index(other, rest, '=' as u8, pos);
    crate::search::first_index_is_least(rest, '=' as u8, pos);
    if let Some(eq) = crate::search::first_index(rest, '=' as u8, pos) {
        assert((one + rest).subrange(one.len() + pos, one.len() + eq) =~= rest.subrange(pos, eq));
        assert((other + rest).subrange(other.len() + pos, other.len() + eq) =~= rest.subrange(
            pos,
            eq,
        ));
        lemma_moved_value(one, rest, eq + 1);
        lemma_moved_value(other, rest, eq + 1);
        crate::tag::lemma_value_end(rest, eq + 1);
        lemma_moved_attribute(one, other, rest, name, value_end(rest, eq + 1));
    }
}

} // verus!
