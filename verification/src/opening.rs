//! Where tags open in a page: one spelling of a tag, or all that mix upper and
//! lower case.

use vstd::prelude::*;

use crate::ascii::ascii_lower;
use crate::ascii::eq_ascii_nocase;
use crate::ascii::eq_ignore_ascii_case;
use crate::search::find_byte_from;
use crate::search::find_subslice_from;
use crate::search::first_match;
use crate::search::index_view;
use crate::search::occurs_at;

verus! {

/// The spellings of the beginning of a tag that a scan looks for.
#[derive(Debug)]
pub enum TagOpening<'a> {
    /// The spelling that is given.
    Exact(&'a [u8]),
    /// Every spelling of the given text in which some letter is upper case and
    /// some letter is lower case.
    Mixed(&'a [u8]),
}

/// The spellings of the beginning of a tag, as sequences.
pub enum Opening {
    Exact(Seq<u8>),
    Mixed(Seq<u8>),
}

impl<'a> View for TagOpening<'a> {
    type V = Opening;

    open spec fn view(&self) -> Opening {
        match self {
            TagOpening::Exact(text) => Opening::Exact(text@),
            TagOpening::Mixed(text) => Opening::Mixed(text@),
        }
    }
}

/// An upper-case ASCII letter.
pub open spec fn is_upper(b: u8) -> bool {
    0x41 <= b <= 0x5a
}

/// A lower-case ASCII letter.
pub open spec fn is_lower(b: u8) -> bool {
    0x61 <= b <= 0x7a
}

/// Whether a text holds letters of both cases.
pub open spec fn is_mixed_case(s: Seq<u8>) -> bool {
    &&& exists|i: int| 0 <= i < s.len() && is_upper(#[trigger] s[i])
    &&& exists|i: int| 0 <= i < s.len() && is_lower(#[trigger] s[i])
}

impl Opening {
    /// The text that is spelled.
    pub open spec fn text(self) -> Seq<u8> {
        match self {
            Opening::Exact(text) => text,
            Opening::Mixed(text) => text,
        }
    }

    /// Whether `s` is one of the spellings.
    pub open spec fn accepts(self, s: Seq<u8>) -> bool {
        match self {
            Opening::Exact(text) => s == text,
            Opening::Mixed(text) => eq_ascii_nocase(s, text) && is_mixed_case(s),
        }
    }
}

/// Whether a tag opens at position `i` of a page.
pub open spec fn opens_at(body: Seq<u8>, opening: Opening, i: int) -> bool {
    i + opening.text().len() <= body.len() && opening.accepts(
        body.subrange(i, i + opening.text().len()),
    )
}

/// The least position at or after `from` at which a tag opens.
pub open spec fn first_opening(body: Seq<u8>, opening: Opening, from: int) -> Option<int>
    decreases body.len() + 1 - from,
{
    if from + opening.text().len() > body.len() {
        None
    } else if opens_at(body, opening, from) {
        Some(from)
    } else {
        first_opening(body, opening, from + 1)
    }
}

/// What a position returned by `first_opening` is: a tag opens there, and at no
/// earlier position from `from` on. `None` means that none opens.
pub proof fn first_opening_is_least(body: Seq<u8>, opening: Opening, from: int)
    requires
        0 <= from,
    ensures
        match first_opening(body, opening, from) {
            Some(i) => from <= i && opens_at(body, opening, i) && forall|j: int|
                from <= j < i ==> !opens_at(body, opening, j),
            None => forall|j: int| from <= j ==> !opens_at(body, opening, j),
        },
    decreases body.len() + 1 - from,
{
    if from + opening.text().len() <= body.len() && !opens_at(body, opening, from) {
        first_opening_is_least(body, opening, from + 1);
    }
}

/// `first_opening` is the position found by a scan that met an opening at `i`
/// and nowhere earlier.
pub proof fn lemma_first_opening_found(body: Seq<u8>, opening: Opening, from: int, i: int)
    requires
        0 <= from <= i,
        opens_at(body, opening, i),
        forall|j: int| from <= j < i ==> !opens_at(body, opening, j),
    ensures
        first_opening(body, opening, from) == Some(i),
    decreases i - from,
{
    if from < i {
        lemma_first_opening_found(body, opening, from + 1, i);
    }
}

/// `first_opening` is `None` where no tag opens from `from` on.
pub proof fn lemma_first_opening_absent(body: Seq<u8>, opening: Opening, from: int)
    requires
        0 <= from,
        forall|j: int| from <= j ==> !opens_at(body, opening, j),
    ensures
        first_opening(body, opening, from) is None,
    decreases body.len() + 1 - from,
{
    if from + opening.text().len() <= body.len() {
        lemma_first_opening_absent(body, opening, from + 1);
    }
}

/// The spellings of a text differ from it in letters only.
pub proof fn lemma_spelling_keeps_marks(opening: Opening, s: Seq<u8>, i: int, b: u8)
    requires
        opening.accepts(s),
        0 <= i < s.len(),
        b < 0x41,
    ensures
        s.len() == opening.text().len(),
        s[i] == b <==> opening.text()[i] == b,
{
    if let Opening::Mixed(text) = opening {
        assert(ascii_lower(s[i]) == ascii_lower(text[i]));
    }
}

/// Whether a text holds letters of both cases.
fn has_mixed_case(s: &[u8]) -> (r: bool)
    ensures
        r == is_mixed_case(s@),
{
    let mut upper: bool = false;
    let mut lower: bool = false;
    let mut i: usize = 0;
    while i < s.len()
        invariant
            i <= s@.len(),
            upper == exists|j: int| 0 <= j < i && is_upper(#[trigger] s@[j]),
            lower == exists|j: int| 0 <= j < i && is_lower(#[trigger] s@[j]),
        decreases s@.len() - i,
    {
        let b: u8 = s[i];
        if 0x41 <= b && b <= 0x5a {
            assert(is_upper(s@[i as int]));
            upper = true;
        }
        if 0x61 <= b && b <= 0x7a {
            assert(is_lower(s@[i as int]));
            lower = true;
        }
        i += 1;
    }
    upper && lower
}

/// Index of the first mixed-case spelling of `text` in `body` at or after
/// `from`.
fn find_mixed_from(body: &[u8], text: &[u8], from: usize) -> (r: Option<usize>)
    requires
        from <= body@.len(),
    ensures
        index_view(r) == first_opening(body@, Opening::Mixed(text@), from as int),
{
    let ghost opening = Opening::Mixed(text@);
    if text.len() == 0 {
        proof {
            assert forall|j: int| from <= j implies !opens_at(body@, opening, j) by {}
            lemma_first_opening_absent(body@, opening, from as int);
        }
        return None;
    }
    let first: u8 = text[0];
    let first_is_letter: bool = (0x41 <= first && first <= 0x5a) || (0x61 <= first && first
        <= 0x7a);
    let mut i: usize = from;
    while i < body.len()
        invariant
            from <= i <= body@.len(),
            text@.len() > 0,
            first == text@[0],
            first_is_letter == (is_upper(first) || is_lower(first)),
            opening == Opening::Mixed(text@),
            forall|j: int| from <= j < i ==> !opens_at(body@, opening, j),
        decreases body@.len() - i,
    {
        if !first_is_letter {
            proof {
                crate::search::first_index_is_least(body@, first, i as int);
                assert forall|j: int| i <= j && opens_at(body@, opening, j) implies body@[j]
                    == first by {
                    let seen = body@.subrange(j, j + text@.len());
                    assert(seen[0] == body@[j]);
                    assert(ascii_lower(seen[0]) == ascii_lower(text@[0]));
                }
            }
            match find_byte_from(body, first, i) {
                Some(next) => {
                    assert forall|j: int| from <= j < next implies !opens_at(
                        body@,
                        opening,
                        j,
                    ) by {
                        if i <= j && opens_at(body@, opening, j) {
                            assert(body@[j] == first);
                        }
                    }
                    i = next;
                },
                None => {
                    proof {
                        assert forall|j: int| from <= j implies !opens_at(body@, opening, j) by {
                            if i <= j && opens_at(body@, opening, j) {
                                assert(body@[j] == first);
                            }
                        }
                        lemma_first_opening_absent(body@, opening, from as int);
                    }
                    return None;
                },
            }
        }
        if text.len() <= body.len() - i {
            let seen: &[u8] = vstd::slice::slice_subrange(body, i, i + text.len());
            if eq_ignore_ascii_case(seen, text) && has_mixed_case(seen) {
                proof {
                    lemma_first_opening_found(body@, opening, from as int, i as int);
                }
                return Some(i);
            }
        }
        assert(!opens_at(body@, opening, i as int));
        i += 1;
    }
    proof {
        lemma_first_opening_absent(body@, opening, from as int);
    }
    None
}

/// Index of the first place at or after `from` where a tag opens in `body`.
pub fn find_opening_from(body: &[u8], opening: &TagOpening, from: usize) -> (r: Option<usize>)
    requires
        from <= body@.len(),
    ensures
        index_view(r) == first_opening(body@, opening@, from as int),
{
    match opening {
        TagOpening::Exact(text) => {
            let found: Option<usize> = find_subslice_from(body, text, from);
            proof {
                crate::search::first_match_is_least(body@, text@, from as int);
                assert forall|j: int| opens_at(body@, opening@, j) == occurs_at(
                    body@,
                    text@,
                    j,
                ) by {}
                match first_match(body@, text@, from as int) {
                    Some(i) => lemma_first_opening_found(body@, opening@, from as int, i),
                    None => lemma_first_opening_absent(body@, opening@, from as int),
                }
            }
            found
        },
        TagOpening::Mixed(text) => find_mixed_from(body, text, from),
    }
}

/// Whether `text`, in any case, stands in `s` at position `i`.
pub open spec fn occurs_nocase_at(s: Seq<u8>, text: Seq<u8>, i: int) -> bool {
    i + text.len() <= s.len() && eq_ascii_nocase(s.subrange(i, i + text.len()), text)
}

/// Whether `text`, in any case, stands somewhere in `s`.
pub open spec fn is_part_nocase(s: Seq<u8>, text: Seq<u8>) -> bool {
    exists|i: int| 0 <= i && #[trigger] occurs_nocase_at(s, text, i)
}

} // verus!
