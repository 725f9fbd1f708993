//! What base64 texts decode to, four symbols at a time.

use vstd::prelude::*;

use crate::base64::all_symbols;
use crate::base64::byte_at;
use crate::base64::decoded;
use crate::base64::decoded_view;
use crate::base64::packed;
use crate::base64::sextet;
use crate::base64::sextets;
use crate::base64::unpadded;

verus! {

/// Whether a character is a symbol of the standard or the URL-safe alphabet.
pub open spec fn is_symbol(c: char) -> bool {
    ('A' <= c <= 'Z') || ('a' <= c <= 'z') || ('0' <= c <= '9') || c == '+' || c == '/' || c == '-'
        || c == '_'
}

/// Whether a text consists of symbols.
pub open spec fn is_code(text: Seq<char>) -> bool {
    forall|i: int| 0 <= i < text.len() ==> is_symbol(#[trigger] text[i])
}

/// The place of a symbol in its alphabet.
pub open spec fn rank(c: char) -> int {
    if 'A' <= c <= 'Z' {
        c as int - 'A' as int
    } else if 'a' <= c <= 'z' {
        26 + (c as int - 'a' as int)
    } else if '0' <= c <= '9' {
        52 + (c as int - '0' as int)
    } else if c == '+' || c == '-' {
        62
    } else {
        63
    }
}

proof fn lemma_rank(c: char)
    ensures
        sextet(c) is Some <==> is_symbol(c),
        is_symbol(c) ==> sextet(c)->0 == rank(c) && 0 <= rank(c) < 64,
        is_symbol(c) ==> c != '=',
{
}

proof fn lemma_code(text: Seq<char>)
    requires
        is_code(text),
    ensures
        unpadded(text) == text,
        all_symbols(text),
        decoded(text) == Some(packed(sextets(text))),
{
    assert forall|i: int| 0 <= i < text.len() implies text[i] != '=' && sextet(
        #[trigger] text[i],
    ) is Some by {
        lemma_rank(text[i]);
    }
    crate::search::lemma_first_index_absent(text, '=', 0);
}

/// A text decodes unless a character in front of its padding is no symbol.
pub proof fn only_other_characters_are_refused(text: Seq<char>)
    ensures
        decoded(text) is None <==> exists|i: int|
            0 <= i < text.len() && !is_symbol(#[trigger] text[i]) && forall|j: int|
                0 <= j <= i ==> #[trigger] text[j] != '=',
{
    crate::search::first_index_is_least(text, '=', 0);
    let front = unpadded(text);
    if decoded(text) is None {
        let i = choose|i: int| 0 <= i < front.len() && sextet(#[trigger] front[i]) is None;
        assert(front[i] == text[i]);
        lemma_rank(text[i]);
        assert forall|j: int| 0 <= j <= i implies #[trigger] text[j] != '=' by {}
        assert(!is_symbol(text[i]));
    }
    if exists|i: int|
        0 <= i < text.len() && !is_symbol(#[trigger] text[i]) && forall|j: int|
            0 <= j <= i ==> #[trigger] text[j] != '=' {
        let i = choose|i: int|
            0 <= i < text.len() && !is_symbol(#[trigger] text[i]) && forall|j: int|
                0 <= j <= i ==> #[trigger] text[j] != '=';
        if i >= front.len() {
            assert(text[front.len() as int] == '=');
        }
        assert(front[i] == text[i]);
        lemma_rank(text[i]);
        assert(sextet(front[i]) is None);
    }
}

/// Groups of four symbols decode each for itself: what a text of whole groups
/// and the text behind it decode to stands one behind the other.
pub proof fn groups_decode_each_for_itself(first: Seq<char>, second: Seq<char>)
    requires
        is_code(first),
        is_code(second),
        first.len() % 4 == 0,
    ensures
        decoded(first) is Some,
        decoded(second) is Some,
        decoded(first + second) == Some(decoded(first)->0 + decoded(second)->0),
{
    let text = first + second;
    assert forall|i: int| 0 <= i < text.len() implies is_symbol(#[trigger] text[i]) by {
        if i < first.len() {
            assert(text[i] == first[i]);
        } else {
            assert(text[i] == second[i - first.len()]);
        }
    }
    lemma_code(first);
    lemma_code(second);
    lemma_code(text);
    let a = sextets(first);
    let b = sextets(second);
    let v = sextets(text);
    assert(v =~= a + b);
    let n = packed(a).len() as int;
    assert(n == first.len() / 4 * 3);
    assert forall|i: int| 0 <= i < packed(v).len() implies packed(v)[i] == (packed(a) + packed(
        b,
    ))[i] by {
        if i < n {
            lemma_front_byte(a, b, i);
        } else {
            lemma_back_byte(a, b, i - n);
        }
    }
    assert(packed(v) =~= packed(a) + packed(b));
}

proof fn lemma_front_byte(a: Seq<u8>, b: Seq<u8>, i: int)
    requires
        a.len() % 4 == 0,
        0 <= i < a.len() / 4 * 3,
    ensures
        byte_at(a + b, i) == byte_at(a, i),
{
    let q = i / 3 * 4;
    assert(q + 3 < a.len());
    assert((a + b)[q] == a[q] && (a + b)[q + 1] == a[q + 1] && (a + b)[q + 2] == a[q + 2] && (a
        + b)[q + 3] == a[q + 3]);
}

proof fn lemma_back_byte(a: Seq<u8>, b: Seq<u8>, i: int)
    requires
        a.len() % 4 == 0,
        0 <= i < b.len() * 6 / 8,
    ensures
        byte_at(a + b, a.len() / 4 * 3 + i) == byte_at(b, i),
{
    let m = a.len() / 4;
    let k = m * 3 + i;
    let q = i / 3 * 4;
    assert(k / 3 == m + i / 3 && k % 3 == i % 3);
    assert(k / 3 * 4 == a.len() + q);
    if i % 3 == 0 {
        assert((a + b)[a.len() + q] == b[q] && (a + b)[a.len() + q + 1] == b[q + 1]);
    } else if i % 3 == 1 {
        assert((a + b)[a.len() + q + 1] == b[q + 1] && (a + b)[a.len() + q + 2] == b[q + 2]);
    } else {
        assert((a + b)[a.len() + q + 2] == b[q + 2] && (a + b)[a.len() + q + 3] == b[q + 3]);
    }
}

/// Four symbols are three bytes: read as numbers, of base 64 and of base 256,
/// they are the same. Of fewer symbols, the bits that fill no byte are dropped.
pub proof fn group_is_the_same_number(text: Seq<char>)
    requires
        is_code(text),
        text.len() <= 4,
    ensures
        decoded(text) is Some,
        text.len() <= 1 ==> decoded(text)->0 == Seq::<u8>::empty(),
        text.len() == 2 ==> decoded(text)->0.len() == 1 && decoded(text)->0[0] == (rank(text[0])
            * 64 + rank(text[1])) / 16,
        text.len() == 3 ==> decoded(text)->0.len() == 2 && decoded(text)->0[0] * 256 + decoded(
            text,
        )->0[1] == (rank(text[0]) * 4096 + rank(text[1]) * 64 + rank(text[2])) / 4,
        text.len() == 4 ==> decoded(text)->0.len() == 3 && decoded(text)->0[0] * 65536 + decoded(
            text,
        )->0[1] * 256 + decoded(text)->0[2] == rank(text[0]) * 262144 + rank(text[1]) * 4096
            + rank(text[2]) * 64 + rank(text[3]),
{
    lemma_code(text);
    let v = sextets(text);
    assert forall|i: int| 0 <= i < text.len() implies #[trigger] v[i] == rank(text[i]) && v[i]
        < 64 by {
        lemma_rank(text[i]);
    }
    if text.len() <= 1 {
        assert(packed(v) =~= Seq::empty());
    }
    if text.len() >= 2 {
        assert(v[0] < 64 && v[1] < 64);
    }
    if text.len() >= 3 {
        assert(v[2] < 64);
    }
    if text.len() == 4 {
        assert(v[3] < 64);
    }
}

/// A decoding result is viewed whole.
pub proof fn decoding_result_is_viewed_whole(r: Result<Vec<u8>, ()>)
    ensures
        decoded_view(r) is Some <==> r is Ok,
        r matches Ok(bytes) ==> decoded_view(r) == Some(bytes@),
{
}

} // verus!
