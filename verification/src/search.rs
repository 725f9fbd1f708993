//! Where an element or a pattern first occurs in a sequence.
//!
//! The specifications here are shared by the byte scanner, which searches with
//! the `memchr` crate, and by the text functions, which search characters.

use vstd::prelude::*;

verus! {

/// The least position at or after `from` that holds `x`.
pub open spec fn first_index<T>(s: Seq<T>, x: T, from: int) -> Option<int>
    decreases s.len() - from,
{
    if from >= s.len() {
        None
    } else if s[from] == x {
        Some(from)
    } else {
        first_index(s, x, from + 1)
    }
}

/// The greatest position that holds `x`.
pub open spec fn last_index<T>(s: Seq<T>, x: T) -> Option<int>
    decreases s.len(),
{
    if s.len() == 0 {
        None
    } else if s.last() == x {
        Some(s.len() - 1)
    } else {
        last_index(s.drop_last(), x)
    }
}

/// Whether `pattern` stands in `s` at position `i`.
pub open spec fn occurs_at<T>(s: Seq<T>, pattern: Seq<T>, i: int) -> bool {
    i + pattern.len() <= s.len() && s.subrange(i, i + pattern.len()) == pattern
}

/// The least position at or after `from` at which `pattern` stands in `s`.
pub open spec fn first_match<T>(s: Seq<T>, pattern: Seq<T>, from: int) -> Option<int>
    decreases s.len() + 1 - from,
{
    if from + pattern.len() > s.len() {
        None
    } else if occurs_at(s, pattern, from) {
        Some(from)
    } else {
        first_match(s, pattern, from + 1)
    }
}

/// Whether `part` stands somewhere in `s`.
pub open spec fn is_part<T>(s: Seq<T>, part: Seq<T>) -> bool {
    exists|i: int| 0 <= i && #[trigger] occurs_at(s, part, i)
}

/// Whether `s` begins with `prefix`.
pub open spec fn starts_with<T>(s: Seq<T>, prefix: Seq<T>) -> bool {
    occurs_at(s, prefix, 0)
}

/// The mathematical value of an optional machine index.
pub open spec fn index_view(r: Option<usize>) -> Option<int> {
    match r {
        Some(i) => Some(i as int),
        None => None,
    }
}

/// `first_index` is the position found by a scan that met `x` at `i` and
/// nowhere earlier.
pub proof fn lemma_first_index_found<T>(s: Seq<T>, x: T, from: int, i: int)
    requires
        0 <= from <= i < s.len(),
        s[i] == x,
        forall|j: int| from <= j < i ==> s[j] != x,
    ensures
        first_index(s, x, from) == Some(i),
    decreases i - from,
{
    if from < i {
        lemma_first_index_found(s, x, from + 1, i);
    }
}

/// `first_index` is `None` where a scan to the end never met `x`.
pub proof fn lemma_first_index_absent<T>(s: Seq<T>, x: T, from: int)
    requires
        0 <= from,
        forall|j: int| from <= j < s.len() ==> s[j] != x,
    ensures
        first_index(s, x, from) is None,
    decreases s.len() - from,
{
    if from < s.len() {
        lemma_first_index_absent(s, x, from + 1);
    }
}

/// What a position returned by `first_index` is: it holds `x`, and no earlier
/// position from `from` on does. `None` means that `x` does not occur.
pub proof fn first_index_is_least<T>(s: Seq<T>, x: T, from: int)
    requires
        0 <= from,
    ensures
        match first_index(s, x, from) {
            Some(i) => from <= i < s.len() && s[i] == x && forall|j: int|
                from <= j < i ==> s[j] != x,
            None => forall|j: int| from <= j < s.len() ==> s[j] != x,
        },
    decreases s.len() - from,
{
    if from < s.len() && s[from] != x {
        first_index_is_least(s, x, from + 1);
    }
}

/// What a position returned by `last_index` is: it holds `x`, and no later
/// position does. `None` means that `x` does not occur.
pub proof fn last_index_is_greatest<T>(s: Seq<T>, x: T)
    ensures
        match last_index(s, x) {
            Some(i) => 0 <= i < s.len() && s[i] == x && forall|j: int|
                i < j < s.len() ==> s[j] != x,
            None => forall|j: int| 0 <= j < s.len() ==> s[j] != x,
        },
    decreases s.len(),
{
    if s.len() > 0 && s.last() != x {
        last_index_is_greatest(s.drop_last(), x);
        assert forall|j: int| 0 <= j < s.len() - 1 implies s.drop_last()[j] == s[j] by {}
        if let Some(i) = last_index(s.drop_last(), x) {
            assert(s.drop_last()[i] == s[i]);
        }
    }
}

/// `first_match` is the position found by a scan that met the pattern at `i`
/// and nowhere earlier.
pub proof fn lemma_first_match_found<T>(s: Seq<T>, pattern: Seq<T>, from: int, i: int)
    requires
        0 <= from <= i,
        occurs_at(s, pattern, i),
        forall|j: int| from <= j < i ==> !occurs_at(s, pattern, j),
    ensures
        first_match(s, pattern, from) == Some(i),
    decreases i - from,
{
    if from < i {
        lemma_first_match_found(s, pattern, from + 1, i);
    }
}

/// `first_match` is `None` where the pattern never occurs from `from` on.
pub proof fn lemma_first_match_absent<T>(s: Seq<T>, pattern: Seq<T>, from: int)
    requires
        0 <= from,
        forall|j: int| from <= j ==> !occurs_at(s, pattern, j),
    ensures
        first_match(s, pattern, from) is None,
    decreases s.len() + 1 - from,
{
    if from + pattern.len() <= s.len() {
        lemma_first_match_absent(s, pattern, from + 1);
    }
}

/// What a position returned by `first_match` is: the pattern stands there, and
/// at no earlier position from `from` on. `None` means that it does not occur.
pub proof fn first_match_is_least<T>(s: Seq<T>, pattern: Seq<T>, from: int)
    requires
        0 <= from,
    ensures
        match first_match(s, pattern, from) {
            Some(i) => from <= i && occurs_at(s, pattern, i) && forall|j: int|
                from <= j < i ==> !occurs_at(s, pattern, j),
            None => forall|j: int| from <= j ==> !occurs_at(s, pattern, j),
        },
    decreases s.len() + 1 - from,
{
    if from + pattern.len() <= s.len() && !occurs_at(s, pattern, from) {
        first_match_is_least(s, pattern, from + 1);
    }
}

/// `memchr::memchr` returns the index of the first occurrence of `needle` in
/// `haystack`, and `None` where there is none.
pub assume_specification[ memchr::memchr ](needle: u8, haystack: &[u8]) -> (r: Option<usize>)
    ensures
        index_view(r) == first_index(haystack@, needle, 0),
;

/// `memchr::memmem::Finder`, made for `needle`, returns from `find` the index
/// of the first occurrence of the needle in `haystack`, and `None` where there
/// is none. An empty needle occurs at index 0.
#[verifier::external_body]
pub(crate) fn find_subslice(haystack: &[u8], needle: &[u8]) -> (r: Option<usize>)
    ensures
        index_view(r) == first_match(haystack@, needle@, 0),
{
    memchr::memmem::Finder::new(needle).find(haystack)
}

/// Index of the first `needle` in `haystack` at or after `from`.
pub fn find_byte_from(haystack: &[u8], needle: u8, from: usize) -> (r: Option<usize>)
    requires
        from <= haystack@.len(),
    ensures
        index_view(r) == first_index(haystack@, needle, from as int),
{
    let rest: &[u8] = vstd::slice::slice_subrange(haystack, from, haystack.len());
    let found: Option<usize> = memchr::memchr(needle, rest);
    proof {
        first_index_is_least(rest@, needle, 0);
        assert forall|j: int| from <= j < haystack@.len() implies haystack@[j] == #[trigger] rest@[j
            - from] by {}
    }
    match found {
        Some(offset) => {
            proof {
                assert forall|j: int| from <= j < from + offset implies haystack@[j] != needle by {
                    assert(haystack@[j] == rest@[j - from]);
                }
                lemma_first_index_found(haystack@, needle, from as int, from + offset);
            }
            Some(from + offset)
        },
        None => {
            proof {
                assert forall|j: int| from <= j < haystack@.len() implies haystack@[j]
                    != needle by {
                    assert(haystack@[j] == rest@[j - from]);
                }
                lemma_first_index_absent(haystack@, needle, from as int);
            }
            None
        },
    }
}

/// Index of the first place at or after `from` where `needle` stands in
/// `haystack`.
pub fn find_subslice_from(haystack: &[u8], needle: &[u8], from: usize) -> (r: Option<usize>)
    requires
        from <= haystack@.len(),
    ensures
        index_view(r) == first_match(haystack@, needle@, from as int),
{
    let rest: &[u8] = vstd::slice::slice_subrange(haystack, from, haystack.len());
    let found: Option<usize> = find_subslice(rest, needle);
    proof {
        first_match_is_least(rest@, needle@, 0);
        assert forall|j: int| from <= j implies occurs_at(haystack@, needle@, j) == occurs_at(
            rest@,
            needle@,
            j - from,
        ) by {
            if j + needle@.len() <= haystack@.len() {
                assert(haystack@.subrange(j, j + needle@.len()) =~= rest@.subrange(
                    j - from,
                    j - from + needle@.len(),
                ));
            }
        }
    }
    match found {
        Some(offset) => {
            proof {
                assert(occurs_at(haystack@, needle@, from + offset));
                lemma_first_match_found(haystack@, needle@, from as int, from + offset);
            }
            Some(from + offset)
        },
        None => {
            proof {
                lemma_first_match_absent(haystack@, needle@, from as int);
            }
            None
        },
    }
}

} // verus!
