//! Characters and whitespace in strings.
//!
//! Strings are viewed as sequences of characters. The functions here work on
//! character vectors and hand out sub-slices of the strings they were given.

use vstd::prelude::*;
use vstd::string::StrSliceExecFns;

use crate::search::first_index;
use crate::search::first_match;
use crate::search::index_view;
use crate::search::last_index;
use crate::search::occurs_at;

verus! {

/// The characters of a string.
pub fn chars_of(text: &str) -> (r: Vec<char>)
    ensures
        r@ == text@,
{
    let mut chars: Vec<char> = Vec::new();
    for c in it: text.chars()
        invariant
            it.seq() == text@,
            chars@ == text@.take(it.index() as int),
    {
        chars.push(c);
    }
    chars
}

/// `std::str::from_utf8` accepts exactly the valid UTF-8 byte strings and
/// gives them back as text, whose UTF-8 form they are.
#[verifier::external_body]
pub(crate) fn utf8_text(bytes: &[u8]) -> (r: Option<&str>)
    ensures
        r is Some == vstd::utf8::valid_utf8(bytes@),
        r matches Some(text) ==> text@ == vstd::utf8::decode_utf8(bytes@),
{
    std::str::from_utf8(bytes).ok()
}

/// The characters with the Unicode property White_Space.
pub open spec fn is_space(c: char) -> bool {
    ||| '\u{9}' <= c <= '\u{d}'
    ||| c == '\u{20}'
    ||| c == '\u{85}'
    ||| c == '\u{a0}'
    ||| c == '\u{1680}'
    ||| '\u{2000}' <= c <= '\u{200a}'
    ||| c == '\u{2028}'
    ||| c == '\u{2029}'
    ||| c == '\u{202f}'
    ||| c == '\u{205f}'
    ||| c == '\u{3000}'
}

/// Whether `c` has the Unicode property White_Space.
pub fn is_whitespace(c: char) -> (r: bool)
    ensures
        r == is_space(c),
{
    ('\u{9}' <= c && c <= '\u{d}') || c == '\u{20}' || c == '\u{85}' || c == '\u{a0}' || c
        == '\u{1680}' || ('\u{2000}' <= c && c <= '\u{200a}') || c == '\u{2028}' || c == '\u{2029}'
        || c == '\u{202f}' || c == '\u{205f}' || c == '\u{3000}'
}

/// A text without its leading whitespace.
pub open spec fn trimmed_start(s: Seq<char>) -> Seq<char>
    decreases s.len(),
{
    if s.len() > 0 && is_space(s.first()) {
        trimmed_start(s.drop_first())
    } else {
        s
    }
}

/// A text without its trailing whitespace.
pub open spec fn trimmed_end(s: Seq<char>) -> Seq<char>
    decreases s.len(),
{
    if s.len() > 0 && is_space(s.last()) {
        trimmed_end(s.drop_last())
    } else {
        s
    }
}

/// A text without whitespace at either end.
pub open spec fn trimmed(s: Seq<char>) -> Seq<char> {
    trimmed_end(trimmed_start(s))
}

/// A trimmed text neither begins nor ends with whitespace.
pub proof fn trimmed_has_no_outer_space(s: Seq<char>)
    ensures
        trimmed(s).len() > 0 ==> !is_space(trimmed(s).first()) && !is_space(trimmed(s).last()),
{
    lemma_trimmed_start(s);
    lemma_trimmed_end(trimmed_start(s));
}

proof fn lemma_trimmed_start(s: Seq<char>)
    ensures
        trimmed_start(s).len() > 0 ==> !is_space(trimmed_start(s).first()),
    decreases s.len(),
{
    if s.len() > 0 && is_space(s.first()) {
        lemma_trimmed_start(s.drop_first());
    }
}

proof fn lemma_trimmed_end(s: Seq<char>)
    ensures
        trimmed_end(s).len() > 0 ==> !is_space(trimmed_end(s).last()) && trimmed_end(s).first()
            == s.first(),
    decreases s.len(),
{
    if s.len() > 0 && is_space(s.last()) {
        lemma_trimmed_end(s.drop_last());
    }
}

/// The bounds between which the trimmed form of a text stands.
pub fn trim_bounds(chars: &Vec<char>) -> (r: (usize, usize))
    ensures
        r.0 <= r.1 <= chars@.len(),
        chars@.subrange(r.0 as int, r.1 as int) == trimmed(chars@),
{
    let mut start: usize = 0;
    let n: usize = chars.len();
    assert(chars@.subrange(0, n as int) =~= chars@);
    while start < n && is_whitespace(chars[start])
        invariant
            start <= n == chars@.len(),
            trimmed_start(chars@.subrange(start as int, n as int)) == trimmed_start(chars@),
        decreases n - start,
    {
        assert(chars@.subrange(start as int, n as int).drop_first() =~= chars@.subrange(
            start + 1,
            n as int,
        ));
        start += 1;
    }
    let ghost kept = chars@.subrange(start as int, n as int);
    assert(kept == trimmed_start(chars@));
    let mut end: usize = n;
    while end > start && is_whitespace(chars[end - 1])
        invariant
            start <= end <= n == chars@.len(),
            trimmed_end(chars@.subrange(start as int, end as int)) == trimmed(chars@),
        decreases end,
    {
        assert(chars@.subrange(start as int, end as int).drop_last() =~= chars@.subrange(
            start as int,
            end - 1,
        ));
        end -= 1;
    }
    (start, end)
}

/// The text without whitespace at either end.
pub fn trim(text: &str) -> (r: &str)
    ensures
        r@ == trimmed(text@),
{
    let chars: Vec<char> = chars_of(text);
    let bounds: (usize, usize) = trim_bounds(&chars);
    text.substring_char(bounds.0, bounds.1)
}

/// The characters of a text that are no whitespace, in order.
pub open spec fn without_space(s: Seq<char>) -> Seq<char> {
    s.filter(|c: char| !is_space(c))
}

/// The characters from `from` on that are no whitespace.
pub fn strip_whitespace(chars: &Vec<char>, from: usize) -> (r: Vec<char>)
    requires
        from <= chars@.len(),
    ensures
        r@ == without_space(chars@.subrange(from as int, chars@.len() as int)),
{
    let mut kept: Vec<char> = Vec::new();
    let mut i: usize = from;
    proof {
        reveal(Seq::filter);
        assert(chars@.subrange(from as int, from as int) =~= Seq::empty());
    }
    while i < chars.len()
        invariant
            from <= i <= chars@.len(),
            kept@ == without_space(chars@.subrange(from as int, i as int)),
        decreases chars@.len() - i,
    {
        let c: char = chars[i];
        proof {
            reveal(Seq::filter);
            assert(chars@.subrange(from as int, i + 1).drop_last() =~= chars@.subrange(
                from as int,
                i as int,
            ));
        }
        if !is_whitespace(c) {
            kept.push(c);
        }
        i += 1;
    }
    kept
}

/// Whether `pattern` stands in `chars` at `i`.
pub fn matches_at(chars: &Vec<char>, pattern: &Vec<char>, i: usize) -> (r: bool)
    requires
        i <= chars@.len(),
    ensures
        r == occurs_at(chars@, pattern@, i as int),
{
    if pattern.len() > chars.len() - i {
        return false;
    }
    let mut k: usize = 0;
    while k < pattern.len()
        invariant
            k <= pattern@.len(),
            i + pattern@.len() <= chars@.len() == chars.len(),
            forall|j: int| 0 <= j < k ==> #[trigger] pattern@[j] == chars@[i + j],
        decreases pattern@.len() - k,
    {
        if chars[i + k] != pattern[k] {
            assert(chars@.subrange(i as int, i + pattern@.len())[k as int] != pattern@[k as int]);
            return false;
        }
        k += 1;
    }
    assert(chars@.subrange(i as int, i + pattern@.len()) =~= pattern@);
    true
}

/// Whether `chars` begin with `prefix`.
pub fn has_prefix(chars: &Vec<char>, prefix: &str) -> (r: bool)
    ensures
        r == crate::search::starts_with(chars@, prefix@),
{
    let pattern: Vec<char> = chars_of(prefix);
    matches_at(chars, &pattern, 0)
}

/// Where `pattern` first stands in `chars`.
pub fn find_text(chars: &Vec<char>, pattern: &str) -> (r: Option<usize>)
    ensures
        index_view(r) == first_match(chars@, pattern@, 0),
{
    let wanted: Vec<char> = chars_of(pattern);
    let mut i: usize = 0;
    while i < chars.len()
        invariant
            i <= chars@.len(),
            wanted@ == pattern@,
            forall|j: int| 0 <= j < i ==> !occurs_at(chars@, pattern@, j),
        decreases chars@.len() - i,
    {
        if matches_at(chars, &wanted, i) {
            proof {
                crate::search::lemma_first_match_found(chars@, pattern@, 0, i as int);
            }
            return Some(i);
        }
        i += 1;
    }
    if wanted.len() == 0 {
        proof {
            assert(chars@.subrange(i as int, i as int) =~= pattern@);
            crate::search::lemma_first_match_found(chars@, pattern@, 0, i as int);
        }
        return Some(i);
    }
    proof {
        crate::search::lemma_first_match_absent(chars@, pattern@, 0);
    }
    None
}

/// Where `c` first stands in `chars` at or after `from`.
pub fn find_char_from(chars: &Vec<char>, c: char, from: usize) -> (r: Option<usize>)
    requires
        from <= chars@.len(),
    ensures
        index_view(r) == first_index(chars@, c, from as int),
{
    let mut i: usize = from;
    while i < chars.len()
        invariant
            from <= i <= chars@.len(),
            forall|j: int| from <= j < i ==> chars@[j] != c,
        decreases chars@.len() - i,
    {
        if chars[i] == c {
            proof {
                crate::search::lemma_first_index_found(chars@, c, from as int, i as int);
            }
            return Some(i);
        }
        i += 1;
    }
    proof {
        crate::search::lemma_first_index_absent(chars@, c, from as int);
    }
    None
}

/// Where `c` last stands in `chars`.
pub fn find_last_char(chars: &Vec<char>, c: char) -> (r: Option<usize>)
    ensures
        index_view(r) == last_index(chars@, c),
{
    let mut end: usize = chars.len();
    assert(chars@.subrange(0, end as int) =~= chars@);
    while end > 0
        invariant
            end <= chars@.len(),
            last_index(chars@.subrange(0, end as int), c) == last_index(chars@, c),
        decreases end,
    {
        assert(chars@.subrange(0, end as int).drop_last() =~= chars@.subrange(0, end - 1));
        if chars[end - 1] == c {
            return Some(end - 1);
        }
        end -= 1;
    }
    None
}

} // verus!
