//! ASCII helpers for scanning raw bytes.

use vstd::prelude::*;
use vstd::utf8::is_ascii_chars;

verus! {

/// The bytes of an ASCII text.
pub open spec fn ascii(text: Seq<char>) -> Seq<u8> {
    Seq::new(text.len(), |i: int| text[i] as u8)
}

/// The bytes of an ASCII string literal.
pub fn ascii_bytes<'a>(text: &'a str) -> (r: &'a [u8])
    requires
        is_ascii_chars(text@),
    ensures
        r@ == ascii(text@),
{
    proof {
        vstd::utf8::is_ascii_chars_encode_utf8(text@);
    }
    text.as_bytes()
}

/// ASCII whitespace: tab, line feed, form feed, carriage return, space.
pub open spec fn is_ascii_space(b: u8) -> bool {
    b == 0x09 || b == 0x0a || b == 0x0c || b == 0x0d || b == 0x20
}

/// Whether `b` is ASCII whitespace.
pub fn is_ascii_whitespace(b: u8) -> (r: bool)
    ensures
        r == is_ascii_space(b),
{
    b == 0x09 || b == 0x0a || b == 0x0c || b == 0x0d || b == 0x20
}

/// The ASCII lower-case form of a byte.
pub open spec fn ascii_lower(b: u8) -> u8 {
    if 0x41 <= b <= 0x5a {
        (b + 0x20) as u8
    } else {
        b
    }
}

/// Equality of byte strings that takes an ASCII letter and its other case for
/// the same.
pub open spec fn eq_ascii_nocase(a: Seq<u8>, b: Seq<u8>) -> bool {
    a.len() == b.len() && forall|i: int|
        0 <= i < a.len() ==> ascii_lower(#[trigger] a[i]) == ascii_lower(b[i])
}

/// The ASCII lower-case form of a byte.
pub fn to_ascii_lowercase(b: u8) -> (r: u8)
    ensures
        r == ascii_lower(b),
{
    if 0x41 <= b && b <= 0x5a {
        b + 0x20
    } else {
        b
    }
}

/// Whether two byte strings are equal up to the case of ASCII letters.
pub fn eq_ignore_ascii_case(a: &[u8], b: &[u8]) -> (r: bool)
    ensures
        r == eq_ascii_nocase(a@, b@),
{
    if a.len() != b.len() {
        return false;
    }
    let mut i: usize = 0;
    while i < a.len()
        invariant
            i <= a@.len(),
            a@.len() == b@.len(),
            forall|j: int| 0 <= j < i ==> ascii_lower(#[trigger] a@[j]) == ascii_lower(b@[j]),
        decreases a@.len() - i,
    {
        if to_ascii_lowercase(a[i]) != to_ascii_lowercase(b[i]) {
            assert(ascii_lower(a@[i as int]) != ascii_lower(b@[i as int]));
            return false;
        }
        i += 1;
    }
    true
}

/// A byte string without its trailing ASCII whitespace.
pub open spec fn trimmed_end(s: Seq<u8>) -> Seq<u8>
    decreases s.len(),
{
    if s.len() > 0 && is_ascii_space(s.last()) {
        trimmed_end(s.drop_last())
    } else {
        s
    }
}

/// Trims trailing ASCII whitespace from a byte slice.
pub fn trim_end_ascii(s: &[u8]) -> (r: &[u8])
    ensures
        r@ == trimmed_end(s@),
{
    let mut end: usize = s.len();
    assert(s@.subrange(0, end as int) =~= s@);
    while end > 0 && is_ascii_whitespace(s[end - 1])
        invariant
            end <= s@.len(),
            trimmed_end(s@.subrange(0, end as int)) == trimmed_end(s@),
        decreases end,
    {
        assert(s@.subrange(0, end as int).drop_last() =~= s@.subrange(0, end - 1));
        end -= 1;
    }
    vstd::slice::slice_subrange(s, 0, end)
}

/// What trimming leaves: a prefix of the input that ends in no whitespace and
/// from which only whitespace was cut off.
pub proof fn trimmed_end_is_longest_unspaced_prefix(s: Seq<u8>)
    ensures
        trimmed_end(s).len() <= s.len(),
        trimmed_end(s) == s.subrange(0, trimmed_end(s).len() as int),
        trimmed_end(s).len() > 0 ==> !is_ascii_space(trimmed_end(s).last()),
        forall|i: int| trimmed_end(s).len() <= i < s.len() ==> is_ascii_space(#[trigger] s[i]),
    decreases s.len(),
{
    if s.len() > 0 && is_ascii_space(s.last()) {
        let t = s.drop_last();
        trimmed_end_is_longest_unspaced_prefix(t);
        assert(s.subrange(0, trimmed_end(s).len() as int) =~= t.subrange(
            0,
            trimmed_end(s).len() as int,
        ));
        assert forall|i: int| trimmed_end(s).len() <= i < s.len() implies is_ascii_space(
            #[trigger] s[i],
        ) by {
            if i < t.len() {
                assert(t[i] == s[i]);
            }
        }
    } else {
        assert(s.subrange(0, s.len() as int) =~= s);
    }
}

} // verus!
