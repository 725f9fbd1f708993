//! A small base64 decoder for inline favicons (RFC 4648).

use vstd::prelude::*;

use crate::search::first_index;
use crate::text::chars_of;

verus! {

/// The six-bit value of a base64 symbol. `+` and `/` of the standard alphabet
/// and `-` and `_` of the URL-safe one are all understood.
pub open spec fn sextet(c: char) -> Option<u8> {
    if 'A' <= c <= 'Z' {
        Some((c as u32 - 'A' as u32) as u8)
    } else if 'a' <= c <= 'z' {
        Some((c as u32 - 'a' as u32 + 26) as u8)
    } else if '0' <= c <= '9' {
        Some((c as u32 - '0' as u32 + 52) as u8)
    } else if c == '+' || c == '-' {
        Some(62u8)
    } else if c == '/' || c == '_' {
        Some(63u8)
    } else {
        None
    }
}

/// The part of a base64 text in front of its padding.
pub open spec fn unpadded(text: Seq<char>) -> Seq<char> {
    match first_index(text, '=', 0) {
        Some(i) => text.subrange(0, i),
        None => text,
    }
}

/// Whether every character is a base64 symbol.
pub open spec fn all_symbols(text: Seq<char>) -> bool {
    forall|i: int| 0 <= i < text.len() ==> sextet(#[trigger] text[i]) is Some
}

/// The six-bit values of a text of base64 symbols.
pub open spec fn sextets(text: Seq<char>) -> Seq<u8> {
    Seq::new(text.len(), |i: int| sextet(text[i])->0)
}

/// Byte `i` of the bit string that the six-bit values `v` make up: bits `8i`
/// to `8i + 7`, where four values hold three bytes.
pub open spec fn byte_at(v: Seq<u8>, i: int) -> u8 {
    let q = i / 3 * 4;
    if i % 3 == 0 {
        (v[q] * 4 + v[q + 1] / 16) as u8
    } else if i % 3 == 1 {
        (v[q + 1] % 16 * 16 + v[q + 2] / 4) as u8
    } else {
        (v[q + 2] % 4 * 64 + v[q + 3]) as u8
    }
}

/// The whole bytes that the six-bit values `v` make up; bits left over at the
/// end are dropped.
pub open spec fn packed(v: Seq<u8>) -> Seq<u8> {
    Seq::new((v.len() * 6 / 8) as nat, |i: int| byte_at(v, i))
}

/// What a base64 text decodes to, or `None` where a character in front of the
/// padding is no base64 symbol.
pub open spec fn decoded(text: Seq<char>) -> Option<Seq<u8>> {
    if all_symbols(unpadded(text)) {
        Some(packed(sextets(unpadded(text))))
    } else {
        None
    }
}

/// The bytes of a decoding result.
pub open spec fn decoded_view(r: Result<Vec<u8>, ()>) -> Option<Seq<u8>> {
    match r {
        Ok(bytes) => Some(bytes@),
        Err(_) => None,
    }
}

/// The six-bit value of a base64 symbol.
pub fn symbol_value(c: char) -> (r: Option<u8>)
    ensures
        r == sextet(c),
{
    if 'A' <= c && c <= 'Z' {
        Some((c as u32 - 'A' as u32) as u8)
    } else if 'a' <= c && c <= 'z' {
        Some((c as u32 - 'a' as u32 + 26) as u8)
    } else if '0' <= c && c <= '9' {
        Some((c as u32 - '0' as u32 + 52) as u8)
    } else if c == '+' || c == '-' {
        Some(62)
    } else if c == '/' || c == '_' {
        Some(63)
    } else {
        None
    }
}

proof fn lemma_sextet_bound(c: char)
    ensures
        sextet(c) matches Some(v) ==> v < 64,
{
}

/// What is known of a decoder that has read `k` symbols with the six-bit
/// values `v`: the whole bytes are out, and `carry` holds the bits that do not
/// fill a byte yet.
spec fn decoding(v: Seq<u8>, k: int, out: Seq<u8>, carry: u8) -> bool {
    &&& out.len() == k * 6 / 8
    &&& forall|i: int| 0 <= i < out.len() ==> #[trigger] out[i] == byte_at(v, i)
    &&& k % 4 == 1 ==> carry == v[k - 1]
    &&& k % 4 == 2 ==> carry == v[k - 1] % 16
    &&& k % 4 == 3 ==> carry == v[k - 1] % 4
}

/// One more symbol takes the decoder to the next state.
proof fn lemma_decoding_step(
    v: Seq<u8>,
    k: int,
    out: Seq<u8>,
    carry: u8,
    next_out: Seq<u8>,
    next_carry: u8,
)
    requires
        0 <= k < v.len(),
        forall|i: int| 0 <= i <= k ==> #[trigger] v[i] < 64,
        decoding(v, k, out, carry),
        k % 4 == 0 ==> next_out == out && next_carry == v[k],
        k % 4 == 1 ==> next_out == out.push((carry * 4 + v[k] / 16) as u8) && next_carry == v[k]
            % 16,
        k % 4 == 2 ==> next_out == out.push((carry * 16 + v[k] / 4) as u8) && next_carry == v[k]
            % 4,
        k % 4 == 3 ==> next_out == out.push((carry * 64 + v[k]) as u8),
    ensures
        decoding(v, k + 1, next_out, next_carry),
{
    assert forall|i: int| 0 <= i < next_out.len() implies #[trigger] next_out[i] == byte_at(
        v,
        i,
    ) by {
        if i < out.len() {
            assert(next_out[i] == out[i]);
        }
    }
}

/// Decodes base64 symbols.
///
/// Reading stops at the first `=`: padding is not required, and nothing behind
/// it is looked at. A character that is no symbol of either alphabet is an
/// error.
pub fn base64_decode_chars(input: &Vec<char>) -> (r: Result<Vec<u8>, ()>)
    ensures
        decoded_view(r) == decoded(input@),
{
    let mut output: Vec<u8> = Vec::new();
    let mut carry: u8 = 0;
    let mut phase: u8 = 0;
    let mut k: usize = 0;
    let ghost v = sextets(input@);
    while k < input.len() && input[k] != '='
        invariant
            k <= input@.len(),
            v == sextets(input@),
            forall|i: int| 0 <= i < k ==> input@[i] != '=',
            forall|i: int| 0 <= i < k ==> sextet(#[trigger] input@[i]) is Some,
            forall|i: int| 0 <= i < k ==> #[trigger] v[i] < 64,
            phase == k % 4,
            decoding(v, k as int, output@, carry),
        decreases input@.len() - k,
    {
        let c: char = input[k];
        let value: u8 = match symbol_value(c) {
            Some(value) => value,
            None => {
                proof {
                    lemma_unpadded_covers(input@, k as int);
                    assert(unpadded(input@)[k as int] == input@[k as int]);
                    assert(!all_symbols(unpadded(input@)));
                }
                return Err(());
            },
        };
        proof {
            lemma_sextet_bound(c);
            assert(v[k as int] == value);
        }
        let ghost before = output@;
        let ghost held = carry;
        if phase == 0 {
            carry = value;
            phase = 1;
        } else if phase == 1 {
            output.push(carry * 4 + value / 16);
            carry = value % 16;
            phase = 2;
        } else if phase == 2 {
            output.push(carry * 16 + value / 4);
            carry = value % 4;
            phase = 3;
        } else {
            output.push(carry * 64 + value);
            phase = 0;
        }
        k += 1;
        proof {
            lemma_decoding_step(v, k - 1, before, held, output@, carry);
        }
    }
    proof {
        let front = unpadded(input@);
        if k < input@.len() {
            crate::search::lemma_first_index_found(input@, '=', 0, k as int);
        } else {
            crate::search::lemma_first_index_absent(input@, '=', 0);
        }
        assert(front =~= input@.subrange(0, k as int));
        assert forall|i: int| 0 <= i < front.len() implies sextet(#[trigger] front[i]) is Some by {
            assert(front[i] == input@[i]);
        }
        assert(sextets(front) =~= v.subrange(0, k as int));
        assert(output@ =~= packed(sextets(front)));
    }
    Ok(output)
}

/// Decodes base64 text of the standard or the URL-safe alphabet. Padding ends
/// the text and may be missing.
pub fn base64_decode(input: &str) -> (r: Result<Vec<u8>, ()>)
    ensures
        decoded_view(r) == decoded(input@),
{
    let chars: Vec<char> = chars_of(input);
    base64_decode_chars(&chars)
}

proof fn lemma_unpadded_covers(text: Seq<char>, k: int)
    requires
        0 <= k < text.len(),
        forall|i: int| 0 <= i <= k ==> text[i] != '=',
    ensures
        k < unpadded(text).len(),
        unpadded(text)[k] == text[k],
{
    crate::search::first_index_is_least(text, '=', 0);
}

/// The standard symbol of a six-bit value.
pub open spec fn symbol(v: u8) -> char {
    if v < 26 {
        ('A' as u32 + v) as char
    } else if v < 52 {
        ('a' as u32 + v - 26) as char
    } else if v < 62 {
        ('0' as u32 + v - 52) as char
    } else if v == 62 {
        '+'
    } else {
        '/'
    }
}

/// Byte `i`, or zero behind the end.
pub open spec fn byte_or_zero(bytes: Seq<u8>, i: int) -> u8 {
    if i < bytes.len() {
        bytes[i]
    } else {
        0
    }
}

/// Six-bit value `i` of a byte string, where three bytes make up four values
/// and missing bits are zero.
pub open spec fn sextet_at(bytes: Seq<u8>, i: int) -> u8 {
    let q = i / 4 * 3;
    if i % 4 == 0 {
        (byte_or_zero(bytes, q) / 4) as u8
    } else if i % 4 == 1 {
        (byte_or_zero(bytes, q) % 4 * 16 + byte_or_zero(bytes, q + 1) / 16) as u8
    } else if i % 4 == 2 {
        (byte_or_zero(bytes, q + 1) % 16 * 4 + byte_or_zero(bytes, q + 2) / 64) as u8
    } else {
        (byte_or_zero(bytes, q + 2) % 64) as u8
    }
}

/// The base64 form of a byte string in the standard alphabet, without padding.
pub open spec fn encoded(bytes: Seq<u8>) -> Seq<char> {
    Seq::new(((bytes.len() * 8 + 5) / 6) as nat, |i: int| symbol(sextet_at(bytes, i)))
}

/// Decoding gives back what standard encoding wrote, whatever padding follows.
pub proof fn decoding_inverts_encoding(bytes: Seq<u8>, padding: Seq<char>)
    requires
        padding.len() > 0 ==> padding[0] == '=',
    ensures
        decoded(encoded(bytes) + padding) == Some(bytes),
{
    let code = encoded(bytes);
    let text = code + padding;
    assert forall|i: int| 0 <= i < code.len() implies code[i] != '=' && sextet(code[i]) == Some(
        sextet_at(bytes, i),
    ) by {
        lemma_symbol(sextet_at(bytes, i));
        lemma_sextet_at_bound(bytes, i);
    }
    if padding.len() > 0 {
        assert(text[code.len() as int] == '=');
        crate::search::lemma_first_index_found(text, '=', 0, code.len() as int);
    } else {
        crate::search::lemma_first_index_absent(text, '=', 0);
    }
    assert(unpadded(text) =~= code);
    let v = sextets(code);
    assert(packed(v).len() == bytes.len());
    assert forall|i: int| 0 <= i < bytes.len() implies packed(v)[i] == bytes[i] by {
        lemma_byte_back(bytes, i);
    }
    assert(packed(v) =~= bytes);
}

proof fn lemma_symbol(v: u8)
    ensures
        v < 64 ==> sextet(symbol(v)) == Some(v),
        symbol(v) != '=',
{
}

proof fn lemma_sextet_at_bound(bytes: Seq<u8>, i: int)
    ensures
        sextet_at(bytes, i) < 64,
{
}

proof fn lemma_byte_back(bytes: Seq<u8>, i: int)
    requires
        0 <= i < bytes.len(),
    ensures
        packed(sextets(encoded(bytes)))[i] == bytes[i],
{
    let v = sextets(encoded(bytes));
    let q = i / 3 * 4;
    let b = i / 3 * 3;
    assert forall|k: int| 0 <= k < v.len() implies #[trigger] v[k] == sextet_at(bytes, k) by {
        lemma_sextet_at_bound(bytes, k);
        lemma_symbol(sextet_at(bytes, k));
    }
    assert(q / 4 * 3 == b && (q + 1) / 4 * 3 == b && (q + 2) / 4 * 3 == b && (q + 3) / 4 * 3 == b);
    if i % 3 == 0 {
        assert(v[q] == sextet_at(bytes, q) && v[q + 1] == sextet_at(bytes, q + 1));
    } else if i % 3 == 1 {
        assert(v[q + 1] == sextet_at(bytes, q + 1) && v[q + 2] == sextet_at(bytes, q + 2));
    } else {
        assert(v[q + 2] == sextet_at(bytes, q + 2) && v[q + 3] == sextet_at(bytes, q + 3));
    }
}

/// Padding changes nothing: an `=`, and all that follows it, may as well be
/// left out.
pub proof fn padding_is_ignored(text: Seq<char>, rest: Seq<char>)
    ensures
        decoded(text + seq!['='] + rest) == decoded(text),
{
    let long = text + seq!['='] + rest;
    crate::search::first_index_is_least(text, '=', 0);
    match first_index(text, '=', 0) {
        Some(i) => {
            assert(long[i] == '=');
            assert forall|j: int| 0 <= j < i implies long[j] != '=' by {
                assert(long[j] == text[j]);
            }
            crate::search::lemma_first_index_found(long, '=', 0, i);
            assert(long.subrange(0, i) =~= text.subrange(0, i));
        },
        None => {
            assert(long[text.len() as int] == '=');
            assert forall|j: int| 0 <= j < text.len() implies long[j] != '=' by {
                assert(long[j] == text[j]);
            }
            crate::search::lemma_first_index_found(long, '=', 0, text.len() as int);
            assert(long.subrange(0, text.len() as int) =~= text);
        },
    }
}

/// The URL-safe spelling of a standard symbol.
pub open spec fn url_safe(c: char) -> char {
    if c == '+' {
        '-'
    } else if c == '/' {
        '_'
    } else {
        c
    }
}

/// The two alphabets decode alike: respelling a text in the URL-safe alphabet
/// does not change what it decodes to.
pub proof fn alphabets_agree(text: Seq<char>)
    ensures
        decoded(text.map_values(|c: char| url_safe(c))) == decoded(text),
{
    let other = text.map_values(|c: char| url_safe(c));
    crate::search::first_index_is_least(text, '=', 0);
    match first_index(text, '=', 0) {
        Some(i) => {
            crate::search::lemma_first_index_found(other, '=', 0, i);
        },
        None => {
            crate::search::lemma_first_index_absent(other, '=', 0);
        },
    }
    let a = unpadded(text);
    let b = unpadded(other);
    assert(a.len() == b.len());
    assert forall|i: int| 0 <= i < a.len() implies sextet(#[trigger] b[i]) == sextet(a[i]) by {}
    if all_symbols(a) {
        assert(all_symbols(b));
        assert(sextets(a) =~= sextets(b));
    } else {
        let i = choose|i: int| 0 <= i < a.len() && sextet(#[trigger] a[i]) is None;
        assert(sextet(b[i]) is None);
    }
}

} // verus!
