//! What trimming, stripping and reading numbers give on texts that are given by
//! their parts.

use vstd::prelude::*;

use crate::number::all_digits;
use crate::number::decimal_value;
use crate::number::is_digit;
use crate::number::parsed_u64;
use crate::number::unsigned_part;
use crate::search::occurs_at;
use crate::search::starts_with;
use crate::text::is_space;
use crate::text::trimmed;
use crate::text::trimmed_end;
use crate::text::trimmed_start;
use crate::text::without_space;

verus! {

/// A pattern stands at a position where each of its elements does.
pub proof fn occurrence_is_element_by_element<T>(s: Seq<T>, pattern: Seq<T>, i: int)
    requires
        0 <= i,
    ensures
        occurs_at(s, pattern, i) <==> i + pattern.len() <= s.len() && forall|k: int|
            0 <= k < pattern.len() ==> #[trigger] pattern[k] == s[i + k],
        starts_with(s, pattern) <==> pattern.len() <= s.len() && forall|k: int|
            0 <= k < pattern.len() ==> #[trigger] pattern[k] == s[k],
{
    lemma_occurrence(s, pattern, i);
    lemma_occurrence(s, pattern, 0);
    if starts_with(s, pattern) {
        assert forall|k: int| 0 <= k < pattern.len() implies #[trigger] pattern[k] == s[k] by {
            assert(pattern[k] == s[0 + k]);
        }
    }
    if pattern.len() <= s.len() && forall|k: int|
        0 <= k < pattern.len() ==> #[trigger] pattern[k] == s[k] {
        assert forall|k: int| 0 <= k < pattern.len() implies #[trigger] pattern[k] == s[0 + k] by {
            assert(pattern[k] == s[k]);
        }
    }
}

proof fn lemma_occurrence<T>(s: Seq<T>, pattern: Seq<T>, i: int)
    requires
        0 <= i,
    ensures
        occurs_at(s, pattern, i) <==> i + pattern.len() <= s.len() && forall|k: int|
            0 <= k < pattern.len() ==> #[trigger] pattern[k] == s[i + k],
{
    if i + pattern.len() <= s.len() {
        let seen = s.subrange(i, i + pattern.len());
        if seen == pattern {
            assert forall|k: int| 0 <= k < pattern.len() implies #[trigger] pattern[k] == s[i
                + k] by {
                assert(seen[k] == s[i + k]);
            }
        }
        if forall|k: int| 0 <= k < pattern.len() ==> #[trigger] pattern[k] == s[i + k] {
            assert(seen =~= pattern) by {
                assert forall|k: int| 0 <= k < pattern.len() implies seen[k] == pattern[k] by {
                    assert(pattern[k] == s[i + k]);
                }
            }
        }
    }
}

/// Whether a text is whitespace all through.
pub open spec fn is_blank(s: Seq<char>) -> bool {
    forall|i: int| 0 <= i < s.len() ==> is_space(#[trigger] s[i])
}

/// Whether a text neither begins nor ends with whitespace.
pub open spec fn is_tight(s: Seq<char>) -> bool {
    s.len() > 0 ==> !is_space(s[0]) && !is_space(s[s.len() - 1])
}

/// Trimming takes off the whitespace around a text, all of it and nothing else.
pub proof fn trimming_takes_off_outer_space(lead: Seq<char>, core: Seq<char>, trail: Seq<char>)
    requires
        is_blank(lead),
        is_tight(core),
        is_blank(trail),
    ensures
        trimmed(lead + core + trail) == core,
{
    assert(lead + core + trail =~= lead + (core + trail));
    lemma_lead(lead, core + trail);
    if core.len() == 0 {
        assert(core + trail =~= trail + Seq::empty());
        lemma_lead(trail, Seq::empty());
        assert(trimmed(lead + core + trail) =~= core);
    } else {
        assert((core + trail).first() == core[0]);
        lemma_trail(core, trail);
    }
}

proof fn lemma_lead(lead: Seq<char>, rest: Seq<char>)
    requires
        is_blank(lead),
    ensures
        trimmed_start(lead + rest) == trimmed_start(rest),
    decreases lead.len(),
{
    if lead.len() == 0 {
        assert(lead + rest =~= rest);
    } else {
        assert((lead + rest).first() == lead[0]);
        assert((lead + rest).drop_first() =~= lead.drop_first() + rest);
        assert forall|i: int| 0 <= i < lead.drop_first().len() implies is_space(
            #[trigger] lead.drop_first()[i],
        ) by {
            assert(lead.drop_first()[i] == lead[i + 1]);
        }
        lemma_lead(lead.drop_first(), rest);
    }
}

proof fn lemma_trail(core: Seq<char>, trail: Seq<char>)
    requires
        is_tight(core),
        core.len() > 0,
        is_blank(trail),
    ensures
        trimmed_end(core + trail) == core,
    decreases trail.len(),
{
    if trail.len() == 0 {
        assert(core + trail =~= core);
    } else {
        assert((core + trail).last() == trail[trail.len() - 1]);
        assert((core + trail).drop_last() =~= core + trail.drop_last());
        assert forall|i: int| 0 <= i < trail.drop_last().len() implies is_space(
            #[trigger] trail.drop_last()[i],
        ) by {
            assert(trail.drop_last()[i] == trail[i]);
        }
        lemma_trail(core, trail.drop_last());
    }
}

/// Stripping works character by character: whitespace is left out, any other
/// character is kept, and the parts of a text are stripped each for itself.
pub proof fn stripping_works_by_character(first: Seq<char>, c: char, second: Seq<char>)
    ensures
        without_space(Seq::empty()) == Seq::<char>::empty(),
        is_space(c) ==> without_space(first + seq![c] + second) == without_space(first)
            + without_space(second),
        !is_space(c) ==> without_space(first + seq![c] + second) == without_space(first) + seq![c]
            + without_space(second),
{
    reveal(Seq::filter);
    let keep = |c: char| !is_space(c);
    Seq::filter_distributes_over_add(first + seq![c], second, keep);
    Seq::filter_distributes_over_add(first, seq![c], keep);
    assert(seq![c].drop_last() =~= Seq::empty());
    assert(seq![c].drop_last().filter(keep) =~= Seq::empty());
    if is_space(c) {
        assert(seq![c].filter(keep) =~= Seq::empty());
        assert(without_space(first) + Seq::empty() =~= without_space(first));
    } else {
        assert(seq![c].filter(keep) =~= seq![c]);
    }
}

/// The decimal digit of a number below ten.
pub open spec fn digit_of(d: nat) -> char {
    ('0' as u32 + d) as char
}

/// The shortest decimal text of a number.
pub open spec fn decimal_text(n: nat) -> Seq<char>
    decreases n,
{
    if n < 10 {
        seq![digit_of(n)]
    } else {
        decimal_text(n / 10).push(digit_of(n % 10))
    }
}

proof fn lemma_decimal_text(n: nat)
    ensures
        decimal_text(n).len() > 0,
        all_digits(decimal_text(n)),
        decimal_value(decimal_text(n)) == n,
    decreases n,
{
    let text = decimal_text(n);
    if n < 10 {
        assert(text.drop_last() =~= Seq::empty());
        assert(decimal_value(text.drop_last()) == 0);
        assert(text.last() == digit_of(n));
        assert(is_digit(text[0]));
    } else {
        lemma_decimal_text(n / 10);
        assert(text.drop_last() =~= decimal_text(n / 10));
        assert(text.last() == digit_of(n % 10));
        assert forall|i: int| 0 <= i < text.len() implies is_digit(#[trigger] text[i]) by {
            if i < text.len() - 1 {
                assert(text[i] == decimal_text(n / 10)[i]);
            }
        }
    }
}

proof fn lemma_zeros(zeros: Seq<char>, text: Seq<char>)
    requires
        forall|i: int| 0 <= i < zeros.len() ==> #[trigger] zeros[i] == '0',
    ensures
        decimal_value(zeros + text) == decimal_value(text),
    decreases zeros.len() + text.len(),
{
    if text.len() > 0 {
        assert((zeros + text).drop_last() =~= zeros + text.drop_last());
        assert((zeros + text).last() == text.last());
        lemma_zeros(zeros, text.drop_last());
    } else if zeros.len() > 0 {
        assert(zeros + text =~= zeros);
        assert(zeros.last() == '0');
        assert(zeros.drop_last() + text =~= zeros.drop_last());
        assert forall|i: int| 0 <= i < zeros.drop_last().len() implies
            #[trigger] zeros.drop_last()[i] == '0' by {
            assert(zeros.drop_last()[i] == zeros[i]);
        }
        lemma_zeros(zeros.drop_last(), text);
    } else {
        assert(zeros + text =~= text);
    }
}

/// A number is read back from its decimal text, with any zeros in front, where
/// 64 bits can hold it, and is refused where they cannot.
pub proof fn numbers_are_read_back(zeros: Seq<char>, n: nat)
    requires
        forall|i: int| 0 <= i < zeros.len() ==> #[trigger] zeros[i] == '0',
    ensures
        n <= u64::MAX ==> parsed_u64(zeros + decimal_text(n)) == Some(n as u64),
        n > u64::MAX ==> parsed_u64(zeros + decimal_text(n)) is None,
{
    lemma_decimal_text(n);
    lemma_zeros(zeros, decimal_text(n));
    let text = zeros + decimal_text(n);
    assert forall|i: int| 0 <= i < text.len() implies is_digit(#[trigger] text[i]) by {
        if i < zeros.len() {
            assert(text[i] == zeros[i]);
        } else {
            assert(text[i] == decimal_text(n)[i - zeros.len()]);
        }
    }
    assert(is_digit(text[0]));
    assert(unsigned_part(text) == text);
}

/// A plus sign in front of a number changes nothing; a second one is refused.
pub proof fn one_plus_sign_is_ignored(text: Seq<char>)
    ensures
        text.len() > 0 && text[0] != '+' ==> parsed_u64(seq!['+'] + text) == parsed_u64(text),
        text.len() > 0 && text[0] == '+' ==> parsed_u64(seq!['+'] + text) is None,
        parsed_u64(seq!['+']) is None,
        parsed_u64(Seq::empty()) is None,
{
    assert((seq!['+'] + text).drop_first() =~= text);
    assert((seq!['+'] + text)[0] == '+');
    assert(seq!['+'].drop_first() =~= Seq::empty());
    if text.len() > 0 && text[0] == '+' {
        assert(!is_digit(text[0]));
    }
}

/// A text with anything else than decimal digits, a plus sign in front aside,
/// is no number.
pub proof fn other_characters_make_no_number(text: Seq<char>, i: int)
    requires
        0 <= i < text.len(),
        text[i] < '0' || text[i] > '9',
        i > 0 || text[i] != '+',
    ensures
        parsed_u64(text) is None,
{
    if text[0] == '+' {
        assert(text.drop_first()[i - 1] == text[i]);
        assert(!is_digit(text.drop_first()[i - 1]));
    } else {
        assert(!is_digit(text[i]));
    }
}

} // verus!
