//! What is read off a memory report that is given by its parts.

use vstd::prelude::*;

use crate::memory::bytes_of_pages;
use crate::memory::first_line_with;
use crate::memory::line_at;
use crate::memory::line_end;
use crate::memory::line_kilobytes;
use crate::memory::meminfo_bytes;
use crate::memory::meminfo_kilobytes;
use crate::memory::number_view;
use crate::memory::printed_number;
use crate::memory::usable_pages;
use crate::memory::without_suffix;
use crate::number::parsed_u64;
use crate::search::starts_with;
use crate::text::is_space;
use crate::text_laws::is_blank;
use crate::text_laws::is_tight;

verus! {

/// Whether a line begins at position `i`.
pub open spec fn begins_line(text: Seq<char>, i: int) -> bool {
    i == 0 || text[i - 1] == '\n'
}

/// Whether a line of `text` begins with `label` at position `i`.
pub open spec fn labels_line(text: Seq<char>, label: Seq<char>, i: int) -> bool {
    begins_line(text, i) && i + label.len() <= text.len() && forall|k: int|
        0 <= k < label.len() ==> #[trigger] label[k] == text[i + k]
}

/// Whether a text holds no line feed.
pub open spec fn is_one_line(text: Seq<char>) -> bool {
    forall|i: int| 0 <= i < text.len() ==> #[trigger] text[i] != '\n'
}

/// The unit `kB`, written `k` times.
pub open spec fn units(k: nat) -> Seq<char> {
    Seq::new(
        2 * k,
        |i: int|
            if i % 2 == 0 {
                'k'
            } else {
                'B'
            },
    )
}

proof fn lemma_unlabelled(text: Seq<char>, pos: int)
    requires
        0 <= pos,
        begins_line(text, pos),
        forall|i: int|
            0 <= i < text.len() ==> !#[trigger] labels_line(text, "MemAvailable:"@, i),
    ensures
        first_line_with(text, "MemAvailable:"@, pos) is None,
    decreases text.len() + 1 - pos,
{
    if pos < text.len() {
        crate::search::first_index_is_least(text, '\n', pos);
        lemma_label(text, pos);
        let next = line_end(text, pos) + 1;
        if next < text.len() {
            lemma_unlabelled(text, next);
        }
    }
}

/// The line at `pos` begins with the label where the text does.
proof fn lemma_label(text: Seq<char>, pos: int)
    requires
        0 <= pos < text.len(),
        begins_line(text, pos),
    ensures
        starts_with(line_at(text, pos), "MemAvailable:"@) ==> labels_line(
            text,
            "MemAvailable:"@,
            pos,
        ),
{
    crate::search::first_index_is_least(text, '\n', pos);
    let line = line_at(text, pos);
    crate::text_laws::occurrence_is_element_by_element(line, "MemAvailable:"@, 0);
    if starts_with(line, "MemAvailable:"@) {
        assert forall|k: int| 0 <= k < "MemAvailable:"@.len() implies
            #[trigger] "MemAvailable:"@[k] == text[pos + k] by {
            assert(line[k] == text[pos + k]);
        }
    }
}

/// A report in which no line begins with `MemAvailable:` tells nothing.
pub proof fn report_without_label_tells_nothing(text: Seq<char>)
    requires
        forall|i: int|
            0 <= i < text.len() ==> !#[trigger] labels_line(text, "MemAvailable:"@, i),
    ensures
        meminfo_kilobytes(text) is None,
{
    lemma_unlabelled(text, 0);
}

/// The scan reaches the first labelled line, behind whole lines without label.
proof fn lemma_reaches(before: Seq<char>, rest: Seq<char>, after: Seq<char>, pos: int)
    requires
        0 <= pos <= before.len(),
        before.len() > 0 ==> before.last() == '\n',
        begins_line(before, pos),
        forall|i: int|
            0 <= i < before.len() ==> !#[trigger] labels_line(before, "MemAvailable:"@, i),
        is_one_line(rest),
        after.len() > 0 ==> after[0] == '\n',
    ensures
        ({
            let text = before + "MemAvailable:"@ + rest + after;
            first_line_with(text, "MemAvailable:"@, pos) == Some(
                line_at(text, before.len() as int),
            )
        }),
    decreases before.len() - pos,
{
    reveal_strlit("MemAvailable:");
    let label = "MemAvailable:"@;
    let text = before + label + rest + after;
    let at = before.len() as int;
    if pos == at {
        lemma_line(before, rest, after);
        let line = line_at(text, at);
        assert(line.subrange(0, 13) =~= label);
    } else {
        crate::search::first_index_is_least(before, '\n', pos);
        crate::search::first_index_is_least(text, '\n', pos);
        let end = line_end(text, pos);
        assert(before[at - 1] == '\n');
        assert(text[at - 1] == '\n');
        assert(end <= at - 1);
        assert(text[end] == before[end]);
        assert(begins_line(text, pos)) by {
            if pos > 0 {
                assert(text[pos - 1] == before[pos - 1]);
            }
        }
        lemma_label(text, pos);
        if labels_line(text, label, pos) {
            if pos + 13 > end {
                assert(label[end - pos] == text[pos + (end - pos)]);
            }
            assert forall|k: int| 0 <= k < label.len() implies #[trigger] label[k] == before[pos
                + k] by {
                assert(label[k] == text[pos + k]);
            }
            assert(labels_line(before, label, pos));
        }
        assert(begins_line(before, end + 1));
        lemma_reaches(before, rest, after, end + 1);
    }
}

/// The labelled line is the label and the rest of the line, without a carriage
/// return at the end of a line that is not the last.
proof fn lemma_line(before: Seq<char>, rest: Seq<char>, after: Seq<char>)
    requires
        is_one_line(rest),
        after.len() > 0 ==> after[0] == '\n',
    ensures
        ({
            let text = before + "MemAvailable:"@ + rest + after;
            let line = line_at(text, before.len() as int);
            line == "MemAvailable:"@ + rest || (rest.len() > 0 && rest.last() == '\r' && line
                == "MemAvailable:"@ + rest.drop_last())
        }),
        "MemAvailable:"@.len() == 13,
{
    reveal_strlit("MemAvailable:");
    let label = "MemAvailable:"@;
    let text = before + label + rest + after;
    let at = before.len() as int;
    let end = at + 13 + rest.len();
    assert forall|j: int| at <= j < end implies text[j] != '\n' by {
        if j < at + 13 {
            assert(text[j] == label[j - at]);
        } else {
            assert(text[j] == rest[j - at - 13]);
        }
    }
    if after.len() > 0 {
        assert(text[end] == after[0]);
        crate::search::lemma_first_index_found(text, '\n', at, end);
    } else {
        crate::search::lemma_first_index_absent(text, '\n', at);
    }
    assert(line_end(text, at) == end);
    assert(text.subrange(at, end) =~= label + rest);
    if rest.len() > 0 {
        assert(text[end - 1] == rest.last());
        assert(text.subrange(at, end - 1) =~= label + rest.drop_last());
    } else {
        assert(text[end - 1] == label[12]);
    }
}

proof fn lemma_units(text: Seq<char>, k: nat)
    requires
        text.len() < 2 || text[text.len() - 2] != 'k' || text[text.len() - 1] != 'B',
    ensures
        without_suffix(text + units(k), "kB"@) == text,
    decreases k,
{
    reveal_strlit("kB");
    let whole = text + units(k);
    if k == 0 {
        assert(whole =~= text);
        if text.len() >= 2 {
            let tail = text.subrange(text.len() - 2, text.len() as int);
            assert(tail[0] == text[text.len() - 2] && tail[1] == text[text.len() - 1]);
        }
    } else {
        let less = (k - 1) as nat;
        let n = whole.len() as int;
        assert(whole[n - 2] == units(k)[2 * k - 2] && whole[n - 1] == units(k)[2 * k - 1]);
        assert(whole.subrange(n - 2, n) =~= "kB"@);
        assert(whole.subrange(0, n - 2) =~= text + units(less));
        lemma_units(text, less);
    }
}

/// What the rest of a labelled line tells, given by its parts.
proof fn lemma_rest(
    rest: Seq<char>,
    lead: Seq<char>,
    number: Seq<char>,
    gap: Seq<char>,
    k: nat,
    trail: Seq<char>,
)
    requires
        is_blank(lead),
        is_tight(number),
        number.len() > 0 || (k > 0 && gap.len() == 0),
        number.len() < 2 || number[number.len() - 2] != 'k' || number[number.len() - 1] != 'B',
        is_blank(gap),
        is_blank(trail),
        k == 0 ==> gap.len() == 0,
        rest == lead + number + gap + units(k) + trail,
    ensures
        line_kilobytes("MemAvailable:"@ + rest) == parsed_u64(number),
{
    reveal_strlit("MemAvailable:");
    let line = "MemAvailable:"@ + rest;
    assert(line.subrange(13, line.len() as int) =~= rest);
    let core = number + gap + units(k);
    if k > 0 {
        assert(core[core.len() - 1] == units(k)[2 * k - 1]);
        assert(core[0] == if number.len() > 0 {
            number[0]
        } else {
            units(k)[0]
        });
    } else {
        assert(core =~= number);
    }
    assert(is_tight(core));
    assert(rest =~= lead + core + trail);
    crate::text_laws::trimming_takes_off_outer_space(lead, core, trail);
    let front = number + gap;
    if gap.len() > 0 {
        assert(front[front.len() - 1] == gap[gap.len() - 1]);
        assert(is_space(gap[gap.len() - 1]));
    } else {
        assert(front =~= number);
    }
    lemma_units(front, k);
    assert(front + units(k) =~= core);
    assert(Seq::empty() + number + gap =~= front);
    crate::text_laws::trimming_takes_off_outer_space(Seq::empty(), number, gap);
}

/// The available memory is the number in the first line that begins with
/// `MemAvailable:`, whatever stands in the lines before and behind it, with
/// any whitespace around the number and the unit `kB` behind it any number of
/// times.
pub proof fn labelled_number_is_read(
    before: Seq<char>,
    lead: Seq<char>,
    number: Seq<char>,
    gap: Seq<char>,
    k: nat,
    trail: Seq<char>,
    after: Seq<char>,
)
    requires
        before.len() > 0 ==> before.last() == '\n',
        forall|i: int|
            0 <= i < before.len() ==> !#[trigger] labels_line(before, "MemAvailable:"@, i),
        is_blank(lead) && is_one_line(lead),
        is_tight(number) && is_one_line(number),
        number.len() > 0,
        number.len() < 2 || number[number.len() - 2] != 'k' || number[number.len() - 1] != 'B',
        is_blank(gap) && is_one_line(gap),
        is_blank(trail) && is_one_line(trail),
        after.len() > 0 ==> after[0] == '\n',
    ensures
        meminfo_kilobytes(
            before + "MemAvailable:"@ + (lead + number + gap + units(k) + trail) + after,
        ) == parsed_u64(number),
{
    if k == 0 {
        assert(lead + number + gap + units(k) + trail =~= lead + number + Seq::empty() + units(k)
            + (gap + trail));
        lemma_labelled(before, lead, number, Seq::empty(), k, gap + trail, after);
    } else {
        lemma_labelled(before, lead, number, gap, k, trail, after);
    }
}

/// A labelled line without a number tells nothing, and no later line is looked
/// at.
pub proof fn labelled_line_without_number_tells_nothing(
    before: Seq<char>,
    lead: Seq<char>,
    k: nat,
    trail: Seq<char>,
    after: Seq<char>,
)
    requires
        before.len() > 0 ==> before.last() == '\n',
        forall|i: int|
            0 <= i < before.len() ==> !#[trigger] labels_line(before, "MemAvailable:"@, i),
        is_blank(lead) && is_one_line(lead),
        is_blank(trail) && is_one_line(trail),
        after.len() > 0 ==> after[0] == '\n',
    ensures
        meminfo_kilobytes(before + "MemAvailable:"@ + (lead + units(k) + trail) + after) is None,
{
    crate::text_laws::one_plus_sign_is_ignored(Seq::empty());
    if k > 0 {
        let empty = Seq::<char>::empty();
        assert(lead + units(k) + trail =~= lead + empty + empty + units(k) + trail);
        lemma_labelled(before, lead, empty, empty, k, trail, after);
    } else {
        let rest = lead + trail;
        assert(lead + units(k) + trail =~= rest);
        assert(is_blank(rest) && is_one_line(rest));
        lemma_blank_line(before, rest, after);
    }
}

proof fn lemma_blank_line(before: Seq<char>, rest: Seq<char>, after: Seq<char>)
    requires
        before.len() > 0 ==> before.last() == '\n',
        forall|i: int|
            0 <= i < before.len() ==> !#[trigger] labels_line(before, "MemAvailable:"@, i),
        is_blank(rest) && is_one_line(rest),
        after.len() > 0 ==> after[0] == '\n',
    ensures
        meminfo_kilobytes(before + "MemAvailable:"@ + rest + after) == parsed_u64(Seq::empty()),
{
    lemma_reaches(before, rest, after, 0);
    lemma_line(before, rest, after);
    lemma_blank_rest(rest);
    if rest.len() > 0 {
        assert forall|i: int| 0 <= i < rest.drop_last().len() implies is_space(
            #[trigger] rest.drop_last()[i],
        ) by {
            assert(rest.drop_last()[i] == rest[i]);
        }
        lemma_blank_rest(rest.drop_last());
    }
}

proof fn lemma_blank_rest(rest: Seq<char>)
    requires
        is_blank(rest),
    ensures
        line_kilobytes("MemAvailable:"@ + rest) == parsed_u64(Seq::empty()),
{
    reveal_strlit("MemAvailable:");
    reveal_strlit("kB");
    let line = "MemAvailable:"@ + rest;
    let empty = Seq::<char>::empty();
    assert(line.subrange(13, line.len() as int) =~= rest);
    assert(rest + empty + empty =~= rest);
    crate::text_laws::trimming_takes_off_outer_space(rest, empty, empty);
    assert(without_suffix(empty, "kB"@) == empty);
    assert(empty + empty + empty =~= empty);
    crate::text_laws::trimming_takes_off_outer_space(empty, empty, empty);
}

proof fn lemma_labelled(
    before: Seq<char>,
    lead: Seq<char>,
    number: Seq<char>,
    gap: Seq<char>,
    k: nat,
    trail: Seq<char>,
    after: Seq<char>,
)
    requires
        before.len() > 0 ==> before.last() == '\n',
        forall|i: int|
            0 <= i < before.len() ==> !#[trigger] labels_line(before, "MemAvailable:"@, i),
        is_blank(lead) && is_one_line(lead),
        is_tight(number) && is_one_line(number),
        number.len() > 0 || (k > 0 && gap.len() == 0),
        number.len() < 2 || number[number.len() - 2] != 'k' || number[number.len() - 1] != 'B',
        is_blank(gap) && is_one_line(gap),
        is_blank(trail) && is_one_line(trail),
        k == 0 ==> gap.len() == 0,
        after.len() > 0 ==> after[0] == '\n',
    ensures
        meminfo_kilobytes(
            before + "MemAvailable:"@ + (lead + number + gap + units(k) + trail) + after,
        ) == parsed_u64(number),
{
    let rest = lead + number + gap + units(k) + trail;
    let text = before + "MemAvailable:"@ + rest + after;
    let a = lead.len();
    let b = a + number.len();
    let c = b + gap.len();
    let d = c + 2 * k;
    assert forall|i: int| 0 <= i < rest.len() implies #[trigger] rest[i] != '\n' by {
        if i < a {
            assert(rest[i] == lead[i]);
        } else if i < b {
            assert(rest[i] == number[i - a]);
        } else if i < c {
            assert(rest[i] == gap[i - b]);
        } else if i < d {
            assert(rest[i] == units(k)[i - c]);
        } else {
            assert(rest[i] == trail[i - d]);
        }
    }
    lemma_reaches(before, rest, after, 0);
    lemma_line(before, rest, after);
    lemma_rest(rest, lead, number, gap, k, trail);
    if rest.last() == '\r' {
        if trail.len() == 0 {
            if k > 0 {
                assert(rest.last() == units(k)[2 * k - 1]);
            } else {
                assert(rest.last() == number[number.len() - 1]);
                assert(is_space('\r'));
            }
        } else {
            let shorter = trail.drop_last();
            assert forall|i: int| 0 <= i < shorter.len() implies is_space(
                #[trigger] shorter[i],
            ) by {
                assert(shorter[i] == trail[i]);
            }
            assert(rest.drop_last() =~= lead + number + gap + units(k) + shorter);
            lemma_rest(rest.drop_last(), lead, number, gap, k, shorter);
        }
    }
}

/// Usable pages are the free ones and, where they are known, the speculative
/// and the purgeable ones.
pub proof fn usable_pages_add_up(free: u64, speculative: u64, purgeable: u64)
    ensures
        usable_pages(free, None, None) == free,
        usable_pages(free, Some(speculative), None) == free + speculative,
        usable_pages(free, None, Some(purgeable)) == free + purgeable,
        usable_pages(free, Some(speculative), Some(purgeable)) == free + speculative + purgeable,
{
}

/// The memory that pages tell is their number times their size: free pages and,
/// where they are known, speculative and purgeable ones. Without a page size or
/// a number of free pages there is none.
pub proof fn pages_tell_number_times_size(
    size: u64,
    free: u64,
    speculative: Option<u64>,
    purgeable: Option<u64>,
)
    ensures
        speculative is None && purgeable is None ==> bytes_of_pages(
            Some(size),
            Some(free),
            speculative,
            purgeable,
        ) == Some(free * size),
        speculative is Some && purgeable is Some ==> bytes_of_pages(
            Some(size),
            Some(free),
            speculative,
            purgeable,
        ) == Some((free + speculative->0 + purgeable->0) * size),
        speculative is Some && purgeable is None ==> bytes_of_pages(
            Some(size),
            Some(free),
            speculative,
            purgeable,
        ) == Some((free + speculative->0) * size),
        speculative is None && purgeable is Some ==> bytes_of_pages(
            Some(size),
            Some(free),
            speculative,
            purgeable,
        ) == Some((free + purgeable->0) * size),
        bytes_of_pages(None, Some(free), speculative, purgeable) is None,
        bytes_of_pages(Some(size), None, speculative, purgeable) is None,
{
}

/// Kilobytes of a report are 1024 bytes each, and a report that tells nothing
/// tells no bytes.
pub proof fn kilobytes_are_1024_bytes(text: Seq<char>)
    ensures
        meminfo_kilobytes(text) is None ==> meminfo_bytes(text) is None,
        meminfo_kilobytes(text) is Some ==> meminfo_bytes(text) == Some(
            1024 * meminfo_kilobytes(text)->0,
        ),
{
}

/// The printed number is read whatever whitespace stands around it.
pub proof fn space_around_a_printed_number_is_ignored(
    lead: Seq<char>,
    number: Seq<char>,
    trail: Seq<char>,
)
    requires
        is_blank(lead),
        is_tight(number),
        is_blank(trail),
    ensures
        printed_number(lead + number + trail) == parsed_u64(number),
{
    crate::text_laws::trimming_takes_off_outer_space(lead, number, trail);
}

/// Optional numbers are viewed whole.
pub proof fn optional_numbers_are_viewed_whole(r: Option<u64>)
    ensures
        number_view(r) is Some <==> r is Some,
        r matches Some(n) ==> number_view(r) == Some(n as int),
{
}

} // verus!
