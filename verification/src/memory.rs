//! Available system memory, read off what the operating system reports.

use vstd::prelude::*;

use crate::number::parse_u64;
use crate::number::parsed_u64;
use crate::search::first_index;
use crate::search::occurs_at;
use crate::search::starts_with;
use crate::text::chars_of;
use crate::text::find_char_from;
use crate::text::matches_at;
use crate::text::trim_bounds;
use crate::text::trimmed;

verus! {

/// The end of the line that begins at `pos`: the next line feed, or the end of
/// the text.
pub open spec fn line_end(text: Seq<char>, pos: int) -> int {
    match first_index(text, '\n', pos) {
        Some(end) => end,
        None => text.len() as int,
    }
}

/// The line that begins at `pos`, without its line feed and without a carriage
/// return in front of that.
pub open spec fn line_at(text: Seq<char>, pos: int) -> Seq<char> {
    let end = line_end(text, pos);
    if pos < end < text.len() && text[end - 1] == '\r' {
        text.subrange(pos, end - 1)
    } else {
        text.subrange(pos, end)
    }
}

/// The first line, among those from `pos` on, that begins with `prefix`.
pub open spec fn first_line_with(text: Seq<char>, prefix: Seq<char>, pos: int) -> Option<Seq<char>>
    decreases text.len() + 1 - pos,
    when 0 <= pos
{
    if pos >= text.len() {
        None
    } else if starts_with(line_at(text, pos), prefix) {
        Some(line_at(text, pos))
    } else {
        proof {
            crate::search::first_index_is_least(text, '\n', pos);
        }
        first_line_with(text, prefix, line_end(text, pos) + 1)
    }
}

/// A text without any number of copies of `suffix` at its end.
pub open spec fn without_suffix(s: Seq<char>, suffix: Seq<char>) -> Seq<char>
    decreases s.len(),
{
    if 0 < suffix.len() <= s.len() && occurs_at(s, suffix, s.len() - suffix.len()) {
        without_suffix(s.subrange(0, s.len() - suffix.len()), suffix)
    } else {
        s
    }
}

/// The number in a line `MemAvailable:   8765432 kB`.
pub open spec fn line_kilobytes(line: Seq<char>) -> Option<u64> {
    let rest = line.subrange("MemAvailable:"@.len() as int, line.len() as int);
    parsed_u64(trimmed(without_suffix(trimmed(rest), "kB"@)))
}

/// The available memory in kB that the contents of `/proc/meminfo` tell: the
/// number in the first line that begins with `MemAvailable:`. `None` where
/// there is no such line, or where it holds no number.
pub open spec fn meminfo_kilobytes(meminfo: Seq<char>) -> Option<u64> {
    match first_line_with(meminfo, "MemAvailable:"@, 0) {
        Some(line) => line_kilobytes(line),
        None => None,
    }
}

/// The number in a line of which it is known that it begins with
/// `MemAvailable:`.
fn kilobytes_in_line(line: &Vec<char>) -> (r: Option<u64>)
    requires
        starts_with(line@, "MemAvailable:"@),
    ensures
        r == line_kilobytes(line@),
{
    proof {
        reveal_strlit("MemAvailable:");
        reveal_strlit("kB");
    }
    let n: usize = line.len();
    let rest: Vec<char> = sub_chars(line, 13, n);
    let (start, end): (usize, usize) = trim_bounds(&rest);
    let mut number: Vec<char> = sub_chars(&rest, start, end);
    let unit: Vec<char> = chars_of("kB");
    let ghost whole = number@;
    while number.len() >= 2 && matches_at(&number, &unit, number.len() - 2)
        invariant
            unit@ == "kB"@,
            "kB"@.len() == 2,
            without_suffix(number@, "kB"@) == without_suffix(whole, "kB"@),
        decreases number@.len(),
    {
        let keep: usize = number.len() - 2;
        number = sub_chars(&number, 0, keep);
    }
    let (from, to): (usize, usize) = trim_bounds(&number);
    parse_u64(&number, from, to)
}

/// A copy of the characters from `from` up to `to`.
fn sub_chars(chars: &Vec<char>, from: usize, to: usize) -> (r: Vec<char>)
    requires
        from <= to <= chars@.len(),
    ensures
        r@ == chars@.subrange(from as int, to as int),
{
    let mut copy: Vec<char> = Vec::new();
    let mut i: usize = from;
    while i < to
        invariant
            from <= i <= to <= chars@.len(),
            copy@ == chars@.subrange(from as int, i as int),
        decreases to - i,
    {
        copy.push(chars[i]);
        i += 1;
    }
    copy
}

/// Reads the available memory in kB off the contents of `/proc/meminfo`.
pub fn mem_available_kb(meminfo: &str) -> (r: Option<u64>)
    ensures
        r == meminfo_kilobytes(meminfo@),
{
    let chars: Vec<char> = chars_of(meminfo);
    let prefix: Vec<char> = chars_of("MemAvailable:");
    let n: usize = chars.len();
    let mut pos: usize = 0;
    while pos < n
        invariant
            n == chars@.len() == chars.len(),
            chars@ == meminfo@,
            prefix@ == "MemAvailable:"@,
            first_line_with(meminfo@, "MemAvailable:"@, pos as int) == first_line_with(
                meminfo@,
                "MemAvailable:"@,
                0,
            ),
        decreases n - pos,
    {
        proof {
            crate::search::first_index_is_least(chars@, '\n', pos as int);
        }
        let end: usize = match find_char_from(&chars, '\n', pos) {
            Some(end) => end,
            None => n,
        };
        let text_end: usize = if pos < end && end < n && chars[end - 1] == '\r' {
            end - 1
        } else {
            end
        };
        let line: Vec<char> = sub_chars(&chars, pos, text_end);
        if matches_at(&line, &prefix, 0) {
            return kilobytes_in_line(&line);
        }
        if end == n {
            assert(first_line_with(meminfo@, "MemAvailable:"@, n + 1) is None);
            return None;
        }
        pos = end + 1;
    }
    None
}

/// The available memory in bytes that the contents of `/proc/meminfo` tell.
pub open spec fn meminfo_bytes(meminfo: Seq<char>) -> Option<int> {
    match meminfo_kilobytes(meminfo) {
        Some(kb) => Some(kb * 1024),
        None => None,
    }
}

/// A machine number as a number.
pub open spec fn number_view(r: Option<u64>) -> Option<int> {
    match r {
        Some(n) => Some(n as int),
        None => None,
    }
}

/// Reads the available memory in bytes off the contents of `/proc/meminfo`.
pub fn get_available_memory(meminfo: &str) -> (r: Option<u64>)
    requires
        meminfo_kilobytes(meminfo@) matches Some(kb) ==> kb * 1024 <= u64::MAX,
    ensures
        match meminfo_kilobytes(meminfo@) {
            Some(kb) => r == Some((kb * 1024) as u64),
            None => r is None,
        },
        number_view(r) == meminfo_bytes(meminfo@),
{
    match mem_available_kb(meminfo) {
        Some(kb) => Some(kb * 1024),
        None => None,
    }
}

/// The number that `sysctl -n` prints.
pub open spec fn printed_number(output: Seq<char>) -> Option<u64> {
    parsed_u64(trimmed(output))
}

/// Reads the number off what `sysctl -n` prints.
pub fn sysctl_value(output: &str) -> (r: Option<u64>)
    ensures
        r == parsed_u64(trimmed(output@)),
        r == printed_number(output@),
{
    let chars: Vec<char> = chars_of(output);
    let (from, to): (usize, usize) = trim_bounds(&chars);
    parse_u64(&chars, from, to)
}

/// A count that may be missing, and is then none.
pub open spec fn count_or_zero(count: Option<u64>) -> u64 {
    match count {
        Some(n) => n,
        None => 0,
    }
}

/// Pages that can be handed out at once: free ones, and speculative and
/// purgeable ones, which the system gives up at once.
pub open spec fn usable_pages(free: u64, speculative: Option<u64>, purgeable: Option<u64>) -> int {
    free + count_or_zero(speculative) + count_or_zero(purgeable)
}

/// The size in bytes of the usable pages, where the page size and the number of
/// free pages are known.
pub open spec fn bytes_of_pages(
    page_size: Option<u64>,
    free: Option<u64>,
    speculative: Option<u64>,
    purgeable: Option<u64>,
) -> Option<int> {
    if page_size is Some && free is Some {
        Some(usable_pages(free->0, speculative, purgeable) * page_size->0)
    } else {
        None
    }
}

/// The available memory in bytes that page counts tell. The page size and the
/// number of free pages must be known; the other counts may be missing.
pub fn memory_from_pages(
    page_size: Option<u64>,
    free: Option<u64>,
    speculative: Option<u64>,
    purgeable: Option<u64>,
) -> (r: Option<u64>)
    requires
        page_size is Some && free is Some ==> usable_pages(free->0, speculative, purgeable)
            <= u64::MAX && usable_pages(free->0, speculative, purgeable) * page_size->0 <= u64::MAX,
    ensures
        if page_size is Some && free is Some {
            r == Some((usable_pages(free->0, speculative, purgeable) * page_size->0) as u64)
        } else {
            r is None
        },
        number_view(r) == bytes_of_pages(page_size, free, speculative, purgeable),
{
    let size: u64 = match page_size {
        Some(size) => size,
        None => {
            return None;
        },
    };
    let free_pages: u64 = match free {
        Some(pages) => pages,
        None => {
            return None;
        },
    };
    let speculative_pages: u64 = match speculative {
        Some(pages) => pages,
        None => 0,
    };
    let purgeable_pages: u64 = match purgeable {
        Some(pages) => pages,
        None => 0,
    };
    Some((free_pages + speculative_pages + purgeable_pages) * size)
}

} // verus!
