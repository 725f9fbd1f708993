//! The list of archive paths that the crawler is given.

use vstd::prelude::*;

use crate::search::occurs_at;
use crate::text::chars_of;
use crate::text::is_space;
use crate::text::matches_at;
use crate::text::trim;
use crate::text::trimmed;

verus! {

/// The texts in a vector of strings.
pub open spec fn texts(strings: Seq<String>) -> Seq<Seq<char>> {
    Seq::new(strings.len(), |i: int| strings[i]@)
}

/// Whether the name of a path list says that it is compressed.
pub open spec fn names_gzip(name: Seq<char>) -> bool {
    name.len() >= 3 && occurs_at(name, ".gz"@, name.len() - 3)
}

/// Whether the name of a path list ends in `.gz`.
pub fn is_gzip_name(name: &str) -> (r: bool)
    ensures
        r == names_gzip(name@),
{
    proof {
        reveal_strlit(".gz");
    }
    let chars: Vec<char> = chars_of(name);
    let suffix: Vec<char> = chars_of(".gz");
    chars.len() >= 3 && matches_at(&chars, &suffix, chars.len() - 3)
}

/// The paths in the lines of a list: the lines without whitespace around them,
/// blank lines left out.
pub open spec fn listed_paths(lines: Seq<Seq<char>>) -> Seq<Seq<char>>
    decreases lines.len(),
{
    if lines.len() == 0 {
        Seq::empty()
    } else {
        let path = trimmed(lines.last());
        let before = listed_paths(lines.drop_last());
        if path.len() == 0 {
            before
        } else {
            before.push(path)
        }
    }
}

/// The paths in the lines of a list.
pub fn clean_paths(lines: Vec<String>) -> (r: Vec<String>)
    ensures
        texts(r@) == listed_paths(texts(lines@)),
{
    let mut paths: Vec<String> = Vec::new();
    let ghost all = texts(lines@);
    assert(all.take(0) =~= Seq::empty());
    assert(texts(paths@) =~= Seq::empty());
    for line in it: lines
        invariant
            it.seq() == lines@,
            all == texts(lines@),
            texts(paths@) == listed_paths(all.take(it.index() as int)),
    {
        proof {
            let k = it.index() as int;
            assert(all.take(k + 1).drop_last() =~= all.take(k));
            assert(all.take(k + 1).last() == line@);
        }
        let path: &str = trim(line.as_str());
        if !path.is_empty() {
            let ghost held = paths@;
            let owned: String = path.to_owned();
            paths.push(owned);
            assert(texts(paths@) =~= texts(held).push(path@));
        }
    }
    assert(all.take(all.len() as int) =~= all);
    paths
}

/// No listed path is blank, and none has whitespace around it.
pub proof fn listed_paths_are_clean(lines: Seq<Seq<char>>, i: int)
    requires
        0 <= i < listed_paths(lines).len(),
    ensures
        listed_paths(lines)[i].len() > 0,
        !is_space(listed_paths(lines)[i].first()),
        !is_space(listed_paths(lines)[i].last()),
    decreases lines.len(),
{
    if lines.len() > 0 {
        let before = listed_paths(lines.drop_last());
        if i < before.len() {
            listed_paths_are_clean(lines.drop_last(), i);
        } else {
            crate::text::trimmed_has_no_outer_space(lines.last());
        }
    }
}

/// A path list is a compressed one where its name ends in a dot, a `g` and a
/// `z`, and nowhere else.
pub proof fn compressed_lists_end_in_gz(name: Seq<char>)
    ensures
        names_gzip(name) <==> name.len() >= 3 && name[name.len() - 3] == '.' && name[name.len() - 2]
            == 'g' && name[name.len() - 1] == 'z',
{
    reveal_strlit(".gz");
    if name.len() >= 3 {
        let tail = name.subrange(name.len() - 3, name.len() as int);
        assert(tail[0] == name[name.len() - 3] && tail[1] == name[name.len() - 2] && tail[2]
            == name[name.len() - 1]);
        if tail[0] == '.' && tail[1] == 'g' && tail[2] == 'z' {
            assert(tail =~= ".gz"@);
        }
    }
}

/// The paths are the lines trimmed, those left out that are then empty, in
/// their order: nothing is lost and nothing is made up.
pub proof fn paths_are_the_trimmed_lines(lines: Seq<Seq<char>>)
    ensures
        listed_paths(lines) == lines.map_values(|line: Seq<char>| trimmed(line)).filter(
            |path: Seq<char>| path.len() > 0,
        ),
    decreases lines.len(),
{
    reveal(Seq::filter);
    let trims = lines.map_values(|line: Seq<char>| trimmed(line));
    if lines.len() > 0 {
        paths_are_the_trimmed_lines(lines.drop_last());
        assert(trims.drop_last() =~= lines.drop_last().map_values(
            |line: Seq<char>| trimmed(line),
        ));
        assert(trims.last() == trimmed(lines.last()));
    }
}

/// A line whose trimmed text is not empty has that text among the paths.
pub proof fn every_path_is_listed(lines: Seq<Seq<char>>, k: int)
    requires
        0 <= k < lines.len(),
        trimmed(lines[k]).len() > 0,
    ensures
        exists|i: int|
            0 <= i < listed_paths(lines).len() && #[trigger] listed_paths(lines)[i] == trimmed(
                lines[k],
            ),
{
    let front = lines.take(k);
    let rest = lines.skip(k + 1);
    assert(lines =~= front + seq![lines[k]] + rest);
    lists_may_come_in_parts(front + seq![lines[k]], rest);
    lists_may_come_in_parts(front, seq![lines[k]]);
    one_line_is_one_path_or_none(lines[k]);
    let i = listed_paths(front).len() as int;
    assert(listed_paths(lines)[i] == trimmed(lines[k]));
}

/// A list may be read in one part or in two: the paths of the whole are those
/// of the first part and then those of the second.
pub proof fn lists_may_come_in_parts(first: Seq<Seq<char>>, second: Seq<Seq<char>>)
    ensures
        listed_paths(first + second) == listed_paths(first) + listed_paths(second),
    decreases second.len(),
{
    if second.len() == 0 {
        assert(first + second =~= first);
        assert(listed_paths(first) + listed_paths(second) =~= listed_paths(first));
    } else {
        assert((first + second).drop_last() =~= first + second.drop_last());
        lists_may_come_in_parts(first, second.drop_last());
        assert(listed_paths(first + second) =~= listed_paths(first) + listed_paths(second));
    }
}

/// One line is one path, its trimmed text, or none where that is empty.
pub proof fn one_line_is_one_path_or_none(line: Seq<char>)
    ensures
        trimmed(line).len() > 0 ==> listed_paths(seq![line]) == seq![trimmed(line)],
        trimmed(line).len() == 0 ==> listed_paths(seq![line]) == Seq::<Seq<char>>::empty(),
{
    assert(seq![line].drop_last() =~= Seq::empty());
    assert(listed_paths(seq![line].drop_last()) == Seq::<Seq<char>>::empty());
    assert(Seq::empty().push(trimmed(line)) =~= seq![trimmed(line)]);
}

/// The texts of strings are viewed whole and in order.
pub proof fn strings_are_viewed_whole(strings: Seq<String>)
    ensures
        texts(strings).len() == strings.len(),
        forall|i: int| 0 <= i < strings.len() ==> #[trigger] texts(strings)[i] == strings[i]@,
{
}

} // verus!
