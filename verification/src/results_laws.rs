//! What merging keeps, adds and leaves alone, record by record.

use vstd::prelude::*;

use crate::results::addresses_added;
use crate::results::entries_view;
use crate::results::is_recorded;
use crate::results::merged;
use crate::results::order_with;
use crate::results::same_record;
use crate::results::sources_of;
use crate::results::sources_view;
use crate::results::with_entries;
use crate::results::with_entry;
use crate::results::with_restored;
use crate::results::with_source;
use crate::results::Entry;
use crate::results::OnionEntry;
use crate::results::OnionSource;
use crate::results::Source;

verus! {

/// The texts of records are those of their strings: nothing is left out.
pub proof fn records_are_viewed_whole(sources: Seq<OnionSource>, entries: Seq<OnionEntry>)
    ensures
        sources_view(sources).len() == sources.len(),
        forall|i: int|
            0 <= i < sources.len() ==> (#[trigger] sources_view(sources)[i]).url == sources[i].url@
                && sources_view(sources)[i].date == sources[i].date@
                && sources_view(sources)[i].archive == sources[i].archive@,
        entries_view(entries).len() == entries.len(),
        forall|i: int|
            0 <= i < entries.len() ==> (#[trigger] entries_view(entries)[i]).onion
                == entries[i].onion@ && entries_view(entries)[i].sources == sources_view(
                entries[i].sources@,
            ),
{
}

/// A single source is added behind the others, unless one of them has the same
/// page and the same archive: then nothing changes.
pub proof fn one_source_is_added_unless_recorded(sources: Seq<Source>, source: Source)
    ensures
        (exists|i: int|
            0 <= i < sources.len() && (#[trigger] sources[i]).url == source.url
                && sources[i].archive == source.archive) ==> merged(sources, seq![source])
            == sources,
        !(exists|i: int|
            0 <= i < sources.len() && (#[trigger] sources[i]).url == source.url
                && sources[i].archive == source.archive) ==> merged(sources, seq![source])
            == sources.push(source),
{
    assert(seq![source].drop_last() =~= Seq::empty());
    assert(merged(sources, seq![source].drop_last()) == sources);
    assert(merged(sources, seq![source]) == with_source(sources, source));
    if is_recorded(sources, source) {
        let i = choose|i: int| 0 <= i < sources.len() && same_record(#[trigger] sources[i], source);
        assert(sources[i].url == source.url && sources[i].archive == source.archive);
    }
    if exists|i: int|
        0 <= i < sources.len() && (#[trigger] sources[i]).url == source.url && sources[i].archive
            == source.archive {
        let i = choose|i: int|
            0 <= i < sources.len() && (#[trigger] sources[i]).url == source.url
                && sources[i].archive == source.archive;
        assert(same_record(sources[i], source));
    }
}

/// Sources may come in one list or in two: merging the one after the other is
/// merging both joined. Merging no sources changes nothing.
pub proof fn sources_may_come_in_parts(
    sources: Seq<Source>,
    first: Seq<Source>,
    second: Seq<Source>,
)
    ensures
        merged(sources, Seq::empty()) == sources,
        merged(sources, first + second) == merged(merged(sources, first), second),
    decreases second.len(),
{
    if second.len() == 0 {
        assert(first + second =~= first);
    } else {
        assert((first + second).drop_last() =~= first + second.drop_last());
        sources_may_come_in_parts(sources, first, second.drop_last());
    }
}

/// No source is lost: those that were there stay in place, and for every
/// incoming one there is a merged source with its page and its archive.
pub proof fn every_source_is_kept(sources: Seq<Source>, incoming: Seq<Source>)
    ensures
        sources.len() <= merged(sources, incoming).len(),
        forall|i: int|
            0 <= i < sources.len() ==> #[trigger] merged(sources, incoming)[i] == sources[i],
        forall|k: int|
            0 <= k < incoming.len() ==> exists|i: int|
                0 <= i < merged(sources, incoming).len() && (#[trigger] merged(
                    sources,
                    incoming,
                )[i]).url == (#[trigger] incoming[k]).url && merged(sources, incoming)[i].archive
                    == incoming[k].archive,
    decreases incoming.len(),
{
    let all = merged(sources, incoming);
    if incoming.len() > 0 {
        let front = incoming.drop_last();
        let before = merged(sources, front);
        every_source_is_kept(sources, front);
        assert(incoming =~= front + seq![incoming.last()]);
        sources_may_come_in_parts(sources, front, seq![incoming.last()]);
        one_source_is_added_unless_recorded(before, incoming.last());
        assert forall|i: int| 0 <= i < before.len() implies #[trigger] all[i] == before[i] by {}
        assert forall|k: int| 0 <= k < incoming.len() implies exists|i: int|
            0 <= i < all.len() && (#[trigger] all[i]).url == (#[trigger] incoming[k]).url
                && all[i].archive == incoming[k].archive by {
            if k < front.len() {
                assert(front[k] == incoming[k]);
                let i = choose|i: int|
                    0 <= i < before.len() && (#[trigger] before[i]).url == front[k].url
                        && before[i].archive == front[k].archive;
                assert(all[i] == before[i]);
            } else if all.len() > before.len() {
                assert(all[before.len() as int] == incoming[k]);
            } else {
                let i = choose|i: int|
                    0 <= i < before.len() && (#[trigger] before[i]).url == incoming.last().url
                        && before[i].archive == incoming.last().archive;
                assert(all[i] == before[i]);
            }
        }
    }
}

/// What is added is as it came in: every merged source behind those that were
/// there is one of the incoming, date and all, with a page and archive that no
/// earlier merged source has.
pub proof fn added_sources_are_new_and_incoming(
    sources: Seq<Source>,
    incoming: Seq<Source>,
    i: int,
)
    requires
        sources.len() <= i < merged(sources, incoming).len(),
    ensures
        exists|k: int|
            0 <= k < incoming.len() && #[trigger] incoming[k] == merged(sources, incoming)[i],
        forall|j: int|
            0 <= j < i ==> (#[trigger] merged(sources, incoming)[j]).url != merged(
                sources,
                incoming,
            )[i].url || merged(sources, incoming)[j].archive != merged(
                sources,
                incoming,
            )[i].archive,
    decreases incoming.len(),
{
    let all = merged(sources, incoming);
    if incoming.len() > 0 {
        let front = incoming.drop_last();
        let before = merged(sources, front);
        assert(incoming =~= front + seq![incoming.last()]);
        sources_may_come_in_parts(sources, front, seq![incoming.last()]);
        one_source_is_added_unless_recorded(before, incoming.last());
        if i < before.len() {
            added_sources_are_new_and_incoming(sources, front, i);
            let k = choose|k: int| 0 <= k < front.len() && #[trigger] front[k] == before[i];
            assert(incoming[k] == all[i]);
            assert forall|j: int| 0 <= j < i implies (#[trigger] all[j]).url != all[i].url
                || all[j].archive != all[i].archive by {
                assert(before[j] == all[j]);
            }
        } else {
            assert(incoming[incoming.len() - 1] == all[i]);
            assert forall|j: int| 0 <= j < i implies (#[trigger] all[j]).url != all[i].url
                || all[j].archive != all[i].archive by {
                assert(before[j] == all[j]);
            }
        }
    }
}

/// The sources that a result holds for an address; none where it has not met
/// the address.
pub open spec fn held(results: Map<Seq<char>, Seq<Source>>, onion: Seq<char>) -> Seq<Source> {
    if results.dom().contains(onion) {
        results[onion]
    } else {
        Seq::empty()
    }
}

/// One entry touches its own address only: that address is known afterwards,
/// with its sources merged, and every other address is as it was.
pub proof fn one_entry_touches_its_address_only(
    results: Map<Seq<char>, Seq<Source>>,
    entry: Entry,
)
    ensures
        with_entries(results, seq![entry]).dom() == results.dom().insert(entry.onion),
        with_entries(results, seq![entry])[entry.onion] == merged(
            held(results, entry.onion),
            entry.sources,
        ),
        forall|onion: Seq<char>|
            onion != entry.onion && results.dom().contains(onion) ==> #[trigger] with_entries(
                results,
                seq![entry],
            )[onion] == results[onion],
{
    assert(seq![entry].drop_last() =~= Seq::empty());
    assert(with_entries(results, seq![entry].drop_last()) == results);
    assert(with_entries(results, seq![entry]) == with_entry(results, entry));
    assert(sources_of(results, entry.onion) == held(results, entry.onion));
    assert(with_entry(results, entry).dom() =~= results.dom().insert(entry.onion));
}

/// Entries may come in one list or in two. Merging no entries changes nothing.
pub proof fn entries_may_come_in_parts(
    results: Map<Seq<char>, Seq<Source>>,
    first: Seq<Entry>,
    second: Seq<Entry>,
)
    ensures
        with_entries(results, Seq::empty()) == results,
        with_entries(results, first + second) == with_entries(
            with_entries(results, first),
            second,
        ),
    decreases second.len(),
{
    if second.len() == 0 {
        assert(first + second =~= first);
    } else {
        assert((first + second).drop_last() =~= first + second.drop_last());
        entries_may_come_in_parts(results, first, second.drop_last());
    }
}

/// After merging, the known addresses are those that were known and those that
/// came in.
pub proof fn known_addresses_add_up(
    results: Map<Seq<char>, Seq<Source>>,
    entries: Seq<Entry>,
    onion: Seq<char>,
)
    ensures
        with_entries(results, entries).dom().contains(onion) <==> results.dom().contains(onion)
            || exists|k: int| 0 <= k < entries.len() && (#[trigger] entries[k]).onion == onion,
    decreases entries.len(),
{
    if entries.len() > 0 {
        let front = entries.drop_last();
        known_addresses_add_up(results, front, onion);
        assert(entries =~= front + seq![entries.last()]);
        entries_may_come_in_parts(results, front, seq![entries.last()]);
        one_entry_touches_its_address_only(with_entries(results, front), entries.last());
        if exists|k: int| 0 <= k < front.len() && (#[trigger] front[k]).onion == onion {
            let k = choose|k: int| 0 <= k < front.len() && (#[trigger] front[k]).onion == onion;
            assert(entries[k].onion == onion);
        }
        if entries.last().onion == onion {
            assert(entries[entries.len() - 1].onion == onion);
        }
        if exists|k: int| 0 <= k < entries.len() && (#[trigger] entries[k]).onion == onion {
            let k = choose|k: int| 0 <= k < entries.len() && (#[trigger] entries[k]).onion == onion;
            if k < front.len() {
                assert(front[k].onion == onion);
            }
        }
    }
}

/// Nothing that was known is lost: the sources of an address stay in place.
pub proof fn known_sources_stay_in_place(
    results: Map<Seq<char>, Seq<Source>>,
    entries: Seq<Entry>,
    onion: Seq<char>,
    i: int,
)
    requires
        results.dom().contains(onion),
        0 <= i < results[onion].len(),
    ensures
        with_entries(results, entries).dom().contains(onion),
        i < with_entries(results, entries)[onion].len(),
        with_entries(results, entries)[onion][i] == results[onion][i],
    decreases entries.len(),
{
    if entries.len() > 0 {
        let front = entries.drop_last();
        let last = entries.last();
        let before = with_entries(results, front);
        known_sources_stay_in_place(results, front, onion, i);
        assert(entries =~= front + seq![last]);
        entries_may_come_in_parts(results, front, seq![last]);
        one_entry_touches_its_address_only(before, last);
        let all = with_entries(before, seq![last]);
        if onion == last.onion {
            every_source_is_kept(before[onion], last.sources);
            assert(merged(before[onion], last.sources)[i] == before[onion][i]);
            assert(all[onion] == merged(before[onion], last.sources));
        } else {
            assert(all[onion] == before[onion]);
        }
    }
}

/// Nothing that an archive brings is lost: for every source of every entry
/// there is a source of that address with the same page and archive.
pub proof fn every_finding_is_kept(
    results: Map<Seq<char>, Seq<Source>>,
    entries: Seq<Entry>,
    k: int,
    s: int,
)
    requires
        0 <= k < entries.len(),
        0 <= s < entries[k].sources.len(),
    ensures
        with_entries(results, entries).dom().contains(entries[k].onion),
        exists|i: int|
            0 <= i < with_entries(results, entries)[entries[k].onion].len() && (
            #[trigger] with_entries(results, entries)[entries[k].onion][i]).url
                == entries[k].sources[s].url && with_entries(
                results,
                entries,
            )[entries[k].onion][i].archive == entries[k].sources[s].archive,
{
    let onion = entries[k].onion;
    let source = entries[k].sources[s];
    let first = entries.take(k + 1);
    let rest = entries.skip(k + 1);
    let front = entries.take(k);
    let before = with_entries(results, front);
    let middle = with_entries(results, first);
    assert(entries =~= first + rest);
    assert(first =~= front + seq![entries[k]]);
    entries_may_come_in_parts(results, front, seq![entries[k]]);
    entries_may_come_in_parts(results, first, rest);
    one_entry_touches_its_address_only(before, entries[k]);
    let list = merged(held(before, onion), entries[k].sources);
    every_source_is_kept(held(before, onion), entries[k].sources);
    assert(entries[k].sources[s] == source);
    let i = choose|i: int|
        0 <= i < list.len() && (#[trigger] list[i]).url == source.url && list[i].archive
            == source.archive;
    assert(middle[onion] == list);
    known_sources_stay_in_place(middle, rest, onion, i);
    let all = with_entries(results, entries);
    assert(all[onion][i] == list[i]);
}

/// An address keeps its place in the order, and a new one comes last.
pub proof fn addresses_keep_their_places(
    order: Seq<Seq<char>>,
    results: Map<Seq<char>, Seq<Source>>,
    onion: Seq<char>,
)
    ensures
        results.dom().contains(onion) ==> order_with(order, results, onion) == order,
        !results.dom().contains(onion) ==> order_with(order, results, onion) == order + seq![onion],
{
    assert(order.push(onion) =~= order + seq![onion]);
}

/// A stored entry is taken as it is: its address is known afterwards with
/// exactly its sources, and every other address is as it was.
pub proof fn stored_entry_is_taken_as_it_is(
    results: Map<Seq<char>, Seq<Source>>,
    entry: Entry,
    onion: Seq<char>,
)
    ensures
        with_restored(results, entry).dom().contains(entry.onion),
        with_restored(results, entry)[entry.onion] == entry.sources,
        onion != entry.onion ==> with_restored(results, entry).dom().contains(onion)
            == results.dom().contains(onion),
        onion != entry.onion && results.dom().contains(onion) ==> with_restored(
            results,
            entry,
        )[onion] == results[onion],
{
}

/// The addresses of entries that a result does not know.
pub open spec fn unknown_addresses(
    results: Map<Seq<char>, Seq<Source>>,
    entries: Seq<Entry>,
) -> Set<Seq<char>> {
    Set::new(
        |onion: Seq<char>|
            !results.dom().contains(onion) && exists|k: int|
                0 <= k < entries.len() && (#[trigger] entries[k]).onion == onion,
    )
}

/// Merging adds as many addresses as were not known, each counted once however
/// many entries it has.
pub proof fn unknown_addresses_are_counted(
    results: Map<Seq<char>, Seq<Source>>,
    entries: Seq<Entry>,
)
    requires
        results.dom().finite(),
    ensures
        unknown_addresses(results, entries).finite(),
        addresses_added(results, entries) == unknown_addresses(results, entries).len(),
{
    let known = results.dom();
    let fresh = unknown_addresses(results, entries);
    let all = with_entries(results, entries).dom();
    lemma_unknown_finite(results, entries);
    assert forall|onion: Seq<char>| all.contains(onion) == (known + fresh).contains(onion) by {
        known_addresses_add_up(results, entries, onion);
    }
    assert(all =~= known + fresh);
    assert(known.disjoint(fresh));
    vstd::set_lib::lemma_set_disjoint_lens(known, fresh);
}

proof fn lemma_unknown_finite(results: Map<Seq<char>, Seq<Source>>, entries: Seq<Entry>)
    ensures
        unknown_addresses(results, entries).finite(),
    decreases entries.len(),
{
    let fresh = unknown_addresses(results, entries);
    if entries.len() == 0 {
        assert(fresh =~= Set::empty());
    } else {
        let front = entries.drop_last();
        let before = unknown_addresses(results, front);
        lemma_unknown_finite(results, front);
        assert forall|onion: Seq<char>| fresh.contains(onion) implies before.insert(
            entries.last().onion,
        ).contains(onion) by {
            let k = choose|k: int| 0 <= k < entries.len() && (#[trigger] entries[k]).onion == onion;
            if k < front.len() {
                assert(front[k].onion == onion);
            }
        }
        vstd::set_lib::lemma_set_subset_finite(before.insert(entries.last().onion), fresh);
    }
}

} // verus!
