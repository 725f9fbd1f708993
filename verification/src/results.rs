//! The addresses found so far and where each was found.
//!
//! A result maps an address to its sources. Sources are told apart by page URL
//! and archive: the same address on the same page of the same archive is
//! recorded once.

use vstd::hash_map::StringHashMap;
use vstd::prelude::*;

verus! {

/// Where an address was found.
#[derive(Debug, Clone)]
pub struct OnionSource {
    /// The page on which it was found.
    pub url: String,
    /// When the page was fetched.
    pub date: String,
    /// The archive that holds the page.
    pub archive: String,
}

/// Where an address was found, as texts.
pub struct Source {
    pub url: Seq<char>,
    pub date: Seq<char>,
    pub archive: Seq<char>,
}

impl View for OnionSource {
    type V = Source;

    open spec fn view(&self) -> Source {
        Source { url: self.url@, date: self.date@, archive: self.archive@ }
    }
}

/// The sources of one address.
#[derive(Debug, Clone)]
pub struct OnionEntry {
    pub onion: String,
    pub sources: Vec<OnionSource>,
}

/// The sources in a vector.
pub open spec fn sources_view(sources: Seq<OnionSource>) -> Seq<Source> {
    Seq::new(sources.len(), |i: int| sources[i]@)
}

/// The sources of one address, as texts.
pub struct Entry {
    pub onion: Seq<char>,
    pub sources: Seq<Source>,
}

impl View for OnionEntry {
    type V = Entry;

    open spec fn view(&self) -> Entry {
        Entry { onion: self.onion@, sources: sources_view(self.sources@) }
    }
}

/// The entries in a vector.
pub open spec fn entries_view(entries: Seq<OnionEntry>) -> Seq<Entry> {
    Seq::new(entries.len(), |i: int| entries[i]@)
}

/// Whether two sources are the same page in the same archive.
pub open spec fn same_record(a: Source, b: Source) -> bool {
    a.url == b.url && a.archive == b.archive
}

/// Whether a page of an archive is among the sources.
pub open spec fn is_recorded(sources: Seq<Source>, source: Source) -> bool {
    exists|i: int| 0 <= i < sources.len() && same_record(#[trigger] sources[i], source)
}

/// Adds a source unless its page and archive are recorded already.
pub open spec fn with_source(sources: Seq<Source>, source: Source) -> Seq<Source> {
    if is_recorded(sources, source) {
        sources
    } else {
        sources.push(source)
    }
}

/// Adds sources one after the other.
pub open spec fn merged(sources: Seq<Source>, incoming: Seq<Source>) -> Seq<Source>
    decreases incoming.len(),
{
    if incoming.len() == 0 {
        sources
    } else {
        with_source(merged(sources, incoming.drop_last()), incoming.last())
    }
}

/// The sources of an address; none where the address is not known.
pub open spec fn sources_of(results: Map<Seq<char>, Seq<Source>>, onion: Seq<char>) -> Seq<Source> {
    if results.contains_key(onion) {
        results[onion]
    } else {
        Seq::empty()
    }
}

/// Adds the sources of one address.
pub open spec fn with_entry(
    results: Map<Seq<char>, Seq<Source>>,
    entry: Entry,
) -> Map<Seq<char>, Seq<Source>> {
    results.insert(entry.onion, merged(sources_of(results, entry.onion), entry.sources))
}

/// Adds the sources of many addresses.
pub open spec fn with_entries(
    results: Map<Seq<char>, Seq<Source>>,
    entries: Seq<Entry>,
) -> Map<Seq<char>, Seq<Source>>
    decreases entries.len(),
{
    if entries.len() == 0 {
        results
    } else {
        with_entry(with_entries(results, entries.drop_last()), entries.last())
    }
}

/// Sets the sources of one address as they are.
pub open spec fn with_restored(
    results: Map<Seq<char>, Seq<Source>>,
    entry: Entry,
) -> Map<Seq<char>, Seq<Source>> {
    results.insert(entry.onion, entry.sources)
}

/// How many addresses merging adds.
pub open spec fn addresses_added(
    results: Map<Seq<char>, Seq<Source>>,
    entries: Seq<Entry>,
) -> int {
    with_entries(results, entries).dom().len() - results.dom().len()
}

/// Whether the page and archive of `source` are among the sources.
fn contains_record(sources: &Vec<OnionSource>, source: &OnionSource) -> (r: bool)
    ensures
        r == is_recorded(sources_view(sources@), source@),
{
    let mut i: usize = 0;
    while i < sources.len()
        invariant
            i <= sources@.len(),
            forall|j: int|
                0 <= j < i ==> !same_record(#[trigger] sources_view(sources@)[j], source@),
        decreases sources@.len() - i,
    {
        if sources[i].url == source.url && sources[i].archive == source.archive {
            assert(same_record(sources_view(sources@)[i as int], source@));
            return true;
        }
        i += 1;
    }
    false
}

/// Adds to the sources of an address those that are not recorded yet.
pub fn merge_sources(sources: &mut Vec<OnionSource>, incoming: Vec<OnionSource>)
    ensures
        sources_view(final(sources)@) == merged(
            sources_view(old(sources)@),
            sources_view(incoming@),
        ),
{
    let ghost all = sources_view(incoming@);
    let ghost before = sources_view(sources@);
    assert(all.take(0) =~= Seq::empty());
    for source in it: incoming
        invariant
            it.seq() == incoming@,
            all == sources_view(incoming@),
            sources_view(sources@) == merged(before, all.take(it.index() as int)),
    {
        proof {
            let k = it.index() as int;
            assert(all.take(k + 1).drop_last() =~= all.take(k));
            assert(all.take(k + 1).last() == source@);
        }
        if !contains_record(sources, &source) {
            let ghost held = sources@;
            sources.push(source);
            assert(sources_view(sources@) =~= sources_view(held).push(source@));
        }
    }
    assert(all.take(all.len() as int) =~= all);
}

/// Addresses with their sources, in the order in which the addresses were
/// first met.
pub struct OnionResults {
    onions: Vec<String>,
    sources: Vec<Vec<OnionSource>>,
    index: StringHashMap<usize>,
}

impl View for OnionResults {
    type V = Map<Seq<char>, Seq<Source>>;

    closed spec fn view(&self) -> Map<Seq<char>, Seq<Source>> {
        Map::new(
            |onion: Seq<char>| self.index@.contains_key(onion),
            |onion: Seq<char>| sources_view(self.sources@[self.index@[onion] as int]@),
        )
    }
}

impl OnionResults {
    /// The index leads from each address to its place and from nowhere else.
    pub closed spec fn wf(&self) -> bool {
        &&& self.onions@.len() == self.sources@.len()
        &&& forall|onion: Seq<char>| #[trigger]
            self.index@.contains_key(onion) ==> self.index@[onion] < self.onions@.len()
                && self.onions@[self.index@[onion] as int]@ == onion
        &&& forall|i: int|
            0 <= i < self.onions@.len() ==> self.index@.contains_key(#[trigger] self.onions@[i]@)
                && self.index@[self.onions@[i]@] == i
    }

    /// The addresses in the order in which they were first met.
    pub closed spec fn order(&self) -> Seq<Seq<char>> {
        Seq::new(self.onions@.len(), |i: int| self.onions@[i]@)
    }

    /// No addresses.
    pub fn new() -> (r: OnionResults)
        ensures
            r.wf(),
            r@ == Map::<Seq<char>, Seq<Source>>::empty(),
            r.order() == Seq::<Seq<char>>::empty(),
    {
        let r = OnionResults {
            onions: Vec::new(),
            sources: Vec::new(),
            index: StringHashMap::new(),
        };
        assert(r@ =~= Map::<Seq<char>, Seq<Source>>::empty());
        r
    }

    /// The number of addresses.
    pub fn len(&self) -> (r: usize)
        ensures
            r == self@.len(),
    {
        assert(self@.dom() =~= self.index@.dom());
        self.index.len()
    }

    /// The place of an address, if it is known.
    fn place_of(&self, onion: &str) -> (r: Option<usize>)
        requires
            self.wf(),
        ensures
            match r {
                Some(at) => self.index@.contains_key(onion@) && self.index@[onion@] == at,
                None => !self.index@.contains_key(onion@),
            },
    {
        match self.index.get(onion) {
            Some(at) => Some(*at),
            None => None,
        }
    }

    /// Appends an address that is not known yet.
    fn append(&mut self, onion: String, sources: Vec<OnionSource>)
        requires
            old(self).wf(),
            !old(self)@.contains_key(onion@),
        ensures
            final(self).wf(),
            final(self)@ == old(self)@.insert(onion@, sources_view(sources@)),
            final(self).order() == old(self).order().push(onion@),
    {
        let at: usize = self.onions.len();
        self.index.insert(onion.clone(), at);
        self.onions.push(onion);
        self.sources.push(sources);
        assert(self@ =~= old(self)@.insert(onion@, sources_view(sources@)));
        assert(self.order() =~= old(self).order().push(onion@));
    }

    /// Sets the sources of an address as they are, in place of those that it
    /// had.
    pub fn restore_entry(&mut self, entry: OnionEntry)
        requires
            old(self).wf(),
        ensures
            final(self).wf(),
            final(self)@ == old(self)@.insert(entry@.onion, entry@.sources),
            final(self)@ == with_restored(old(self)@, entry@),
            final(self).order() == order_with(old(self).order(), old(self)@, entry@.onion),
    {
        match self.place_of(entry.onion.as_str()) {
            Some(at) => {
                self.sources[at] = entry.sources;
                assert(self@ =~= old(self)@.insert(entry@.onion, entry@.sources));
            },
            None => self.append(entry.onion, entry.sources),
        }
    }

    /// Merges the sources of one address.
    pub fn merge_entry(&mut self, entry: OnionEntry)
        requires
            old(self).wf(),
        ensures
            final(self).wf(),
            final(self)@ == with_entry(old(self)@, entry@),
            final(self).order() == order_with(old(self).order(), old(self)@, entry@.onion),
    {
        match self.place_of(entry.onion.as_str()) {
            Some(at) => {
                merge_sources(&mut self.sources[at], entry.sources);
                assert(self@ =~= with_entry(old(self)@, entry@));
            },
            None => {
                let mut fresh: Vec<OnionSource> = Vec::new();
                assert(sources_view(fresh@) =~= Seq::empty());
                merge_sources(&mut fresh, entry.sources);
                self.append(entry.onion, fresh);
            },
        }
    }

    /// Merges all that was found in one archive, and returns how many of the
    /// addresses are new.
    pub fn merge_archive(&mut self, found: Vec<OnionEntry>) -> (added: usize)
        requires
            old(self).wf(),
        ensures
            final(self).wf(),
            final(self)@ == with_entries(old(self)@, entries_view(found@)),
            added == final(self)@.len() - old(self)@.len(),
            added == addresses_added(old(self)@, entries_view(found@)),
    {
        let before: usize = self.len();
        let ghost start = self@;
        let ghost all = entries_view(found@);
        assert(all.take(0) =~= Seq::empty());
        proof {
            self.order_lists_every_address_once();
        }
        for entry in it: found
            invariant
                it.seq() == found@,
                all == entries_view(found@),
                self.wf(),
                self@ == with_entries(start, all.take(it.index() as int)),
                self@.dom().finite(),
                start.len() <= self@.len(),
        {
            proof {
                let k = it.index() as int;
                assert(all.take(k + 1).drop_last() =~= all.take(k));
                assert(all.take(k + 1).last() == entry@);
            }
            self.merge_entry(entry);
        }
        assert(all.take(all.len() as int) =~= all);
        self.len() - before
    }

    /// The address at a place and its sources.
    pub fn entry_at(&self, i: usize) -> (r: Option<(&String, &Vec<OnionSource>)>)
        requires
            self.wf(),
        ensures
            match r {
                Some(entry) => i < self.order().len() && entry.0@ == self.order()[i as int]
                    && self@.contains_key(entry.0@) && sources_view(entry.1@) == self@[entry.0@],
                None => i >= self.order().len(),
            },
    {
        if i < self.onions.len() {
            Some((&self.onions[i], &self.sources[i]))
        } else {
            None
        }
    }

    /// The places of a result list every address once and nothing else.
    pub proof fn order_lists_every_address_once(&self)
        requires
            self.wf(),
        ensures
            self.order().no_duplicates(),
            forall|onion: Seq<char>| #[trigger]
                self@.contains_key(onion) <==> self.order().contains(onion),
            self@.dom().finite(),
            self@.len() == self.order().len(),
    {
        assert forall|i: int, j: int|
            0 <= i < self.order().len() && 0 <= j < self.order().len() && i
                != j implies self.order()[i] != self.order()[j] by {
            assert(self.index@[self.onions@[i]@] == i);
            assert(self.index@[self.onions@[j]@] == j);
        }
        assert forall|onion: Seq<char>| #[trigger]
            self@.contains_key(onion) implies self.order().contains(onion) by {
            assert(self.index@.contains_key(onion));
            assert(self.order()[self.index@[onion] as int] == onion);
        }
        assert forall|onion: Seq<char>| self.order().contains(onion) implies #[trigger]
            self@.contains_key(onion) by {
            let i = choose|i: int| 0 <= i < self.order().len() && self.order()[i] == onion;
            assert(self.index@.contains_key(self.onions@[i]@));
        }
        assert(self@.dom() =~= self.order().to_set());
        self.order().unique_seq_to_set();
    }
}

/// The order of addresses after an address was met.
pub open spec fn order_with(
    order: Seq<Seq<char>>,
    results: Map<Seq<char>, Seq<Source>>,
    onion: Seq<char>,
) -> Seq<Seq<char>> {
    if results.contains_key(onion) {
        order
    } else {
        order.push(onion)
    }
}

/// Whether every page of every archive is recorded at most once.
pub open spec fn distinct(sources: Seq<Source>) -> bool {
    forall|i: int, j: int|
        0 <= i < j < sources.len() ==> !same_record(#[trigger] sources[i], #[trigger] sources[j])
}

/// Merging loses nothing: the sources that were there stay in place, and every
/// incoming page of an archive is recorded afterwards.
pub proof fn merging_records_everything(sources: Seq<Source>, incoming: Seq<Source>)
    ensures
        crate::search::starts_with(merged(sources, incoming), sources),
        forall|k: int|
            0 <= k < incoming.len() ==> is_recorded(
                merged(sources, incoming),
                #[trigger] incoming[k],
            ),
    decreases incoming.len(),
{
    let all = merged(sources, incoming);
    if incoming.len() == 0 {
        assert(all.subrange(0, sources.len() as int) =~= sources);
    } else {
        let front = incoming.drop_last();
        let before = merged(sources, front);
        merging_records_everything(sources, front);
        assert(all.subrange(0, sources.len() as int) =~= before.subrange(0, sources.len() as int));
        assert forall|k: int| 0 <= k < incoming.len() implies is_recorded(
            all,
            #[trigger] incoming[k],
        ) by {
            if k < front.len() {
                assert(is_recorded(before, front[k]));
                let i = choose|i: int|
                    0 <= i < before.len() && same_record(#[trigger] before[i], front[k]);
                assert(all[i] == before[i]);
            } else if is_recorded(before, incoming[k]) {
            } else {
                assert(same_record(all[before.len() as int], incoming[k]));
            }
        }
    }
}

/// Merging makes nothing up: every source afterwards was there before or came
/// in.
pub proof fn merging_adds_only_incoming(sources: Seq<Source>, incoming: Seq<Source>, i: int)
    requires
        0 <= i < merged(sources, incoming).len(),
    ensures
        sources.contains(merged(sources, incoming)[i]) || incoming.contains(
            merged(sources, incoming)[i],
        ),
    decreases incoming.len(),
{
    let all = merged(sources, incoming);
    if incoming.len() == 0 {
        assert(sources[i] == all[i]);
    } else {
        let front = incoming.drop_last();
        let before = merged(sources, front);
        if i < before.len() {
            merging_adds_only_incoming(sources, front, i);
            if front.contains(all[i]) {
                let k = choose|k: int| 0 <= k < front.len() && front[k] == all[i];
                assert(incoming[k] == all[i]);
            }
        } else {
            assert(incoming[incoming.len() - 1] == all[i]);
        }
    }
}

/// Merging keeps sources deduplicated: no page of an archive is recorded twice
/// where none was before.
pub proof fn merging_keeps_sources_distinct(sources: Seq<Source>, incoming: Seq<Source>)
    requires
        distinct(sources),
    ensures
        distinct(merged(sources, incoming)),
    decreases incoming.len(),
{
    if incoming.len() > 0 {
        merging_keeps_sources_distinct(sources, incoming.drop_last());
    }
}

/// Merging the same sources again changes nothing: an archive may be processed
/// twice.
pub proof fn merging_again_changes_nothing(sources: Seq<Source>, incoming: Seq<Source>)
    ensures
        merged(merged(sources, incoming), incoming) == merged(sources, incoming),
{
    merging_records_everything(sources, incoming);
    lemma_recorded_adds_nothing(merged(sources, incoming), incoming);
}

proof fn lemma_recorded_adds_nothing(sources: Seq<Source>, incoming: Seq<Source>)
    requires
        forall|k: int| 0 <= k < incoming.len() ==> is_recorded(sources, #[trigger] incoming[k]),
    ensures
        merged(sources, incoming) == sources,
    decreases incoming.len(),
{
    if incoming.len() > 0 {
        let front = incoming.drop_last();
        assert forall|k: int| 0 <= k < front.len() implies is_recorded(
            sources,
            #[trigger] front[k],
        ) by {
            assert(front[k] == incoming[k]);
        }
        lemma_recorded_adds_nothing(sources, front);
        assert(incoming.last() == incoming[incoming.len() - 1]);
    }
}

/// Whether every address has one entry.
pub open spec fn distinct_onions(entries: Seq<Entry>) -> bool {
    forall|i: int, j: int|
        0 <= i < j < entries.len() ==> (#[trigger] entries[i]).onion != (
        #[trigger] entries[j]).onion
}

/// The order in which the addresses of an archive are merged does not matter:
/// each is merged with what was known of it before, and no other address is
/// touched.
pub proof fn archive_order_does_not_matter(
    results: Map<Seq<char>, Seq<Source>>,
    entries: Seq<Entry>,
)
    requires
        distinct_onions(entries),
    ensures
        forall|k: int|
            0 <= k < entries.len() ==> with_entries(results, entries).contains_key(
                (#[trigger] entries[k]).onion,
            ) && with_entries(results, entries)[entries[k].onion] == merged(
                sources_of(results, entries[k].onion),
                entries[k].sources,
            ),
        forall|onion: Seq<char>|
            (forall|k: int| 0 <= k < entries.len() ==> (#[trigger] entries[k]).onion != onion) ==> {
                &&& with_entries(results, entries).contains_key(onion)
                    == #[trigger] results.contains_key(onion)
                &&& results.contains_key(onion) ==> with_entries(results, entries)[onion]
                    == results[onion]
            },
    decreases entries.len(),
{
    if entries.len() > 0 {
        let front = entries.drop_last();
        let last = entries.last();
        assert forall|i: int, j: int| 0 <= i < j < front.len() implies (#[trigger] front[i]).onion
            != (#[trigger] front[j]).onion by {
            assert(front[i] == entries[i] && front[j] == entries[j]);
        }
        archive_order_does_not_matter(results, front);
        assert forall|k: int| 0 <= k < front.len() implies (#[trigger] front[k]).onion
            != last.onion by {
            assert(entries[k].onion != entries[entries.len() - 1].onion);
        }
        assert(results.contains_key(last.onion) == with_entries(results, front).contains_key(
            last.onion,
        ));
        assert forall|k: int| 0 <= k < entries.len() implies with_entries(
            results,
            entries,
        ).contains_key((#[trigger] entries[k]).onion) && with_entries(
            results,
            entries,
        )[entries[k].onion] == merged(sources_of(results, entries[k].onion), entries[k].sources) by {
            if k < front.len() {
                assert(front[k] == entries[k]);
            }
        }
        assert forall|onion: Seq<char>|
            (forall|k: int| 0 <= k < entries.len() ==> (#[trigger] entries[k]).onion
                != onion) implies {
            &&& with_entries(results, entries).contains_key(onion)
                == #[trigger] results.contains_key(onion)
            &&& results.contains_key(onion) ==> with_entries(results, entries)[onion]
                == results[onion]
        } by {
            assert(entries[entries.len() - 1].onion != onion);
            assert forall|k: int| 0 <= k < front.len() implies (#[trigger] front[k]).onion
                != onion by {
                assert(front[k] == entries[k]);
            }
        }
    }
}

/// Merging an archive a second time changes nothing.
pub proof fn merging_archive_again_changes_nothing(
    results: Map<Seq<char>, Seq<Source>>,
    entries: Seq<Entry>,
)
    requires
        distinct_onions(entries),
    ensures
        with_entries(with_entries(results, entries), entries) == with_entries(results, entries),
{
    let once = with_entries(results, entries);
    let twice = with_entries(once, entries);
    archive_order_does_not_matter(results, entries);
    archive_order_does_not_matter(once, entries);
    assert forall|onion: Seq<char>|
        twice.contains_key(onion) == once.contains_key(onion) && (once.contains_key(onion)
            ==> twice[onion] == once[onion]) by {
        if exists|k: int| 0 <= k < entries.len() && (#[trigger] entries[k]).onion == onion {
            let k = choose|k: int| 0 <= k < entries.len() && (#[trigger] entries[k]).onion == onion;
            merging_again_changes_nothing(sources_of(results, onion), entries[k].sources);
        } else {
            assert(once.contains_key(onion) == twice.contains_key(onion));
        }
    }
    assert(twice =~= once);
}

/// Whether the sources of every address are deduplicated.
pub open spec fn all_distinct(results: Map<Seq<char>, Seq<Source>>) -> bool {
    forall|onion: Seq<char>| #[trigger] results.contains_key(onion) ==> distinct(results[onion])
}

/// Merging archives keeps the sources of every address deduplicated.
pub proof fn merging_archive_keeps_sources_distinct(
    results: Map<Seq<char>, Seq<Source>>,
    entries: Seq<Entry>,
)
    requires
        all_distinct(results),
    ensures
        all_distinct(with_entries(results, entries)),
    decreases entries.len(),
{
    if entries.len() > 0 {
        let before = with_entries(results, entries.drop_last());
        let entry = entries.last();
        merging_archive_keeps_sources_distinct(results, entries.drop_last());
        assert(distinct(sources_of(before, entry.onion)));
        merging_keeps_sources_distinct(sources_of(before, entry.onion), entry.sources);
    }
}

} // verus!
