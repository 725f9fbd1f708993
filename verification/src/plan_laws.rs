//! Which archives a run takes, and how many, counted on the list itself.

use vstd::prelude::*;

use crate::plan::indices_view;
use crate::plan::is_pending;
use crate::plan::is_plan;
use crate::plan::names_view;
use crate::plan::pending_before;
use crate::plan::places;
use crate::plan::step_at;
use crate::plan::Step;

verus! {

/// The entries of a list that name an archive which was not processed before.
pub open spec fn pending(names: Seq<Option<Seq<char>>>, processed: Set<Seq<char>>) -> Set<int> {
    Set::new(
        |i: int|
            0 <= i < names.len() && names[i] is Some && !processed.contains(names[i]->Some_0),
    )
}

/// The names in a list are those of its strings, and the places of a plan are
/// its numbers: nothing is left out.
pub proof fn lists_are_viewed_whole(names: Seq<Option<String>>, indices: Seq<usize>)
    ensures
        names_view(names).len() == names.len(),
        forall|i: int|
            0 <= i < names.len() ==> match names[i] {
                Some(name) => #[trigger] names_view(names)[i] == Some(name@),
                None => names_view(names)[i] is None,
            },
        indices_view(indices).len() == indices.len(),
        forall|i: int| 0 <= i < indices.len() ==> #[trigger] indices_view(indices)[i] == indices[i],
{
}

/// The places of a kind of step are exactly where it stands, in rising order.
pub proof fn places_are_where_steps_stand(steps: Seq<Step>, kind: Step)
    ensures
        forall|i: int|
            #![trigger steps[i]]
            0 <= i < steps.len() && steps[i] == kind ==> places(steps, kind).contains(i),
        forall|k: int|
            0 <= k < places(steps, kind).len() ==> 0 <= #[trigger] places(steps, kind)[k]
                < steps.len() && steps[places(steps, kind)[k]] == kind,
        forall|j: int, k: int|
            0 <= j < k < places(steps, kind).len() ==> #[trigger] places(steps, kind)[j]
                < #[trigger] places(steps, kind)[k],
    decreases steps.len(),
{
    if steps.len() > 0 {
        let front = steps.drop_last();
        let before = places(front, kind);
        let all = places(steps, kind);
        places_are_where_steps_stand(front, kind);
        assert forall|i: int|
            #![trigger steps[i]]
            0 <= i < steps.len() && steps[i] == kind implies all.contains(i) by {
            if i < front.len() {
                assert(front[i] == kind);
                let k = choose|k: int| 0 <= k < before.len() && before[k] == i;
                assert(all[k] == i);
            } else {
                assert(all[before.len() as int] == i);
            }
        }
        assert forall|k: int| 0 <= k < all.len() implies 0 <= #[trigger] all[k] < steps.len()
            && steps[all[k]] == kind by {
            if k < before.len() {
                assert(all[k] == before[k]);
                assert(front[before[k]] == kind);
            }
        }
        assert forall|j: int, k: int| 0 <= j < k < all.len() implies #[trigger] all[j]
            < #[trigger] all[k] by {
            assert(all[j] == before[j]);
            if k < before.len() {
                assert(all[k] == before[k]);
            }
        }
    }
}

/// Each entry gets the step that it calls for: an entry without a name is
/// invalid, an archive that was processed before is skipped, and any other is
/// taken, up to the one at which the run stops.
pub proof fn each_entry_gets_its_step(
    names: Seq<Option<Seq<char>>>,
    processed: Set<Seq<char>>,
    limit: Option<usize>,
    steps: Seq<Step>,
    i: int,
)
    requires
        is_plan(names, processed, limit, steps),
        0 <= i < steps.len(),
    ensures
        steps[i] == Step::Invalid <==> names[i] is None,
        steps[i] == Step::Skip <==> names[i] is Some && processed.contains(names[i]->Some_0),
        steps[i] == Step::Take || steps[i] == Step::Stop <==> pending(names, processed).contains(i),
        steps[i] == Step::Stop ==> i == steps.len() - 1,
{
    assert(steps[i] == step_at(names, processed, limit, i));
}

proof fn lemma_count(names: Seq<Option<Seq<char>>>, processed: Set<Seq<char>>, i: int)
    requires
        0 <= i <= names.len(),
    ensures
        pending(names.take(i), processed).finite(),
        pending(names.take(i), processed).len() == pending_before(names, processed, i),
    decreases i,
{
    let now = pending(names.take(i), processed);
    if i == 0 {
        assert(now =~= Set::empty());
    } else {
        lemma_count(names, processed, i - 1);
        let before = pending(names.take(i - 1), processed);
        assert(names.take(i)[i - 1] == names[i - 1]);
        assert forall|j: int| 0 <= j < i - 1 implies names.take(i)[j] == names.take(i - 1)[j] by {}
        if is_pending(names, processed, i - 1) {
            assert(now =~= before.insert(i - 1));
            assert(!before.contains(i - 1));
        } else {
            assert(now =~= before);
        }
    }
}

proof fn lemma_all_taken(
    names: Seq<Option<Seq<char>>>,
    processed: Set<Seq<char>>,
    limit: Option<usize>,
    steps: Seq<Step>,
)
    requires
        steps.len() <= names.len(),
        forall|i: int|
            0 <= i < steps.len() ==> #[trigger] steps[i] == step_at(names, processed, limit, i)
                && steps[i] != Step::Stop,
    ensures
        places(steps, Step::Take).len() == pending_before(names, processed, steps.len() as int),
    decreases steps.len(),
{
    if steps.len() > 0 {
        let front = steps.drop_last();
        assert forall|i: int| 0 <= i < front.len() implies #[trigger] front[i] == step_at(
            names,
            processed,
            limit,
            i,
        ) && front[i] != Step::Stop by {
            assert(front[i] == steps[i]);
        }
        lemma_all_taken(names, processed, limit, front);
        let last = steps.len() - 1;
        assert(steps[last] == step_at(names, processed, limit, last));
    }
}

/// A run takes as many archives as it may: all that are pending, or as many as
/// the limit says where more are. It stops before the end of the list only
/// where exactly the limit has been taken and another archive is pending.
pub proof fn run_takes_as_many_as_it_may(
    names: Seq<Option<Seq<char>>>,
    processed: Set<Seq<char>>,
    limit: Option<usize>,
    steps: Seq<Step>,
)
    requires
        is_plan(names, processed, limit, steps),
    ensures
        pending(names, processed).finite(),
        limit is None ==> places(steps, Step::Take).len() == pending(names, processed).len(),
        limit matches Some(n) ==> places(steps, Step::Take).len() == if pending(
            names,
            processed,
        ).len() <= n {
            pending(names, processed).len()
        } else {
            n as nat
        },
        (steps.len() < names.len() || (steps.len() > 0 && steps.last() == Step::Stop)) ==> (
        limit matches Some(n) && places(steps, Step::Take).len() == n && pending(
            names,
            processed,
        ).contains(steps.len() - 1)),
{
    let n = names.len() as int;
    lemma_count(names, processed, n);
    assert(names.take(n) =~= names);
    crate::plan::run_respects_the_limit(names, processed, limit, steps);
    if steps.len() > 0 && steps.last() == Step::Stop {
        let last = steps.len() - 1;
        let front = steps.drop_last();
        assert forall|i: int| 0 <= i < front.len() implies #[trigger] front[i] == step_at(
            names,
            processed,
            limit,
            i,
        ) && front[i] != Step::Stop by {
            assert(front[i] == steps[i]);
        }
        lemma_all_taken(names, processed, limit, front);
        assert(steps[last] == step_at(names, processed, limit, last));
        lemma_more_pending(names, processed, last, n);
    } else {
        assert forall|i: int| 0 <= i < steps.len() implies #[trigger] steps[i] == step_at(
            names,
            processed,
            limit,
            i,
        ) && steps[i] != Step::Stop by {
            if i == steps.len() - 1 {
                assert(steps[i] == steps.last());
            }
        }
        lemma_all_taken(names, processed, limit, steps);
    }
}

proof fn lemma_more_pending(
    names: Seq<Option<Seq<char>>>,
    processed: Set<Seq<char>>,
    i: int,
    j: int,
)
    requires
        0 <= i < j,
        is_pending(names, processed, i),
    ensures
        pending_before(names, processed, i) + 1 <= pending_before(names, processed, j),
    decreases j - i,
{
    if i + 1 < j {
        lemma_more_pending(names, processed, i, j - 1);
    }
}

/// Archives are taken in the order of the list: none is passed over for a later
/// one.
pub proof fn archives_are_taken_in_order(
    names: Seq<Option<Seq<char>>>,
    processed: Set<Seq<char>>,
    limit: Option<usize>,
    steps: Seq<Step>,
    earlier: int,
    later: int,
)
    requires
        is_plan(names, processed, limit, steps),
        pending(names, processed).contains(earlier),
        earlier < later,
        places(steps, Step::Take).contains(later),
    ensures
        places(steps, Step::Take).contains(earlier),
{
    places_are_where_steps_stand(steps, Step::Take);
    let k = choose|k: int|
        0 <= k < places(steps, Step::Take).len() && places(steps, Step::Take)[k] == later;
    assert(places(steps, Step::Take)[k] == later);
    each_entry_gets_its_step(names, processed, limit, steps, earlier);
    assert(steps[earlier] == Step::Take);
}

} // verus!
