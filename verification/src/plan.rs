//! Which archives of the list are processed in a run.

use vstd::hash_set::StringHashSet;
use vstd::prelude::*;

verus! {

/// The names of archives that earlier runs have processed.
pub struct ProcessedSet {
    names: StringHashSet,
}

impl View for ProcessedSet {
    type V = Set<Seq<char>>;

    closed spec fn view(&self) -> Set<Seq<char>> {
        self.names@
    }
}

impl ProcessedSet {
    /// No archives.
    pub fn new() -> (r: ProcessedSet)
        ensures
            r@ == Set::<Seq<char>>::empty(),
    {
        ProcessedSet { names: StringHashSet::new() }
    }

    /// Adds an archive.
    pub fn insert(&mut self, name: String)
        ensures
            final(self)@ == old(self)@.insert(name@),
    {
        self.names.insert(name);
    }

    /// Whether an archive was processed.
    pub fn contains(&self, name: &str) -> (r: bool)
        ensures
            r == self@.contains(name@),
    {
        self.names.contains(name)
    }
}

/// What becomes of an entry of the list.
#[derive(Debug, Clone, Copy, PartialEq, Eq, Structural)]
pub enum Step {
    /// The entry names no archive.
    Invalid,
    /// The archive was processed before.
    Skip,
    /// The archive is to be processed.
    Take,
    /// The limit is reached; this archive and all entries behind it are left
    /// for another run.
    Stop,
}

/// The plan of a run.
#[derive(Debug)]
pub struct WorkPlan {
    /// What becomes of each entry, up to the one at which the run stops.
    pub steps: Vec<Step>,
    /// The places, in the list, of the archives to be processed.
    pub work: Vec<usize>,
    /// How many archives were processed before.
    pub skipped: usize,
}

/// The archive names in a vector; `None` stands for an entry that names none.
pub open spec fn names_view(names: Seq<Option<String>>) -> Seq<Option<Seq<char>>> {
    Seq::new(names.len(), |i: int| crate::url::string_view(names[i]))
}

/// Whether an entry names an archive that is still to be processed.
pub open spec fn is_pending(
    names: Seq<Option<Seq<char>>>,
    processed: Set<Seq<char>>,
    i: int,
) -> bool {
    names[i] matches Some(name) && !processed.contains(name)
}

/// How many of the first `i` entries are pending.
pub open spec fn pending_before(
    names: Seq<Option<Seq<char>>>,
    processed: Set<Seq<char>>,
    i: int,
) -> nat
    decreases i,
{
    if i <= 0 {
        0
    } else {
        pending_before(names, processed, i - 1) + if is_pending(names, processed, i - 1) {
            1nat
        } else {
            0nat
        }
    }
}

/// Whether `count` archives exhaust the limit.
pub open spec fn exhausts(limit: Option<usize>, count: nat) -> bool {
    limit matches Some(most) && count >= most
}

/// What becomes of entry `i`, where the run gets that far. Archives that were
/// processed before do not count toward the limit.
pub open spec fn step_at(
    names: Seq<Option<Seq<char>>>,
    processed: Set<Seq<char>>,
    limit: Option<usize>,
    i: int,
) -> Step {
    match names[i] {
        None => Step::Invalid,
        Some(name) => if processed.contains(name) {
            Step::Skip
        } else if exhausts(limit, pending_before(names, processed, i)) {
            Step::Stop
        } else {
            Step::Take
        },
    }
}

/// Whether `steps` is the plan for a list: each step is the one of its entry,
/// none but the last stops, and the plan ends at a stop or with the list.
pub open spec fn is_plan(
    names: Seq<Option<Seq<char>>>,
    processed: Set<Seq<char>>,
    limit: Option<usize>,
    steps: Seq<Step>,
) -> bool {
    &&& steps.len() <= names.len()
    &&& forall|i: int|
        0 <= i < steps.len() ==> #[trigger] steps[i] == step_at(names, processed, limit, i)
    &&& forall|i: int| 0 <= i < steps.len() - 1 ==> #[trigger] steps[i] != Step::Stop
    &&& steps.len() == names.len() || (steps.len() > 0 && steps.last() is Stop)
}

/// The places at which a step of the given kind stands.
pub open spec fn places(steps: Seq<Step>, kind: Step) -> Seq<int>
    decreases steps.len(),
{
    if steps.len() == 0 {
        Seq::empty()
    } else if steps.last() == kind {
        places(steps.drop_last(), kind).push(steps.len() - 1)
    } else {
        places(steps.drop_last(), kind)
    }
}

/// Machine indices as numbers.
pub open spec fn indices_view(indices: Seq<usize>) -> Seq<int> {
    Seq::new(indices.len(), |i: int| indices[i] as int)
}

/// Plans a run over a list of archives.
///
/// `names` holds, for each entry of the list, the name of its archive, or
/// `None` where the entry names none. At most `limit` archives are taken;
/// archives that were processed before are skipped and do not count.
pub fn plan_work(
    names: &Vec<Option<String>>,
    processed: &ProcessedSet,
    limit: Option<usize>,
) -> (r: WorkPlan)
    ensures
        is_plan(names_view(names@), processed@, limit, r.steps@),
        indices_view(r.work@) == places(r.steps@, Step::Take),
        r.skipped == places(r.steps@, Step::Skip).len(),
{
    let mut steps: Vec<Step> = Vec::new();
    let mut work: Vec<usize> = Vec::new();
    let mut skipped: usize = 0;
    let ghost list = names_view(names@);
    assert(indices_view(work@) =~= Seq::empty());
    let mut i: usize = 0;
    while i < names.len()
        invariant
            i <= names@.len() == names.len(),
            list == names_view(names@),
            steps@.len() == i,
            forall|j: int|
                0 <= j < i ==> #[trigger] steps@[j] == step_at(list, processed@, limit, j)
                    && steps@[j] != Step::Stop,
            indices_view(work@) == places(steps@, Step::Take),
            work@.len() == pending_before(list, processed@, i as int),
            skipped == places(steps@, Step::Skip).len(),
            skipped <= i,
        decreases names@.len() - i,
    {
        let step: Step = match &names[i] {
            None => Step::Invalid,
            Some(name) => {
                if processed.contains(name.as_str()) {
                    Step::Skip
                } else {
                    match limit {
                        Some(most) => {
                            if work.len() >= most {
                                Step::Stop
                            } else {
                                Step::Take
                            }
                        },
                        None => Step::Take,
                    }
                }
            },
        };
        assert(step == step_at(list, processed@, limit, i as int));
        let ghost before = steps@;
        steps.push(step);
        assert(steps@.drop_last() =~= before);
        match step {
            Step::Skip => {
                skipped += 1;
            },
            Step::Take => {
                let ghost held = work@;
                work.push(i);
                assert(indices_view(work@) =~= indices_view(held).push(i as int));
            },
            Step::Stop => {
                return WorkPlan { steps, work, skipped };
            },
            Step::Invalid => {},
        }
        i += 1;
    }
    WorkPlan { steps, work, skipped }
}

/// A run takes exactly the pending archives that come before the limit is
/// used up, none twice and none that was processed before.
pub proof fn run_takes_the_first_pending_archives(
    names: Seq<Option<Seq<char>>>,
    processed: Set<Seq<char>>,
    limit: Option<usize>,
    steps: Seq<Step>,
    i: int,
)
    requires
        is_plan(names, processed, limit, steps),
        0 <= i < names.len(),
    ensures
        (i < steps.len() && steps[i] is Take) <==> (is_pending(names, processed, i) && !exhausts(
            limit,
            pending_before(names, processed, i),
        )),
{
    if i >= steps.len() {
        let last = steps.len() - 1;
        assert(steps[last] == step_at(names, processed, limit, last));
        lemma_pending_grows(names, processed, last, i);
    }
}

proof fn lemma_pending_grows(
    names: Seq<Option<Seq<char>>>,
    processed: Set<Seq<char>>,
    i: int,
    j: int,
)
    requires
        0 <= i <= j,
    ensures
        pending_before(names, processed, i) <= pending_before(names, processed, j),
    decreases j - i,
{
    if i < j {
        lemma_pending_grows(names, processed, i, j - 1);
    }
}

/// A run never takes more archives than the limit allows.
pub proof fn run_respects_the_limit(
    names: Seq<Option<Seq<char>>>,
    processed: Set<Seq<char>>,
    limit: Option<usize>,
    steps: Seq<Step>,
)
    requires
        is_plan(names, processed, limit, steps),
    ensures
        limit matches Some(most) ==> places(steps, Step::Take).len() <= most,
{
    lemma_taken_within_limit(names, processed, limit, steps);
}

proof fn lemma_taken_within_limit(
    names: Seq<Option<Seq<char>>>,
    processed: Set<Seq<char>>,
    limit: Option<usize>,
    steps: Seq<Step>,
)
    requires
        steps.len() <= names.len(),
        forall|i: int|
            0 <= i < steps.len() ==> #[trigger] steps[i] == step_at(names, processed, limit, i),
    ensures
        places(steps, Step::Take).len() <= pending_before(names, processed, steps.len() as int),
        limit matches Some(most) ==> places(steps, Step::Take).len() <= most,
    decreases steps.len(),
{
    if steps.len() > 0 {
        let front = steps.drop_last();
        assert forall|i: int| 0 <= i < front.len() implies #[trigger] front[i] == step_at(
            names,
            processed,
            limit,
            i,
        ) by {
            assert(front[i] == steps[i]);
        }
        lemma_taken_within_limit(names, processed, limit, front);
        assert(steps[steps.len() - 1] == step_at(names, processed, limit, steps.len() - 1));
    }
}

/// Without a limit, a run goes through the whole list.
pub proof fn unlimited_run_covers_the_list(
    names: Seq<Option<Seq<char>>>,
    processed: Set<Seq<char>>,
    steps: Seq<Step>,
)
    requires
        is_plan(names, processed, None, steps),
    ensures
        steps.len() == names.len(),
{
    if steps.len() > 0 {
        let last = steps.len() - 1;
        assert(steps[last] == step_at(names, processed, None, last));
    }
}

} // verus!
