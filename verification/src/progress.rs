//! What a run has done so far.

use vstd::prelude::*;

verus! {

/// How the work on one archive ended.
#[derive(Debug, Clone, Copy, PartialEq, Eq, Structural)]
pub enum Outcome {
    /// The archive was parsed, and this many of its addresses were new.
    Parsed { new_onions: usize },
    /// The archive could not be fetched or parsed.
    Failed,
}

/// The counts of the summary.
#[derive(Debug, Clone, Copy, PartialEq, Eq, Structural)]
pub struct Tally {
    /// Archives that were parsed.
    pub processed: usize,
    /// Archives that earlier runs had processed.
    pub skipped: usize,
    /// Archives that could not be fetched or parsed.
    pub failed: usize,
    /// Addresses that were not known before.
    pub new_onions: usize,
}

impl Tally {
    /// Whether the counts can take one more outcome.
    pub open spec fn has_room_for(self, outcome: Outcome) -> bool {
        match outcome {
            Outcome::Parsed { new_onions } => self.processed < usize::MAX && self.new_onions
                + new_onions <= usize::MAX,
            Outcome::Failed => self.failed < usize::MAX,
        }
    }

    /// The counts after one more outcome.
    pub open spec fn after(self, outcome: Outcome) -> Tally {
        match outcome {
            Outcome::Parsed { new_onions } => Tally {
                processed: (self.processed + 1) as usize,
                skipped: self.skipped,
                failed: self.failed,
                new_onions: (self.new_onions + new_onions) as usize,
            },
            Outcome::Failed => Tally {
                processed: self.processed,
                skipped: self.skipped,
                failed: (self.failed + 1) as usize,
                new_onions: self.new_onions,
            },
        }
    }

    /// The counts of a run that has done nothing yet.
    pub fn new(skipped: usize) -> (r: Tally)
        ensures
            r == (Tally { processed: 0, skipped, failed: 0, new_onions: 0 }),
    {
        Tally { processed: 0, skipped, failed: 0, new_onions: 0 }
    }

    /// Counts the outcome of one archive.
    pub fn record(&mut self, outcome: Outcome)
        requires
            old(self).has_room_for(outcome),
        ensures
            *final(self) == old(self).after(outcome),
    {
        match outcome {
            Outcome::Parsed { new_onions } => {
                self.processed += 1;
                self.new_onions += new_onions;
            },
            Outcome::Failed => {
                self.failed += 1;
            },
        }
    }
}

/// Every archive counts once: either as processed or as failed.
pub proof fn every_outcome_counts_once(tally: Tally, outcome: Outcome)
    requires
        tally.has_room_for(outcome),
    ensures
        tally.after(outcome).processed + tally.after(outcome).failed == tally.processed
            + tally.failed + 1,
        tally.after(outcome).skipped == tally.skipped,
{
}

/// A parsed archive raises the processed count by one and the new addresses by
/// its own; a failed one raises the failed count by one. Nothing else changes.
pub proof fn outcomes_raise_their_counts(tally: Tally, outcome: Outcome)
    requires
        tally.has_room_for(outcome),
    ensures
        tally.after(outcome).skipped == tally.skipped,
        outcome is Failed ==> tally.after(outcome).failed == tally.failed + 1
            && tally.after(outcome).processed == tally.processed && tally.after(outcome).new_onions
            == tally.new_onions,
        outcome matches Outcome::Parsed { new_onions } ==> tally.after(outcome).failed
            == tally.failed && tally.after(outcome).processed == tally.processed + 1
            && tally.after(outcome).new_onions == tally.new_onions + new_onions,
{
}

/// The order in which archives finish does not matter for the counts.
pub proof fn order_of_outcomes_does_not_matter(tally: Tally, first: Outcome, second: Outcome)
    requires
        tally.has_room_for(first),
        tally.has_room_for(second),
        tally.after(first).has_room_for(second),
        tally.after(second).has_room_for(first),
    ensures
        tally.after(first).after(second) == tally.after(second).after(first),
{
}

/// Counts have room for an outcome unless one of them would pass what a machine
/// word holds.
pub proof fn counts_have_room_below_the_word_size(tally: Tally, outcome: Outcome)
    requires
        tally.processed < usize::MAX,
        tally.failed < usize::MAX,
        outcome matches Outcome::Parsed { new_onions } ==> tally.new_onions + new_onions
            <= usize::MAX,
    ensures
        tally.has_room_for(outcome),
{
}

} // verus!
