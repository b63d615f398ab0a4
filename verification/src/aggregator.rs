//! The result aggregator: the single shared collection that accumulates the
//! matches of all workers.
//!
//! Appending never loses or duplicates entries, and the accumulated sequence
//! is read only once every worker has terminated.  The aggregator also
//! counts workers that stopped early on an error, so that an empty result
//! can be told apart from a result that is empty because the scan was
//! degraded.

use vstd::prelude::*;

verus! {

/// The finalized outcome of a scan: the accumulated matches together with
/// the number of workers that failed before exhausting their ranges.
pub struct ScanOutcome {
    /// Every match appended before the scan finished, in append order.
    pub matches: Vec<String>,
    /// How many workers stopped early on an error.  The matches are still
    /// valid when this is positive, but the set may be incomplete.
    pub failed_workers: usize,
}

impl ScanOutcome {
    /// Whether the result may be incomplete because a worker failed.  An
    /// empty match list with no failed worker really means the table and
    /// the reference set share nothing; an empty list with failed workers
    /// does not.
    pub fn is_degraded(&self) -> (r: bool)
        ensures
            r == (self.failed_workers > 0),
    {
        self.failed_workers > 0
    }
}

/// Accumulates chunk-local match lists from all workers under mutual
/// exclusion (the exclusion itself is the caller's lock; one aggregator
/// value is only ever appended to by one caller at a time).
pub struct ResultAggregator {
    matches: Vec<String>,
    failed_workers: usize,
}

impl ResultAggregator {
    /// The matches accumulated so far, in append order.
    pub closed spec fn matches_seq(&self) -> Seq<Seq<char>> {
        self.matches.deep_view()
    }

    /// How many workers reported a failure so far.
    pub closed spec fn failures(&self) -> int {
        self.failed_workers as int
    }

    /// A fresh, empty aggregator.
    pub fn new() -> (r: ResultAggregator)
        ensures
            r.matches_seq() == Seq::<Seq<char>>::empty(),
            r.failures() == 0,
    {
        let r = ResultAggregator { matches: Vec::new(), failed_workers: 0 };
        proof {
            assert(r.matches_seq() =~= Seq::<Seq<char>>::empty());
        }
        r
    }

    /// Appends one worker's chunk-local matches: everything already
    /// accumulated stays, and the new entries follow it, none lost and none
    /// repeated.
    pub fn append(&mut self, chunk_matches: Vec<String>)
        ensures
            final(self).matches_seq() == old(self).matches_seq() + chunk_matches.deep_view(),
            final(self).failures() == old(self).failures(),
    {
        let mut incoming = chunk_matches;
        let ghost old_dv = self.matches.deep_view();
        let ghost incoming_dv = incoming.deep_view();
        self.matches.append(&mut incoming);
        proof {
            assert(self.matches.deep_view() =~= old_dv + incoming_dv);
        }
    }

    /// How many failures have been recorded so far, for callers that must
    /// bound the count before recording another.
    pub fn failure_count(&self) -> (n: usize)
        ensures
            n as int == self.failures(),
    {
        self.failed_workers
    }

    /// Records that one worker stopped early on an error.
    pub fn record_failure(&mut self)
        requires
            old(self).failures() < usize::MAX,
        ensures
            final(self).failures() == old(self).failures() + 1,
            final(self).matches_seq() == old(self).matches_seq(),
    {
        self.failed_workers = self.failed_workers + 1;
    }

    /// Hands out the final merged collection.  To be called only after
    /// every worker has terminated: the contract of the scan drivers, not
    /// of the aggregator itself, says when that is.
    pub fn finalize(self) -> (r: ScanOutcome)
        ensures
            r.matches.deep_view() == self.matches_seq(),
            r.failed_workers as int == self.failures(),
    {
        ScanOutcome { matches: self.matches, failed_workers: self.failed_workers }
    }
}

} // verus!
