//! The chunk worker: one unit of concurrent execution, together with its
//! termination detector.
//!
//! A worker repeatedly claims a chunk from its cursor, receives the
//! retrieved records, filters them against the shared reference set and
//! hands the chunk-local matches back for aggregation.  Each worker deduces
//! exhaustion independently: its first empty retrieval moves it from
//! `Running` to `Stopped`.  A failed retrieval moves it to `Failed` and
//! stops only this worker; its siblings continue unaffected.

use vstd::prelude::*;

use crate::cursor::InterleaveCursor;
use crate::errors::ScanError;
use crate::matching::{match_seq, process_single_chunk};
use crate::refset::ReferenceSet;

verus! {

/// The termination-detector state of one worker.
#[derive(Clone, Copy, PartialEq, Eq, Structural, Debug)]
pub enum WorkerStatus {
    /// The worker still claims and processes chunks.
    Running,
    /// The worker observed an empty retrieval: its range of the table is
    /// exhausted.
    Stopped,
    /// A retrieval failed; the worker stopped early and the overall result
    /// is degraded.
    Failed,
}

/// One chunk worker: its position in the interleaved chunk space and its
/// termination-detector state.
pub struct Worker {
    cursor: InterleaveCursor,
    status: WorkerStatus,
}

impl Worker {
    /// The worker's current state.
    pub closed spec fn status(&self) -> WorkerStatus {
        self.status
    }

    /// The chunk index the next claim will return.
    pub closed spec fn next_index(&self) -> int {
        self.cursor.next_index()
    }

    /// The worker's own residue in the interleaved chunk space.
    pub closed spec fn worker_id(&self) -> int {
        self.cursor.worker_id()
    }

    /// The worker-pool size the chunk indices are interleaved over.
    pub closed spec fn stride(&self) -> int {
        self.cursor.stride()
    }

    /// How many chunks this worker has claimed so far.
    pub closed spec fn count(&self) -> int {
        self.cursor.count()
    }

    /// The worker's cursor walks its own interleaved progression.
    pub closed spec fn wf(&self) -> bool {
        self.cursor.wf()
    }

    /// A fresh running worker, one of `n_workers`.
    pub fn new(worker_id: usize, n_workers: usize) -> (r: Worker)
        requires
            1 <= n_workers,
            worker_id < n_workers,
        ensures
            r.wf(),
            r.status() == WorkerStatus::Running,
            r.worker_id() == worker_id,
            r.stride() == n_workers,
            r.next_index() == worker_id,
            r.count() == 0,
    {
        Worker { cursor: InterleaveCursor::new(worker_id, n_workers), status: WorkerStatus::Running }
    }

    /// The chunk index the next claim will return, for callers that must
    /// bound it before claiming.
    pub fn peek_index(&self) -> (idx: usize)
        ensures
            idx as int == self.next_index(),
    {
        self.cursor.peek_index()
    }

    /// Whether the worker still claims chunks.
    pub fn is_running(&self) -> (r: bool)
        ensures
            r == (self.status() == WorkerStatus::Running),
    {
        match self.status {
            WorkerStatus::Running => true,
            WorkerStatus::Stopped => false,
            WorkerStatus::Failed => false,
        }
    }

    /// Claims the next chunk index of this worker's progression.
    pub fn claim(&mut self) -> (idx: usize)
        requires
            old(self).wf(),
            old(self).next_index() + old(self).stride() <= usize::MAX,
        ensures
            final(self).wf(),
            idx as int == old(self).next_index(),
            idx as int == old(self).worker_id() + old(self).count() * old(self).stride(),
            final(self).next_index() == old(self).next_index() + old(self).stride(),
            final(self).count() == old(self).count() + 1,
            final(self).worker_id() == old(self).worker_id(),
            final(self).stride() == old(self).stride(),
            final(self).status() == old(self).status(),
    {
        self.cursor.claim()
    }

    /// One step of the worker's loop after a retrieval: filter the
    /// retrieved records against the reference set and update the
    /// termination detector.  An empty retrieval stops the worker; a failed
    /// retrieval marks it failed; otherwise it keeps running and hands back
    /// exactly the chunk's matches.
    pub fn observe(
        &mut self,
        wallets: &ReferenceSet,
        retrieval: Result<&Vec<String>, ScanError>,
    ) -> (matches: Vec<String>)
        requires
            old(self).wf(),
            old(self).status() == WorkerStatus::Running,
            wallets.wf(),
        ensures
            final(self).wf(),
            final(self).next_index() == old(self).next_index(),
            final(self).worker_id() == old(self).worker_id(),
            final(self).stride() == old(self).stride(),
            final(self).count() == old(self).count(),
            match retrieval {
                Ok(rows) => {
                    &&& matches.deep_view() == match_seq(
                        rows.deep_view(),
                        wallets.key_set(),
                        wallets.policy(),
                    )
                    &&& final(self).status() == (if rows.deep_view().len() == 0 {
                        WorkerStatus::Stopped
                    } else {
                        WorkerStatus::Running
                    })
                },
                Err(_) => {
                    &&& matches.deep_view() == Seq::<Seq<char>>::empty()
                    &&& final(self).status() == WorkerStatus::Failed
                },
            },
    {
        match retrieval {
            Ok(rows) => {
                if rows.len() == 0 {
                    self.status = WorkerStatus::Stopped;
                    let empty: Vec<String> = Vec::new();
                    proof {
                        assert(empty.deep_view() =~= Seq::<Seq<char>>::empty());
                        assert(rows.deep_view() =~= Seq::<Seq<char>>::empty());
                        Seq::<Seq<char>>::empty().lemma_all_neg_filter_empty(
                            crate::matching::match_pred(wallets.key_set(), wallets.policy()),
                        );
                    }
                    empty
                } else {
                    process_single_chunk(rows, wallets)
                }
            },
            Err(_) => {
                self.status = WorkerStatus::Failed;
                let empty: Vec<String> = Vec::new();
                proof {
                    assert(empty.deep_view() =~= Seq::<Seq<char>>::empty());
                }
                empty
            },
        }
    }
}

} // verus!
