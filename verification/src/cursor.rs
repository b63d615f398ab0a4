//! Cursor allocation: how disjoint portions of the large table are handed
//! out to workers.
//!
//! Two strategies are offered, as alternatives.  `InterleaveCursor` is the
//! static interleave: with `n` workers, worker `i` owns chunk indices
//! `i, i + n, i + 2n, ...`, and each index maps to an offset/limit pair; no
//! state is shared.  `SharedCursor` is the shared monotonic counter: one
//! counter advances by the chunk size on every claim, handing out
//! consecutive identifier ranges, so retrieval can use range predicates on
//! the record identifier instead of deep offsets.  Either way, two claims
//! never overlap; the allocator itself never needs to know the table's
//! size, because a worker recognizes exhaustion from an empty retrieval.

use vstd::prelude::*;

verus! {

/// Per-worker chunk-index cursor for the static-interleave strategy.
pub struct InterleaveCursor {
    worker_id: usize,
    stride: usize,
    next_index: usize,
    count: Ghost<int>,
}

impl InterleaveCursor {
    /// The worker this cursor belongs to.
    pub closed spec fn worker_id(&self) -> int {
        self.worker_id as int
    }

    /// The number of workers the chunk indices are interleaved over.
    pub closed spec fn stride(&self) -> int {
        self.stride as int
    }

    /// The chunk index the next claim will return.
    pub closed spec fn next_index(&self) -> int {
        self.next_index as int
    }

    /// How many claims have been made so far.
    pub closed spec fn count(&self) -> int {
        self.count@
    }

    /// The cursor walks exactly the arithmetic progression
    /// `worker_id + k * stride`.
    pub closed spec fn wf(&self) -> bool {
        &&& 1 <= self.stride
        &&& self.worker_id < self.stride
        &&& 0 <= self.count@
        &&& self.next_index as int == self.worker_id + self.count@ * self.stride
    }

    /// A fresh cursor for one of `n_workers` workers.
    pub fn new(worker_id: usize, n_workers: usize) -> (r: InterleaveCursor)
        requires
            1 <= n_workers,
            worker_id < n_workers,
        ensures
            r.wf(),
            r.worker_id() == worker_id,
            r.stride() == n_workers,
            r.next_index() == worker_id,
            r.count() == 0,
    {
        InterleaveCursor { worker_id, stride: n_workers, next_index: worker_id, count: Ghost(0) }
    }

    /// The chunk index the next claim will return, for callers that must
    /// bound it before claiming.
    pub fn peek_index(&self) -> (idx: usize)
        ensures
            idx as int == self.next_index(),
    {
        self.next_index
    }

    /// Claims the next chunk index of this worker's progression.
    pub fn claim(&mut self) -> (idx: usize)
        requires
            old(self).wf(),
            old(self).next_index() + old(self).stride() <= usize::MAX,
        ensures
            final(self).wf(),
            idx as int == old(self).next_index(),
            idx as int == old(self).worker_id() + old(self).count() * old(self).stride(),
            final(self).next_index() == old(self).next_index() + old(self).stride(),
            final(self).count() == old(self).count() + 1,
            final(self).worker_id() == old(self).worker_id(),
            final(self).stride() == old(self).stride(),
    {
        let idx = self.next_index;
        self.next_index = self.next_index + self.stride;
        proof {
            let c = self.count@;
            self.count@ = c + 1;
            assert((c + 1) * self.stride == c * self.stride + self.stride) by (nonlinear_arith);
        }
        idx
    }
}

/// Two workers of the same pool never claim the same chunk index: their
/// progressions `w1 + k1 * n` and `w2 + k2 * n` are disjoint whenever the
/// workers differ.
pub proof fn lemma_interleave_claims_disjoint(w1: int, k1: int, w2: int, k2: int, n: int)
    requires
        0 <= w1 < n,
        0 <= w2 < n,
        w1 != w2,
        0 <= k1,
        0 <= k2,
    ensures
        w1 + k1 * n != w2 + k2 * n,
{
    if w1 + k1 * n == w2 + k2 * n {
        assert(w1 - w2 == (k2 - k1) * n) by (nonlinear_arith)
            requires
                w1 + k1 * n == w2 + k2 * n,
        ;
        assert((k2 - k1) * n <= -n || (k2 - k1) * n == 0 || (k2 - k1) * n >= n)
            by (nonlinear_arith)
            requires
                1 <= n,
        ;
    }
}

/// Distinct chunk indices map to disjoint offset ranges: the ranges
/// `[i * size, i * size + size)` and `[j * size, j * size + size)` cannot
/// meet when `i != j`.
pub proof fn lemma_chunk_offsets_disjoint(i: int, j: int, size: int)
    requires
        0 <= i < j,
        1 <= size,
    ensures
        i * size + size <= j * size,
{
    assert((i + 1) * size <= j * size) by (nonlinear_arith)
        requires
            i + 1 <= j,
            1 <= size,
    ;
    assert((i + 1) * size == i * size + size) by (nonlinear_arith);
}

/// Maps a chunk index to the offset of its first record, refusing indices
/// whose offset would not fit the machine.
pub fn chunk_offset(index: usize, chunk_size: usize) -> (r: Option<usize>)
    ensures
        match r {
            Some(off) => off == index * chunk_size,
            None => index * chunk_size > usize::MAX,
        },
{
    index.checked_mul(chunk_size)
}

/// Shared monotonically-advancing cursor: every claim takes the next
/// consecutive identifier range, so no two claims ever overlap, however the
/// claiming workers are interleaved.  A claimed range `(lo, hi]` covers the
/// record identifiers `lo + 1 ..= hi`, matching retrieval by
/// `id > lo AND id <= hi`.
pub struct SharedCursor {
    next_start: u64,
    claims: Ghost<Seq<(u64, u64)>>,
}

impl SharedCursor {
    /// The lower bound of the next range to be claimed.
    pub closed spec fn next_start(&self) -> int {
        self.next_start as int
    }

    /// Every range claimed so far, in claim order.
    pub closed spec fn claims(&self) -> Seq<(u64, u64)> {
        self.claims@
    }

    /// Claimed ranges are non-empty, lie below the frontier, and are
    /// mutually disjoint in claim order.
    pub closed spec fn wf(&self) -> bool {
        &&& forall|j: int|
            0 <= j < self.claims@.len()
                ==> (#[trigger] self.claims@[j]).0 < self.claims@[j].1
                    && self.claims@[j].1 <= self.next_start
        &&& forall|j: int, k: int|
            0 <= j < k < self.claims@.len()
                ==> (#[trigger] self.claims@[j]).1 <= (#[trigger] self.claims@[k]).0
    }

    /// A fresh cursor whose frontier sits before the first record.
    pub fn new() -> (r: SharedCursor)
        ensures
            r.wf(),
            r.next_start() == 0,
            r.claims() == Seq::<(u64, u64)>::empty(),
    {
        SharedCursor { next_start: 0, claims: Ghost(Seq::empty()) }
    }

    /// Claims the next range of `chunk_size` record identifiers and
    /// advances the frontier past it.
    pub fn claim(&mut self, chunk_size: u64) -> (r: (u64, u64))
        requires
            old(self).wf(),
            1 <= chunk_size,
            old(self).next_start() + chunk_size <= u64::MAX,
        ensures
            final(self).wf(),
            r.0 as int == old(self).next_start(),
            r.1 as int == old(self).next_start() + chunk_size,
            final(self).next_start() == r.1 as int,
            final(self).claims() == old(self).claims().push(r),
    {
        let lo = self.next_start;
        let hi = self.next_start + chunk_size;
        self.next_start = hi;
        proof {
            let c = self.claims@;
            self.claims@ = c.push((lo, hi));
        }
        (lo, hi)
    }

    /// The allocator's guarantee: no two claimed ranges overlap.  The
    /// earlier claim ends at or before the later one begins.
    pub proof fn lemma_claims_disjoint(&self, j: int, k: int)
        requires
            self.wf(),
            0 <= j < k < self.claims().len(),
        ensures
            self.claims()[j].1 <= self.claims()[k].0,
    {
    }
}

/// The offset/limit form of the whole partition, for a table whose largest
/// record identifier is known: the starts `0, chunk_size, 2 * chunk_size,
/// ...` of every chunk up to and including the one holding `max_rowid`.
pub fn chunk_starts(max_rowid: u64, chunk_size: u64) -> (starts: Vec<u64>)
    requires
        1 <= chunk_size,
    ensures
        starts@.len() >= 1,
        forall|i: int| 0 <= i < starts@.len() ==> #[trigger] starts@[i] == i * chunk_size,
        (starts@.len() - 1) * chunk_size <= max_rowid,
        max_rowid < starts@.len() * chunk_size,
{
    let mut starts: Vec<u64> = Vec::new();
    let mut start: u64 = 0;
    proof {
        assert(starts@.len() == 0);
        assert(0 * chunk_size == 0) by (nonlinear_arith);
    }
    loop
        invariant_except_break
            1 <= chunk_size,
            start == starts@.len() * chunk_size,
            start <= max_rowid,
            forall|i: int| 0 <= i < starts@.len() ==> #[trigger] starts@[i] == i * chunk_size,
        ensures
            starts@.len() >= 1,
            forall|i: int| 0 <= i < starts@.len() ==> #[trigger] starts@[i] == i * chunk_size,
            (starts@.len() - 1) * chunk_size <= max_rowid,
            max_rowid < starts@.len() * chunk_size,
        decreases max_rowid - start,
    {
        let ghost n = starts@.len() as int;
        starts.push(start);
        proof {
            assert(starts@.len() == n + 1);
            assert((n + 1) * chunk_size == n * chunk_size + chunk_size) by (nonlinear_arith);
        }
        if max_rowid - start < chunk_size {
            break;
        }
        start = start + chunk_size;
    }
    starts
}

} // verus!
