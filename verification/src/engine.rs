//! The scan drivers: how a partitioned table is walked, filtered and
//! aggregated into one result.
//!
//! `process_all_chunks_parallel` walks a complete partition front to back,
//! as the shared-cursor strategy produces it: every chunk is processed,
//! empty chunks included, so gaps in the identifier space cannot end a scan
//! early.  `process_all_chunks_streaming` drives a pool of workers over the
//! static-interleave strategy: worker `i` owns chunk indices `i, i + n,
//! i + 2n, ...` and recognizes exhaustion from its own first empty
//! retrieval.  The workers' turns are scheduled fairly, one claim per
//! worker per round; under that schedule the matches arrive in source
//! order, and the aggregate is the same match set whatever the worker
//! count.  Both drivers promise the same result: the match set of the
//! whole table, as `match_seq` defines it.

use vstd::prelude::*;

use crate::aggregator::{ResultAggregator, ScanOutcome};
use crate::matching::{filter_chunk, match_pred, match_seq};
use crate::normalize::NormalizationPolicy;
use crate::refset::ReferenceSet;
use crate::worker::{Worker, WorkerStatus};
use vstd::math::min;

verus! {

/// Default number of records retrieved per chunk.
pub const CHUNK_SIZE: usize = 50000;

/// Default size of the fixed worker pool.
pub const MAX_THREADS: usize = 4;

/// The whole table described by a partition: its chunks laid end to end.
pub open spec fn table_of(chunks: Seq<Seq<Seq<char>>>) -> Seq<Seq<char>> {
    chunks.flatten()
}

/// Processing one more chunk extends the match set of the processed prefix
/// by exactly that chunk's matches.
proof fn lemma_match_take_step(
    chunks: Seq<Seq<Seq<char>>>,
    refs: Set<Seq<char>>,
    policy: NormalizationPolicy,
    i: int,
)
    requires
        0 <= i < chunks.len(),
    ensures
        match_seq(chunks.take(i + 1).flatten(), refs, policy)
            == match_seq(chunks.take(i).flatten(), refs, policy)
                + match_seq(chunks[i], refs, policy),
{
    assert(chunks.take(i + 1) =~= chunks.take(i).push(chunks[i]));
    chunks.take(i).lemma_flatten_push(chunks[i]);
    Seq::filter_distributes_over_add(
        chunks.take(i).flatten(),
        chunks[i],
        match_pred(refs, policy),
    );
}

/// Taking one chunk out of a partition takes exactly its rows out of the
/// flattened table, as multisets.
proof fn lemma_flatten_remove<A>(ss: Seq<Seq<A>>, i: int)
    requires
        0 <= i < ss.len(),
    ensures
        ss.flatten().to_multiset() == ss.remove(i).flatten().to_multiset().add(
            ss[i].to_multiset(),
        ),
{
    broadcast use vstd::multiset::group_multiset_axioms;
    broadcast use vstd::seq_lib::lemma_multiset_commutative;

    let front = ss.take(i);
    let back = ss.skip(i + 1);
    assert(ss =~= front + seq![ss[i]] + back);
    assert(ss.remove(i) =~= front + back);
    vstd::seq_lib::lemma_flatten_concat(front + seq![ss[i]], back);
    vstd::seq_lib::lemma_flatten_concat(front, seq![ss[i]]);
    vstd::seq_lib::lemma_flatten_concat(front, back);
    seq![ss[i]].lemma_flatten_singleton();
    assert(ss.flatten().to_multiset() =~= ss.remove(i).flatten().to_multiset().add(
        ss[i].to_multiset(),
    ));
}

/// Two partitions made of the same chunks, in any order, flatten to tables
/// that hold the same rows the same number of times.
proof fn lemma_flatten_multiset_permutation<A>(a: Seq<Seq<A>>, b: Seq<Seq<A>>)
    requires
        a.to_multiset() == b.to_multiset(),
    ensures
        a.flatten().to_multiset() == b.flatten().to_multiset(),
    decreases a.len(),
{
    broadcast use vstd::multiset::group_multiset_axioms;
    broadcast use vstd::seq_lib::group_to_multiset_ensures;

    if a.len() == 0 {
        assert(a.to_multiset().len() == a.len());
        assert(b.to_multiset().len() == b.len());
        assert(b.len() == 0);
        assert(a.flatten() =~= b.flatten());
    } else {
        let x = a.last();
        let rest = a.drop_last();
        assert(a =~= rest.push(x));
        assert(a.to_multiset() == rest.to_multiset().insert(x));
        assert(b.to_multiset().count(x) > 0);
        assert(b.contains(x));
        let j = choose|j: int| 0 <= j < b.len() && b[j] == x;
        assert(b.remove(j).to_multiset() == b.to_multiset().remove(x));
        assert(rest.to_multiset() =~= b.remove(j).to_multiset());
        lemma_flatten_multiset_permutation(rest, b.remove(j));
        rest.lemma_flatten_push(x);
        rest.flatten().to_multiset_ensures();
        vstd::seq_lib::lemma_multiset_commutative(rest.flatten(), x);
        lemma_flatten_remove(b, j);
    }
}

/// Partition-order independence at the chunk level: two partitions made of
/// the same chunks — however the cursor-allocation strategy and the worker
/// interleaving ordered them — describe tables with the same match set, as
/// a multiset, ignoring output order.
pub proof fn lemma_chunk_order_independence(
    a: Seq<Seq<Seq<char>>>,
    b: Seq<Seq<Seq<char>>>,
    refs: Set<Seq<char>>,
    policy: NormalizationPolicy,
)
    requires
        a.to_multiset() == b.to_multiset(),
    ensures
        match_seq(table_of(a), refs, policy).to_multiset() == match_seq(
            table_of(b),
            refs,
            policy,
        ).to_multiset(),
{
    lemma_flatten_multiset_permutation(a, b);
    crate::matching::lemma_partition_order_independence(a.flatten(), b.flatten(), refs, policy);
}

proof fn lemma_match_empty(refs: Set<Seq<char>>, policy: NormalizationPolicy)
    ensures
        match_seq(Seq::<Seq<char>>::empty(), refs, policy) == Seq::<Seq<char>>::empty(),
{
    Seq::<Seq<char>>::empty().lemma_all_neg_filter_empty(match_pred(refs, policy));
    assert(match_seq(Seq::<Seq<char>>::empty(), refs, policy) =~= Seq::<Seq<char>>::empty());
}

/// Scans a complete partition of the large table front to back: every
/// chunk is filtered against the reference set and the chunk-local matches
/// are appended, in order, to one aggregator.  The result is exactly the
/// match set of the whole table, in source order.  Empty chunks — gaps in
/// the identifier space — contribute nothing and end nothing.
pub fn process_all_chunks_parallel(
    wallets: &ReferenceSet,
    chunks: &Vec<Vec<String>>,
) -> (r: Vec<String>)
    requires
        wallets.wf(),
    ensures
        r.deep_view() == match_seq(
            table_of(chunks.deep_view()),
            wallets.key_set(),
            wallets.policy(),
        ),
{
    let ghost refs = wallets.key_set();
    let ghost policy = wallets.policy();
    let n = chunks.len();
    let mut agg = ResultAggregator::new();
    proof {
        assert(chunks.deep_view().take(0) =~= Seq::<Seq<Seq<char>>>::empty());
        lemma_match_empty(refs, policy);
    }
    let mut i: usize = 0;
    while i < n
        invariant
            i <= n,
            n == chunks@.len(),
            wallets.wf(),
            refs == wallets.key_set(),
            policy == wallets.policy(),
            agg.matches_seq() == match_seq(
                chunks.deep_view().take(i as int).flatten(),
                refs,
                policy,
            ),
        decreases n - i,
    {
        let chunk_matches = filter_chunk(&chunks[i], wallets);
        agg.append(chunk_matches);
        proof {
            lemma_match_take_step(chunks.deep_view(), refs, policy, i as int);
        }
        i = i + 1;
    }
    proof {
        assert(chunks.deep_view().take(n as int) =~= chunks.deep_view());
    }
    agg.finalize().matches
}

fn any_worker_running(workers: &Vec<Worker>) -> (r: bool)
    ensures
        r == exists|j: int|
            0 <= j < workers@.len() && (#[trigger] workers@[j]).status() == WorkerStatus::Running,
{
    let n = workers.len();
    let mut j: usize = 0;
    while j < n
        invariant
            j <= n,
            n == workers@.len(),
            forall|t: int|
                0 <= t < j ==> (#[trigger] workers@[t]).status() != WorkerStatus::Running,
        decreases n - j,
    {
        if workers[j].is_running() {
            return true;
        }
        j = j + 1;
    }
    false
}

/// Drives a fixed pool of `n_workers` workers over the static-interleave
/// partition of `chunks` until every worker's termination detector has
/// fired, aggregating all chunk-local matches into one outcome.
///
/// Worker `i` claims chunk indices `i, i + n, i + 2n, ...` from its own
/// cursor and stops at its first empty retrieval — here, the first claimed
/// index at or past the end of the partition.  The workers take turns one
/// claim at a time; under this schedule the matches arrive in source
/// order, so the outcome is the match set of the whole table — the same
/// for every pool size.  The chunks of a paginated table are non-empty up
/// to its end, which the precondition records; the empty retrieval that
/// fires a detector is produced past the last chunk.
pub fn process_all_chunks_streaming(
    wallets: &ReferenceSet,
    chunks: &Vec<Vec<String>>,
    n_workers: usize,
) -> (r: ScanOutcome)
    requires
        wallets.wf(),
        1 <= n_workers,
        chunks@.len() + 3 * n_workers <= usize::MAX,
        forall|i: int|
            0 <= i < chunks@.len() ==> (#[trigger] chunks.deep_view()[i]).len() > 0,
    ensures
        r.matches.deep_view() == match_seq(
            table_of(chunks.deep_view()),
            wallets.key_set(),
            wallets.policy(),
        ),
        r.failed_workers == 0,
{
    let ghost refs = wallets.key_set();
    let ghost policy = wallets.policy();
    let len = chunks.len();
    let n = n_workers;

    let mut workers: Vec<Worker> = Vec::new();
    let mut w: usize = 0;
    while w < n
        invariant
            w <= n,
            1 <= n,
            workers@.len() == w,
            forall|j: int| 0 <= j < w ==> (#[trigger] workers@[j]).wf(),
            forall|j: int| 0 <= j < w ==> (#[trigger] workers@[j]).worker_id() == j,
            forall|j: int| 0 <= j < w ==> (#[trigger] workers@[j]).stride() == n,
            forall|j: int| 0 <= j < w ==> (#[trigger] workers@[j]).next_index() == j,
            forall|j: int|
                0 <= j < w ==> (#[trigger] workers@[j]).status() == WorkerStatus::Running,
        decreases n - w,
    {
        workers.push(Worker::new(w, n));
        w = w + 1;
    }

    let empty_retrieval: Vec<String> = Vec::new();
    let mut agg = ResultAggregator::new();
    let mut base: usize = 0;
    proof {
        assert(chunks.deep_view().take(0) =~= Seq::<Seq<Seq<char>>>::empty());
        lemma_match_empty(refs, policy);
    }
    loop
        invariant
            1 <= n,
            n == n_workers,
            len == chunks@.len(),
            len + 3 * n <= usize::MAX,
            base <= len + 2 * n,
            wallets.wf(),
            refs == wallets.key_set(),
            policy == wallets.policy(),
            forall|i: int|
                0 <= i < chunks@.len() ==> (#[trigger] chunks.deep_view()[i]).len() > 0,
            empty_retrieval@.len() == 0,
            workers@.len() == n,
            forall|j: int| 0 <= j < n ==> (#[trigger] workers@[j]).wf(),
            forall|j: int| 0 <= j < n ==> (#[trigger] workers@[j]).worker_id() == j,
            forall|j: int| 0 <= j < n ==> (#[trigger] workers@[j]).stride() == n,
            forall|j: int|
                0 <= j < n ==> (#[trigger] workers@[j]).status() != WorkerStatus::Failed,
            forall|j: int|
                0 <= j < n && (#[trigger] workers@[j]).status() == WorkerStatus::Running
                    ==> workers@[j].next_index() == base + j
                        && (base == 0 || base - n + j < len),
            forall|j: int|
                0 <= j < n && (#[trigger] workers@[j]).status() == WorkerStatus::Stopped
                    ==> base >= n && base - n + j >= len,
            agg.failures() == 0,
            agg.matches_seq() == match_seq(
                chunks.deep_view().take(min(base as int, len as int)).flatten(),
                refs,
                policy,
            ),
        ensures
            forall|j: int|
                0 <= j < n ==> (#[trigger] workers@[j]).status() == WorkerStatus::Stopped,
            agg.failures() == 0,
            agg.matches_seq() == match_seq(
                chunks.deep_view().take(len as int).flatten(),
                refs,
                policy,
            ),
        decreases len + 2 * n - base,
    {
        if !any_worker_running(&workers) {
            proof {
                assert(workers@[0].status() == WorkerStatus::Stopped);
                assert(base - n >= len);
                assert(min(base as int, len as int) == len);
            }
            break;
        }
        let ghost someone = choose|j: int|
            0 <= j < n && (#[trigger] workers@[j]).status() == WorkerStatus::Running;
        proof {
            assert(base == 0 || base - n + someone < len);
            assert(base < len + n);
        }
        let mut w: usize = 0;
        while w < n
            invariant
                w <= n,
                1 <= n,
                n == n_workers,
                len == chunks@.len(),
                len + 3 * n <= usize::MAX,
                base < len + n,
                wallets.wf(),
                refs == wallets.key_set(),
                policy == wallets.policy(),
                forall|i: int|
                    0 <= i < chunks@.len() ==> (#[trigger] chunks.deep_view()[i]).len() > 0,
                empty_retrieval@.len() == 0,
                workers@.len() == n,
                forall|j: int| 0 <= j < n ==> (#[trigger] workers@[j]).wf(),
                forall|j: int| 0 <= j < n ==> (#[trigger] workers@[j]).worker_id() == j,
                forall|j: int| 0 <= j < n ==> (#[trigger] workers@[j]).stride() == n,
                forall|j: int|
                    0 <= j < n ==> (#[trigger] workers@[j]).status() != WorkerStatus::Failed,
                // workers that already took their turn this round
                forall|j: int|
                    0 <= j < w && (#[trigger] workers@[j]).status() == WorkerStatus::Running
                        ==> workers@[j].next_index() == base + n + j && base + j < len,
                forall|j: int|
                    0 <= j < w && (#[trigger] workers@[j]).status() == WorkerStatus::Stopped
                        ==> base + j >= len,
                // workers still waiting for their turn
                forall|j: int|
                    w <= j < n && (#[trigger] workers@[j]).status() == WorkerStatus::Running
                        ==> workers@[j].next_index() == base + j
                            && (base == 0 || base - n + j < len),
                forall|j: int|
                    w <= j < n && (#[trigger] workers@[j]).status() == WorkerStatus::Stopped
                        ==> base >= n && base - n + j >= len,
                agg.failures() == 0,
                agg.matches_seq() == match_seq(
                    chunks.deep_view().take(min(base + w, len as int)).flatten(),
                    refs,
                    policy,
                ),
            decreases n - w,
        {
            if workers[w].is_running() {
                let idx = workers[w].claim();
                let retrieval: &Vec<String> = if idx < len {
                    &chunks[idx]
                } else {
                    &empty_retrieval
                };
                let chunk_matches = workers[w].observe(wallets, Ok(retrieval));
                proof {
                    if idx < len {
                        assert(min(base + w, len as int) == idx);
                        lemma_match_take_step(chunks.deep_view(), refs, policy, idx as int);
                        assert(min(base + w + 1, len as int) == idx + 1);
                    } else {
                        assert(min(base + w, len as int) == len);
                        assert(min(base + w + 1, len as int) == len);
                        assert(retrieval.deep_view() =~= Seq::<Seq<char>>::empty());
                    }
                }
                agg.append(chunk_matches);
            } else {
                proof {
                    assert(workers@[w as int].status() == WorkerStatus::Stopped);
                    assert(base + w >= len);
                    assert(min(base + w, len as int) == len);
                    assert(min(base + w + 1, len as int) == len);
                }
            }
            w = w + 1;
        }
        base = base + n;
    }

    proof {
        assert(chunks.deep_view().take(len as int) =~= chunks.deep_view());
    }
    agg.finalize()
}

} // verus!
