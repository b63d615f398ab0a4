//! Chunk filtering: which keys of a retrieved chunk belong to the match set.
//!
//! A key of the large table matches when its normalization is present in the
//! reference set.  `match_seq` is the single definition of the match set of
//! a sequence of keys; every filtering function, sequential or parallel, is
//! specified against it.

use vstd::prelude::*;

use rayon::iter::IntoParallelRefIterator;
use rayon::iter::ParallelIterator;

use crate::normalize::{normalize_spec, NormalizationPolicy};
use crate::refset::ReferenceSet;

verus! {

/// Whether one key of the large table matches the reference set.
pub open spec fn is_match(refs: Set<Seq<char>>, policy: NormalizationPolicy, k: Seq<char>) -> bool {
    refs.contains(normalize_spec(policy, k))
}

/// The match test as a predicate value, shared by every use of `filter`.
pub open spec fn match_pred(
    refs: Set<Seq<char>>,
    policy: NormalizationPolicy,
) -> spec_fn(Seq<char>) -> bool {
    |k: Seq<char>| is_match(refs, policy, k)
}

/// The match set of a sequence of table keys, in source order: the
/// subsequence of keys whose normalization lies in the reference set.
pub open spec fn match_seq(
    table: Seq<Seq<char>>,
    refs: Set<Seq<char>>,
    policy: NormalizationPolicy,
) -> Seq<Seq<char>> {
    table.filter(match_pred(refs, policy))
}

/// Filters one chunk sequentially against the reference set.
pub fn filter_chunk(chunk: &Vec<String>, wallets: &ReferenceSet) -> (r: Vec<String>)
    requires
        wallets.wf(),
    ensures
        r.deep_view() == match_seq(chunk.deep_view(), wallets.key_set(), wallets.policy()),
{
    let ghost refs = wallets.key_set();
    let ghost policy = wallets.policy();
    let n = chunk.len();
    let mut r: Vec<String> = Vec::new();
    proof {
        assert(chunk.deep_view().take(0) =~= Seq::<Seq<char>>::empty());
        assert(r.deep_view() =~= Seq::<Seq<char>>::empty());
        Seq::<Seq<char>>::empty().lemma_all_neg_filter_empty(match_pred(refs, policy));
    }
    let mut i: usize = 0;
    while i < n
        invariant
            i <= n,
            n == chunk.len(),
            wallets.wf(),
            refs == wallets.key_set(),
            policy == wallets.policy(),
            r.deep_view() == match_seq(chunk.deep_view().take(i as int), refs, policy),
        decreases n - i,
    {
        proof {
            let dv = chunk.deep_view();
            assert(dv.take(i + 1) =~= dv.take(i as int).push(dv[i as int]));
            dv.take(i as int).lemma_filter_push(dv[i as int], match_pred(refs, policy));
        }
        if wallets.matches(&chunk[i]) {
            let ghost old_dv = r.deep_view();
            r.push(chunk[i].clone());
            proof {
                assert(r.deep_view() =~= old_dv.push(chunk.deep_view()[i as int]));
            }
        }
        i = i + 1;
    }
    proof {
        assert(chunk.deep_view().take(n as int) =~= chunk.deep_view());
    }
    r
}

/// Relies on rayon's `par_iter`, `filter`, `cloned` and `collect` on a
/// `Vec`: the slice is split into ordered pieces, `filter` keeps each
/// retained element in its piece in source order, and collecting into a
/// `Vec` concatenates the pieces in order, so the result equals the
/// sequential filter of the chunk.  The predicate handed to rayon only
/// calls the verified membership test of the reference set.
#[verifier::external_body]
fn par_filter_chunk(chunk: &Vec<String>, wallets: &ReferenceSet) -> (r: Vec<String>)
    requires
        wallets.wf(),
    ensures
        r.deep_view() == match_seq(chunk.deep_view(), wallets.key_set(), wallets.policy()),
{
    chunk.par_iter().filter(|a| wallets.matches(a)).cloned().collect()
}

/// Filters one retrieved chunk against the reference set, fanning the
/// comparisons out over the available compute and collecting the chunk-local
/// matches in source order.
pub fn process_single_chunk(chunk: &Vec<String>, wallets: &ReferenceSet) -> (r: Vec<String>)
    requires
        wallets.wf(),
    ensures
        r.deep_view() == match_seq(chunk.deep_view(), wallets.key_set(), wallets.policy()),
{
    par_filter_chunk(chunk, wallets)
}

/// How often each key survives a filter: as often as it occurs in the
/// input when it passes the predicate, and never when it does not.
proof fn lemma_filter_count<A>(s: Seq<A>, pred: spec_fn(A) -> bool, x: A)
    ensures
        s.filter(pred).to_multiset().count(x) == if pred(x) {
            s.to_multiset().count(x)
        } else {
            0
        },
    decreases s.len(),
{
    broadcast use vstd::multiset::group_multiset_axioms;
    broadcast use vstd::seq_lib::group_to_multiset_ensures;

    reveal(Seq::filter);
    if s.len() == 0 {
        assert(s.filter(pred) == s);
        assert(!s.contains(x));
        assert(s.to_multiset().count(x) == 0);
    } else {
        let rest = s.drop_last();
        let last = s.last();
        lemma_filter_count(rest, pred, x);
        assert(s =~= rest.push(last));
        assert(rest.push(last).to_multiset() == rest.to_multiset().insert(last));
        if pred(last) {
            assert(s.filter(pred) == rest.filter(pred).push(last));
            assert(rest.filter(pred).push(last).to_multiset()
                == rest.filter(pred).to_multiset().insert(last));
        } else {
            assert(s.filter(pred) == rest.filter(pred));
        }
    }
}

/// No duplication: a key that matches appears in the match set exactly as
/// many times as it appears among the table's rows — each row-level match
/// is reported once, neither collapsed nor repeated — and a key that does
/// not match never appears.
pub proof fn lemma_no_duplication(
    table: Seq<Seq<char>>,
    refs: Set<Seq<char>>,
    policy: NormalizationPolicy,
    k: Seq<char>,
)
    ensures
        match_seq(table, refs, policy).to_multiset().count(k) == if is_match(refs, policy, k) {
            table.to_multiset().count(k)
        } else {
            0
        },
{
    lemma_filter_count(table, match_pred(refs, policy), k);
}

/// Partition-order independence: two tables that hold the same rows — in
/// any order, so in particular the concatenations of the same chunks under
/// different worker counts or allocation strategies — have the same match
/// set, as a multiset, ignoring output order.
pub proof fn lemma_partition_order_independence(
    a: Seq<Seq<char>>,
    b: Seq<Seq<char>>,
    refs: Set<Seq<char>>,
    policy: NormalizationPolicy,
)
    requires
        a.to_multiset() == b.to_multiset(),
    ensures
        match_seq(a, refs, policy).to_multiset() == match_seq(b, refs, policy).to_multiset(),
{
    broadcast use vstd::multiset::group_multiset_axioms;

    assert forall|k: Seq<char>|
        match_seq(a, refs, policy).to_multiset().count(k)
            == match_seq(b, refs, policy).to_multiset().count(k) by {
        lemma_no_duplication(a, refs, policy, k);
        lemma_no_duplication(b, refs, policy, k);
    }
    assert(match_seq(a, refs, policy).to_multiset() =~= match_seq(b, refs, policy).to_multiset());
}

/// Completeness: for a table without duplicate rows, the match set is
/// exactly the intersection of the table's keys with the reference set
/// after normalization — every common key is found and nothing else is.
pub proof fn lemma_completeness(
    table: Seq<Seq<char>>,
    refs: Set<Seq<char>>,
    policy: NormalizationPolicy,
)
    requires
        table.no_duplicates(),
    ensures
        match_seq(table, refs, policy).to_set() == table.to_set().filter(
            match_pred(refs, policy),
        ),
{
    let pred = match_pred(refs, policy);
    let found = match_seq(table, refs, policy).to_set();
    let wanted = table.to_set().filter(pred);
    assert forall|k: Seq<char>| found.contains(k) implies wanted.contains(k) by {
        table.lemma_filter_contains_rev(pred, k);
        let i = choose|i: int| 0 <= i < table.filter(pred).len() && table.filter(pred)[i] == k;
        table.lemma_filter_pred(pred, i);
    }
    assert forall|k: Seq<char>| wanted.contains(k) implies found.contains(k) by {
        let i = choose|i: int| 0 <= i < table.len() && table[i] == k;
        table.lemma_filter_contains(pred, i);
    }
    assert(found =~= wanted);
}

/// Empty-input boundary: an empty table yields an empty match set, and an
/// empty reference set yields an empty match set, whatever the other side
/// holds.
pub proof fn lemma_empty_boundary(
    table: Seq<Seq<char>>,
    refs: Set<Seq<char>>,
    policy: NormalizationPolicy,
)
    ensures
        match_seq(Seq::<Seq<char>>::empty(), refs, policy) == Seq::<Seq<char>>::empty(),
        match_seq(table, Set::<Seq<char>>::empty(), policy) == Seq::<Seq<char>>::empty(),
{
    broadcast use vstd::set::group_set_axioms;

    Seq::<Seq<char>>::empty().lemma_all_neg_filter_empty(match_pred(refs, policy));
    assert(match_seq(Seq::<Seq<char>>::empty(), refs, policy) =~= Seq::<Seq<char>>::empty());
    let none = Set::<Seq<char>>::empty();
    assert(table.all(|k: Seq<char>| !match_pred(none, policy)(k)));
    table.lemma_all_neg_filter_empty(match_pred(none, policy));
    assert(match_seq(table, none, policy) =~= Seq::<Seq<char>>::empty());
}

} // verus!
