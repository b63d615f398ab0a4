//! The reference set: the smaller, pre-loaded set of keys that every scanned
//! key is tested against.
//!
//! The set is built once, before any worker starts, from the raw rows of the
//! reference store; every key is normalized on the way in, so membership
//! tests only ever see normalized keys.  After construction the set is never
//! mutated, and workers share it by immutable reference.

use vstd::prelude::*;

use crate::normalize::{normalize_key, normalize_spec, NormalizationPolicy};
use crate::normalize::lemma_normalize_idempotent;

verus! {

/// An immutable set of normalized keys with a fixed normalization policy.
pub struct ReferenceSet {
    keys: Vec<String>,
    policy: NormalizationPolicy,
}

impl ReferenceSet {
    /// The policy every key of this set was normalized under.
    pub closed spec fn policy(&self) -> NormalizationPolicy {
        self.policy
    }

    /// The mathematical set of keys this set holds.
    pub closed spec fn key_set(&self) -> Set<Seq<char>> {
        self.keys.deep_view().to_set()
    }

    /// Well-formedness: the stored keys are free of duplicates and each one
    /// is already normalized under the set's policy.
    pub closed spec fn wf(&self) -> bool {
        &&& self.keys.deep_view().no_duplicates()
        &&& forall|i: int|
            0 <= i < self.keys.deep_view().len()
                ==> normalize_spec(self.policy, #[trigger] self.keys.deep_view()[i])
                    == self.keys.deep_view()[i]
    }

    /// Every key of a well-formed set is its own normalization.
    pub proof fn lemma_keys_normalized(&self, k: Seq<char>)
        requires
            self.wf(),
            self.key_set().contains(k),
        ensures
            normalize_spec(self.policy(), k) == k,
    {
        let dv = self.keys.deep_view();
        assert(dv.contains(k));
        let i = choose|i: int| 0 <= i < dv.len() && dv[i] == k;
        assert(normalize_spec(self.policy, dv[i]) == dv[i]);
    }

    /// Membership test for a key that is already normalized.
    fn contains_key(&self, key: &String) -> (r: bool)
        ensures
            r == self.key_set().contains(key@),
    {
        let n = self.keys.len();
        let mut j: usize = 0;
        while j < n
            invariant
                j <= n,
                n == self.keys.len(),
                forall|t: int| 0 <= t < j ==> #[trigger] self.keys.deep_view()[t] != key@,
            decreases n - j,
        {
            if self.keys[j] == *key {
                proof {
                    assert(self.keys.deep_view()[j as int] == key@);
                    assert(self.keys.deep_view().contains(key@));
                }
                return true;
            }
            j = j + 1;
        }
        proof {
            assert(!self.keys.deep_view().contains(key@));
        }
        false
    }

    /// Membership test for an arbitrary candidate key: the candidate is
    /// normalized under the set's policy, exactly as the stored keys were,
    /// and then looked up.
    pub fn matches(&self, key: &String) -> (r: bool)
        requires
            self.wf(),
        ensures
            r == self.key_set().contains(normalize_spec(self.policy(), key@)),
    {
        let nk = normalize_key(self.policy, key);
        self.contains_key(&nk)
    }

    /// How many distinct keys the set holds.
    pub fn len(&self) -> (n: usize)
        requires
            self.wf(),
        ensures
            n == self.key_set().len(),
    {
        proof {
            self.keys.deep_view().unique_seq_to_set();
        }
        self.keys.len()
    }
}

/// Builds the reference set from the raw rows of the reference store:
/// every row is normalized under `policy` and inserted, duplicates
/// collapsing into one entry.  Either the whole set is built or, when the
/// store cannot deliver the rows, the caller never reaches this point: no
/// partial set is ever produced.
pub fn load_wallets(rows: &Vec<String>, policy: NormalizationPolicy) -> (r: ReferenceSet)
    ensures
        r.wf(),
        r.policy() == policy,
        r.key_set() == rows.deep_view().map_values(
            |k: Seq<char>| normalize_spec(policy, k),
        ).to_set(),
{
    let ghost image = rows.deep_view().map_values(|k: Seq<char>| normalize_spec(policy, k));
    let n = rows.len();
    let mut out = ReferenceSet { keys: Vec::new(), policy };
    let mut i: usize = 0;
    proof {
        assert(out.keys.deep_view() =~= Seq::<Seq<char>>::empty());
        assert(out.key_set() =~= image.take(0).to_set());
    }
    while i < n
        invariant
            i <= n,
            n == rows.len(),
            out.policy == policy,
            out.wf(),
            out.key_set() == image.take(i as int).to_set(),
            image == rows.deep_view().map_values(|k: Seq<char>| normalize_spec(policy, k)),
        decreases n - i,
    {
        let nk = normalize_key(policy, &rows[i]);
        proof {
            assert(image[i as int] == nk@);
            assert(image.take(i + 1) =~= image.take(i as int).push(nk@));
            broadcast use vstd::prelude::Seq::lemma_push_to_set_commute;
        }
        if !out.contains_key(&nk) {
            let ghost old_dv = out.keys.deep_view();
            out.keys.push(nk);
            proof {
                assert(out.keys.deep_view() =~= old_dv.push(nk@));
                lemma_normalize_idempotent(policy, rows.deep_view()[i as int]);
                assert forall|t: int| 0 <= t < out.keys.deep_view().len()
                    implies normalize_spec(policy, #[trigger] out.keys.deep_view()[t])
                        == out.keys.deep_view()[t] by {
                    if t < old_dv.len() {
                        assert(out.keys.deep_view()[t] == old_dv[t]);
                    }
                }
                assert(!old_dv.contains(nk@));
                assert forall|a: int, b: int|
                    0 <= a < b < out.keys.deep_view().len()
                    implies out.keys.deep_view()[a] != out.keys.deep_view()[b] by {
                    if b < old_dv.len() {
                        assert(old_dv[a] != old_dv[b]);
                    } else {
                        assert(out.keys.deep_view()[b] == nk@);
                        assert(old_dv[a] == out.keys.deep_view()[a]);
                    }
                }
                assert(out.keys.deep_view().to_set() =~= old_dv.to_set().insert(nk@));
            }
        } else {
            proof {
                assert(out.key_set().insert(nk@) =~= out.key_set());
            }
        }
        i = i + 1;
    }
    proof {
        assert(image.take(n as int) =~= image);
    }
    out
}

} // verus!
