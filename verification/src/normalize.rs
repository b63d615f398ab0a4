//! Key normalization.
//!
//! Two keys are considered equal under a normalization function chosen once,
//! at construction time: either keys are compared exactly, or both sides are
//! ASCII case-folded first.  The same function must be applied to the
//! reference set and to every scanned key, so it is defined here in one place.

use vstd::prelude::*;

verus! {

/// The normalization policy chosen when the reference set is built.
#[derive(Clone, Copy, PartialEq, Eq, Structural, Debug)]
pub enum NormalizationPolicy {
    /// Keys match only when they are byte-for-byte equal.
    CaseSensitive,
    /// Keys are ASCII case-folded before comparison.
    CaseFolded,
}

/// ASCII case-folding of a single character: `'A'..='Z'` map to
/// `'a'..='z'`, every other character is unchanged.
pub open spec fn fold_char(c: char) -> char {
    if 'A' <= c && c <= 'Z' {
        (((c as u8) + 32) as u8) as char
    } else {
        c
    }
}

/// ASCII case-folding of a whole key.
pub open spec fn fold_seq(s: Seq<char>) -> Seq<char> {
    s.map_values(|c: char| fold_char(c))
}

/// What a key looks like after normalization under `policy`.
pub open spec fn normalize_spec(policy: NormalizationPolicy, s: Seq<char>) -> Seq<char> {
    match policy {
        NormalizationPolicy::CaseSensitive => s,
        NormalizationPolicy::CaseFolded => fold_seq(s),
    }
}

fn fold_char_exec(c: char) -> (r: char)
    ensures
        r == fold_char(c),
{
    if 'A' <= c && c <= 'Z' {
        ((c as u8) + 32) as char
    } else {
        c
    }
}

/// Relies on std's `String::push`, which appends the given character to the
/// end of the string.
#[verifier::external_body]
fn push_char(s: &mut String, c: char)
    ensures
        final(s)@ == old(s)@.push(c),
{
    s.push(c);
}

fn fold_string(s: &String) -> (r: String)
    ensures
        r@ == fold_seq(s@),
{
    let st: &str = s.as_str();
    let n = st.unicode_len();
    let mut r = String::new();
    let mut i: usize = 0;
    while i < n
        invariant
            i <= n,
            n == s@.len(),
            st@ == s@,
            r@ == fold_seq(s@.take(i as int)),
        decreases n - i,
    {
        let c = st.get_char(i);
        push_char(&mut r, fold_char_exec(c));
        proof {
            assert(s@.take(i + 1).map_values(|c: char| fold_char(c))
                =~= s@.take(i as int).map_values(|c: char| fold_char(c)).push(fold_char(s@[i as int])));
        }
        i = i + 1;
    }
    proof {
        assert(s@.take(n as int) =~= s@);
    }
    r
}

/// Normalizes one key under the given policy.
pub fn normalize_key(policy: NormalizationPolicy, s: &String) -> (r: String)
    ensures
        r@ == normalize_spec(policy, s@),
{
    match policy {
        NormalizationPolicy::CaseSensitive => s.clone(),
        NormalizationPolicy::CaseFolded => fold_string(s),
    }
}

/// Folding a single character twice is the same as folding it once: the fold
/// of an upper-case letter is a lower-case letter, which folds to itself.
proof fn lemma_fold_char_idempotent(c: char)
    ensures
        fold_char(fold_char(c)) == fold_char(c),
{
}

/// Normalizing an already-normalized key is a no-op, under either policy.
pub proof fn lemma_normalize_idempotent(policy: NormalizationPolicy, s: Seq<char>)
    ensures
        normalize_spec(policy, normalize_spec(policy, s)) == normalize_spec(policy, s),
{
    match policy {
        NormalizationPolicy::CaseSensitive => {
        },
        NormalizationPolicy::CaseFolded => {
            assert forall|i: int| 0 <= i < s.len() implies fold_seq(fold_seq(s))[i] == fold_seq(s)[i] by {
                lemma_fold_char_idempotent(s[i]);
            }
            assert(fold_seq(fold_seq(s)) =~= fold_seq(s));
        },
    }
}

/// Matching is case-insensitive exactly when the policy says so: under
/// `CaseSensitive` two keys normalize alike only when they are equal, while
/// under `CaseFolded` they normalize alike exactly when they agree up to
/// ASCII case.
pub proof fn lemma_policy_controls_case(a: Seq<char>, b: Seq<char>)
    ensures
        (normalize_spec(NormalizationPolicy::CaseSensitive, a)
            == normalize_spec(NormalizationPolicy::CaseSensitive, b)) <==> a == b,
        (normalize_spec(NormalizationPolicy::CaseFolded, a)
            == normalize_spec(NormalizationPolicy::CaseFolded, b)) <==> fold_seq(a) == fold_seq(b),
{
}

} // verus!
