use comparer_rust::normalize::{normalize_key, NormalizationPolicy};
use comparer_rust::refset::load_wallets;

#[test]
fn case_folding_lowers_ascii_letters_only() {
    let key = String::from("0xAbC-XYZ_123");
    let folded = normalize_key(NormalizationPolicy::CaseFolded, &key);
    assert_eq!(folded, "0xabc-xyz_123");
}

#[test]
fn case_sensitive_normalization_is_identity() {
    let key = String::from("0xAbC");
    let kept = normalize_key(NormalizationPolicy::CaseSensitive, &key);
    assert_eq!(kept, "0xAbC");
}

#[test]
fn normalization_is_idempotent() {
    let key = String::from("MiXeD0xCaSe");
    let once = normalize_key(NormalizationPolicy::CaseFolded, &key);
    let twice = normalize_key(NormalizationPolicy::CaseFolded, &once);
    assert_eq!(once, twice);
    assert_eq!(once, "mixed0xcase");
}

#[test]
fn empty_key_normalizes_to_empty() {
    let empty = String::new();
    assert_eq!(normalize_key(NormalizationPolicy::CaseFolded, &empty), "");
    assert_eq!(normalize_key(NormalizationPolicy::CaseSensitive, &empty), "");
}

#[test]
fn matching_is_case_insensitive_iff_policy_says_so() {
    let rows = vec!["0xAbC".to_string()];

    let folded = load_wallets(&rows, NormalizationPolicy::CaseFolded);
    assert!(folded.matches(&"0XABC".to_string()));
    assert!(folded.matches(&"0xabc".to_string()));
    assert!(folded.matches(&"0xAbC".to_string()));
    assert!(!folded.matches(&"0xdef".to_string()));

    let exact = load_wallets(&rows, NormalizationPolicy::CaseSensitive);
    assert!(exact.matches(&"0xAbC".to_string()));
    assert!(!exact.matches(&"0XABC".to_string()));
    assert!(!exact.matches(&"0xabc".to_string()));
}
