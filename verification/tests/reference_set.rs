use comparer_rust::normalize::NormalizationPolicy;
use comparer_rust::refset::load_wallets;

#[test]
fn load_wallets_collapses_duplicates() {
    let rows = vec![
        "0xabc".to_string(),
        "0xdef".to_string(),
        "0xabc".to_string(),
    ];
    let wallets = load_wallets(&rows, NormalizationPolicy::CaseSensitive);
    assert_eq!(wallets.len(), 2);
}

#[test]
fn load_wallets_collapses_case_variants_under_folding() {
    let rows = vec!["0xABC".to_string(), "0xabc".to_string()];

    let folded = load_wallets(&rows, NormalizationPolicy::CaseFolded);
    assert_eq!(folded.len(), 1);

    let exact = load_wallets(&rows, NormalizationPolicy::CaseSensitive);
    assert_eq!(exact.len(), 2);
}

#[test]
fn empty_reference_set_matches_nothing() {
    let wallets = load_wallets(&Vec::new(), NormalizationPolicy::CaseFolded);
    assert_eq!(wallets.len(), 0);
    assert!(!wallets.matches(&"0xabc".to_string()));
    assert!(!wallets.matches(&String::new()));
}
