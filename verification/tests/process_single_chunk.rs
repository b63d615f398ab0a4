use comparer_rust::matching::process_single_chunk;
use comparer_rust::normalize::NormalizationPolicy;
use comparer_rust::refset::load_wallets;

#[test]
fn test_process_single_chunk_matches() {
    let rows = vec!["0xabc".to_string(), "0xdef".to_string()];
    let wallets = load_wallets(&rows, NormalizationPolicy::CaseSensitive);

    let chunk = vec![
        "0x000".to_string(),
        "0xabc".to_string(),
        "0xdef".to_string(),
    ];
    let mut matches = process_single_chunk(&chunk, &wallets);
    matches.sort();

    assert_eq!(matches, vec!["0xabc".to_string(), "0xdef".to_string()]);
}

#[test]
fn process_single_chunk_keeps_source_order_and_row_counts() {
    let rows = vec!["b".to_string(), "a".to_string()];
    let wallets = load_wallets(&rows, NormalizationPolicy::CaseSensitive);

    let chunk = vec![
        "a".to_string(),
        "x".to_string(),
        "b".to_string(),
        "a".to_string(),
    ];
    let matches = process_single_chunk(&chunk, &wallets);

    // Source order is preserved and the duplicate row "a" is reported once
    // per row, not collapsed.
    assert_eq!(
        matches,
        vec!["a".to_string(), "b".to_string(), "a".to_string()]
    );
}

#[test]
fn process_single_chunk_empty_inputs() {
    let wallets = load_wallets(&Vec::new(), NormalizationPolicy::CaseSensitive);
    let chunk = vec!["0xabc".to_string()];
    assert!(process_single_chunk(&chunk, &wallets).is_empty());

    let rows = vec!["0xabc".to_string()];
    let wallets = load_wallets(&rows, NormalizationPolicy::CaseSensitive);
    let empty_chunk: Vec<String> = Vec::new();
    assert!(process_single_chunk(&empty_chunk, &wallets).is_empty());
}
