use comparer_rust::engine::{process_all_chunks_parallel, process_all_chunks_streaming};
use comparer_rust::normalize::NormalizationPolicy;
use comparer_rust::refset::{load_wallets, ReferenceSet};

fn chunked(rows: &[String], chunk_size: usize) -> Vec<Vec<String>> {
    let mut chunks = Vec::new();
    let mut i = 0;
    while i < rows.len() {
        let end = (i + chunk_size).min(rows.len());
        chunks.push(rows[i..end].to_vec());
        i = end;
    }
    chunks
}

fn scenario_wallets() -> ReferenceSet {
    let rows = vec!["0xabc".to_string(), "0xdef".to_string()];
    load_wallets(&rows, NormalizationPolicy::CaseSensitive)
}

fn scenario_rows() -> Vec<String> {
    vec!["0x000".to_string(), "0xabc".to_string(), "0xdef".to_string()]
}

fn sorted(mut v: Vec<String>) -> Vec<String> {
    v.sort();
    v
}

#[test]
fn scenario_matches_independent_of_chunk_size_and_worker_count() {
    let wallets = scenario_wallets();
    let rows = scenario_rows();
    let expected = vec!["0xabc".to_string(), "0xdef".to_string()];

    for &chunk_size in &[1usize, 50] {
        let chunks = chunked(&rows, chunk_size);

        let parallel = process_all_chunks_parallel(&wallets, &chunks);
        assert_eq!(sorted(parallel), expected);

        for &n_workers in &[1usize, 4] {
            let outcome = process_all_chunks_streaming(&wallets, &chunks, n_workers);
            assert!(!outcome.is_degraded());
            assert_eq!(sorted(outcome.matches), expected);
        }
    }
}

#[test]
fn empty_table_yields_empty_match_set_without_error() {
    let wallets = scenario_wallets();
    let no_chunks: Vec<Vec<String>> = Vec::new();

    assert!(process_all_chunks_parallel(&wallets, &no_chunks).is_empty());

    let outcome = process_all_chunks_streaming(&wallets, &no_chunks, 4);
    assert!(outcome.matches.is_empty());
    assert!(!outcome.is_degraded());
}

#[test]
fn empty_reference_set_yields_empty_match_set_without_error() {
    let wallets = load_wallets(&Vec::new(), NormalizationPolicy::CaseFolded);
    let chunks = chunked(&scenario_rows(), 2);

    assert!(process_all_chunks_parallel(&wallets, &chunks).is_empty());

    let outcome = process_all_chunks_streaming(&wallets, &chunks, 2);
    assert!(outcome.matches.is_empty());
    assert!(!outcome.is_degraded());
}

#[test]
fn drivers_agree_with_each_other_and_preserve_order() {
    let wallets = scenario_wallets();
    let rows = scenario_rows();
    let chunks = chunked(&rows, 2);

    let parallel = process_all_chunks_parallel(&wallets, &chunks);
    let streaming = process_all_chunks_streaming(&wallets, &chunks, 3);

    // Both drivers promise the match set of the whole table in source order.
    assert_eq!(parallel, vec!["0xabc".to_string(), "0xdef".to_string()]);
    assert_eq!(streaming.matches, parallel);
}

#[test]
fn case_folded_scan_matches_across_case() {
    let refs = vec!["0xABC".to_string()];
    let wallets = load_wallets(&refs, NormalizationPolicy::CaseFolded);
    let rows = vec!["0xabc".to_string(), "0xAbC".to_string(), "0xdef".to_string()];
    let chunks = chunked(&rows, 2);

    let matches = process_all_chunks_parallel(&wallets, &chunks);
    // Matches keep the table's own spelling of each key.
    assert_eq!(matches, vec!["0xabc".to_string(), "0xAbC".to_string()]);
}
