use comparer_rust::engine::{process_all_chunks_parallel, process_all_chunks_streaming};
use comparer_rust::normalize::NormalizationPolicy;
use comparer_rust::refset::{load_wallets, ReferenceSet};

const TABLE_ROWS: usize = 150_000;
const REFERENCE_ENTRIES: usize = 100;
const DRAW_STRIDE: usize = TABLE_ROWS / REFERENCE_ENTRIES;

fn reference_rows() -> Vec<String> {
    (0..REFERENCE_ENTRIES).map(|j| format!("ref{:03}", j)).collect()
}

/// A large table where one row in every `DRAW_STRIDE` draws its key from
/// the reference set, each entry exactly once, and every other row is a
/// distinct key of its own.
fn large_table() -> Vec<String> {
    (0..TABLE_ROWS)
        .map(|i| {
            if i % DRAW_STRIDE == 0 {
                format!("ref{:03}", i / DRAW_STRIDE)
            } else {
                format!("addr{:06}", i)
            }
        })
        .collect()
}

fn wallets() -> ReferenceSet {
    load_wallets(&reference_rows(), NormalizationPolicy::CaseSensitive)
}

fn chunked(rows: &[String], chunk_size: usize) -> Vec<Vec<String>> {
    let mut chunks = Vec::new();
    let mut i = 0;
    while i < rows.len() {
        let end = (i + chunk_size).min(rows.len());
        chunks.push(rows[i..end].to_vec());
        i = end;
    }
    chunks
}

#[test]
fn large_table_match_count_independent_of_chunk_size() {
    let wallets = wallets();
    let rows = large_table();

    for &chunk_size in &[50_000usize, 7_000] {
        let chunks = chunked(&rows, chunk_size);
        let matches = process_all_chunks_parallel(&wallets, &chunks);
        assert_eq!(matches.len(), REFERENCE_ENTRIES);
    }
}

#[test]
fn large_table_match_count_independent_of_worker_count() {
    let wallets = wallets();
    let rows = large_table();
    let chunks = chunked(&rows, 50_000);

    for &n_workers in &[1usize, 4] {
        let outcome = process_all_chunks_streaming(&wallets, &chunks, n_workers);
        assert!(!outcome.is_degraded());
        assert_eq!(outcome.matches.len(), REFERENCE_ENTRIES);
    }
}
