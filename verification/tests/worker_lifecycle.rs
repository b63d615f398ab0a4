use comparer_rust::aggregator::ResultAggregator;
use comparer_rust::errors::ScanError;
use comparer_rust::normalize::NormalizationPolicy;
use comparer_rust::refset::load_wallets;
use comparer_rust::worker::Worker;

#[test]
fn worker_filters_until_its_range_is_exhausted() {
    let rows = vec!["0xabc".to_string()];
    let wallets = load_wallets(&rows, NormalizationPolicy::CaseSensitive);

    let mut worker = Worker::new(0, 1);
    assert!(worker.is_running());
    assert_eq!(worker.claim(), 0);

    let chunk = vec!["0x000".to_string(), "0xabc".to_string()];
    let matches = worker.observe(&wallets, Ok(&chunk));
    assert_eq!(matches, vec!["0xabc".to_string()]);
    assert!(worker.is_running());
    assert_eq!(worker.claim(), 1);

    let empty: Vec<String> = Vec::new();
    let matches = worker.observe(&wallets, Ok(&empty));
    assert!(matches.is_empty());
    assert!(!worker.is_running());
}

#[test]
fn worker_stops_alone_on_a_query_error() {
    let wallets = load_wallets(&Vec::new(), NormalizationPolicy::CaseSensitive);

    let mut failing = Worker::new(0, 2);
    let matches = failing.observe(&wallets, Err(ScanError::QueryError));
    assert!(matches.is_empty());
    assert!(!failing.is_running());

    // The sibling is unaffected.
    let sibling = Worker::new(1, 2);
    assert!(sibling.is_running());
}

#[test]
fn aggregator_keeps_every_entry_in_append_order() {
    let mut agg = ResultAggregator::new();
    agg.append(vec!["b".to_string(), "a".to_string()]);
    agg.append(Vec::new());
    agg.append(vec!["a".to_string()]);

    let outcome = agg.finalize();
    assert_eq!(
        outcome.matches,
        vec!["b".to_string(), "a".to_string(), "a".to_string()]
    );
    assert_eq!(outcome.failed_workers, 0);
    assert!(!outcome.is_degraded());
}

#[test]
fn empty_result_is_distinct_from_degraded_result() {
    let clean = ResultAggregator::new().finalize();
    assert!(clean.matches.is_empty());
    assert!(!clean.is_degraded());

    let mut agg = ResultAggregator::new();
    agg.record_failure();
    let degraded = agg.finalize();
    assert!(degraded.matches.is_empty());
    assert!(degraded.is_degraded());
    assert_eq!(degraded.failed_workers, 1);
}

#[test]
fn error_taxonomy_separates_fatal_from_local() {
    assert!(ScanError::ConnectionError.is_fatal());
    assert!(ScanError::SchemaError.is_fatal());
    assert!(!ScanError::QueryError.is_fatal());
    assert!(!ScanError::JoinError.is_fatal());
}
