use chunkdl::coordinator::{ChunkResult, FetchLedger};
use chunkdl::planner::plan;

#[test]
fn all_success_progress_equals_total_size() {
    let total = 1000u64;
    let p = plan(total, 3);
    let mut ledger = FetchLedger::new(p, total);
    for i in 0..ledger.chunk_count() {
        ledger.record(
            i,
            ChunkResult::Fetched { index: i as u32, staging_path: format!("part{}", i) },
        );
    }
    assert!(ledger.all_recorded());
    assert_eq!(ledger.progress_count(), total);
}

#[test]
fn failed_chunk_adds_no_progress() {
    let total = 10u64;
    let p = plan(total, 5);
    let mut ledger = FetchLedger::new(p, total);
    ledger.record(0, ChunkResult::Fetched { index: 0, staging_path: "part0".to_string() });
    ledger.record(2, ChunkResult::Failed { index: 2, last_error: "timed out".to_string() });
    assert_eq!(ledger.progress_count(), 2);
    assert!(!ledger.all_recorded());
    assert!(ledger.progress_count() <= ledger.total_size());
}

#[test]
fn progress_never_exceeds_total() {
    let total = 97u64;
    let p = plan(total, 10);
    let mut ledger = FetchLedger::new(p, total);
    for i in 0..ledger.chunk_count() {
        if i % 2 == 0 {
            ledger.record(
                i,
                ChunkResult::Fetched { index: i as u32, staging_path: format!("part{}", i) },
            );
        } else {
            ledger.record(
                i,
                ChunkResult::Failed { index: i as u32, last_error: "net".to_string() },
            );
        }
        assert!(ledger.progress_count() <= ledger.total_size());
    }
}

#[test]
fn results_are_kept_per_index() {
    let total = 10u64;
    let p = plan(total, 2);
    let mut ledger = FetchLedger::new(p, total);
    assert!(ledger.result_at(0).is_none());
    ledger.record(1, ChunkResult::Fetched { index: 1, staging_path: "part1".to_string() });
    assert!(ledger.result_at(0).is_none());
    match ledger.result_at(1) {
        Some(ChunkResult::Fetched { index, staging_path }) => {
            assert_eq!(*index, 1);
            assert_eq!(staging_path, "part1");
        }
        _ => panic!("expected a fetched result"),
    }
}
