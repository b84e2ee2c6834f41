// Tests for indexing-run planning and progress reporting.

use pdfscan::indexer::ProgressStream;
use pdfscan::indexer::plan_chunks;

#[test]
fn test_empty_directory_spawns_no_workers() {
    // zero matching files: no chunks, and the stream reports (0, 0) and is
    // complete immediately
    let chunks = plan_chunks(0);
    assert_eq!(chunks.len(), 0);
    let stream = ProgressStream::new(0);
    assert_eq!(stream.snapshot(), (0, 0));
    assert!(stream.is_complete());
}

#[test]
fn test_chunks_cover_the_work_list() {
    let chunks = plan_chunks(45);
    assert_eq!(chunks, vec![(0, 20), (20, 40), (40, 45)]);
    let chunks = plan_chunks(20);
    assert_eq!(chunks, vec![(0, 20)]);
    let chunks = plan_chunks(1);
    assert_eq!(chunks, vec![(0, 1)]);
}

#[test]
fn test_progress_reaches_completion() {
    let mut stream = ProgressStream::new(2);
    assert_eq!(stream.snapshot(), (0, 2));
    assert!(!stream.is_complete());
    stream.record_completion();
    assert_eq!(stream.snapshot(), (1, 2));
    stream.record_completion();
    assert_eq!(stream.snapshot(), (2, 2));
    assert!(stream.is_complete());
    // the total is fixed at enumeration time and never moves
    stream.record_completion();
    assert_eq!(stream.snapshot(), (2, 2));
}
