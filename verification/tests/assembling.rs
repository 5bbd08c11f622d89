use chunkdl::reassembler::assemble;

#[test]
fn all_chunks_present_output_is_complete() {
    let chunks: Vec<Option<Vec<u8>>> = vec![
        Some(vec![1, 2, 3]),
        Some(vec![4, 5, 6]),
        Some(vec![7, 8, 9, 10]),
    ];
    let (out, report) = assemble(&chunks);
    assert_eq!(out, vec![1, 2, 3, 4, 5, 6, 7, 8, 9, 10]);
    assert_eq!(out.len(), 10);
    assert_eq!(report.written_chunks, vec![0u32, 1, 2]);
    assert!(report.missing_chunks.is_empty());
}

#[test]
fn missing_chunk_is_skipped_and_reported() {
    let chunks: Vec<Option<Vec<u8>>> = vec![
        Some(vec![0, 1]),
        Some(vec![2, 3]),
        None,
        Some(vec![6, 7]),
        Some(vec![8, 9]),
    ];
    let (out, report) = assemble(&chunks);
    assert_eq!(out, vec![0, 1, 2, 3, 6, 7, 8, 9]);
    assert_eq!(report.missing_chunks, vec![2u32]);
    assert_eq!(report.written_chunks, vec![0u32, 1, 3, 4]);
}

#[test]
fn empty_plan_assembles_to_empty_output() {
    let chunks: Vec<Option<Vec<u8>>> = vec![];
    let (out, report) = assemble(&chunks);
    assert!(out.is_empty());
    assert!(report.written_chunks.is_empty());
    assert!(report.missing_chunks.is_empty());
}

#[test]
fn all_chunks_missing() {
    let chunks: Vec<Option<Vec<u8>>> = vec![None, None, None];
    let (out, report) = assemble(&chunks);
    assert!(out.is_empty());
    assert!(report.written_chunks.is_empty());
    assert_eq!(report.missing_chunks, vec![0u32, 1, 2]);
}

#[test]
fn planned_chunks_reassemble_to_the_whole_resource() {
    let total = 1000u64;
    let p = chunkdl::planner::plan(total, 3);
    let chunks: Vec<Option<Vec<u8>>> = p
        .iter()
        .map(|r| Some(vec![7u8; (r.end_byte - r.start_byte + 1) as usize]))
        .collect();
    let (out, report) = chunkdl::reassembler::assemble(&chunks);
    assert_eq!(out.len() as u64, total);
    assert!(report.missing_chunks.is_empty());
    assert_eq!(report.written_chunks.len(), p.len());
}
