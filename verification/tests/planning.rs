use chunkdl::planner::{plan, ChunkRange};

fn ranges(p: &[ChunkRange]) -> Vec<(u32, u64, u64)> {
    p.iter().map(|r| (r.index, r.start_byte, r.end_byte)).collect()
}

#[test]
fn plan_1000_into_3() {
    let p = plan(1000, 3);
    assert_eq!(ranges(&p), vec![(0, 0, 332), (1, 333, 665), (2, 666, 999)]);
}

#[test]
fn plan_is_deterministic() {
    let a = plan(1000, 3);
    let b = plan(1000, 3);
    assert_eq!(ranges(&a), ranges(&b));
    let c = plan(12345, 7);
    let d = plan(12345, 7);
    assert_eq!(ranges(&c), ranges(&d));
}

#[test]
fn plan_empty_resource() {
    let p = plan(0, 500);
    assert!(p.is_empty());
}

#[test]
fn plan_more_chunks_than_bytes() {
    let p = plan(5, 500);
    assert_eq!(
        ranges(&p),
        vec![(0, 0, 0), (1, 1, 1), (2, 2, 2), (3, 3, 3), (4, 4, 4)]
    );
}

#[test]
fn plan_single_chunk() {
    let p = plan(1234, 1);
    assert_eq!(ranges(&p), vec![(0, 0, 1233)]);
}

#[test]
fn plan_last_chunk_absorbs_remainder() {
    let p = plan(10, 3);
    assert_eq!(ranges(&p), vec![(0, 0, 2), (1, 3, 5), (2, 6, 9)]);
}

#[test]
fn plan_covers_resource_without_gaps() {
    for (total, max) in [(1u64, 1u64), (97, 10), (1000, 3), (4096, 7), (50, 50)] {
        let p = plan(total, max);
        assert_eq!(p.len() as u64, max.min(total));
        assert_eq!(p[0].start_byte, 0);
        assert_eq!(p[p.len() - 1].end_byte, total - 1);
        for w in p.windows(2) {
            assert_eq!(w[0].end_byte + 1, w[1].start_byte);
        }
        let covered: u64 = p.iter().map(|r| r.end_byte - r.start_byte + 1).sum();
        assert_eq!(covered, total);
    }
}
