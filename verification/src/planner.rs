use vstd::prelude::*;

verus! {

/// One contiguous inclusive byte range of the resource, fetched and staged
/// independently of its siblings.
#[derive(Clone, Copy, PartialEq, Eq, Structural, Debug)]
pub struct ChunkRange {
    pub index: u32,
    pub start_byte: u64,
    pub end_byte: u64,
}

/// How many chunks a resource of `total_size` bytes is split into when at most
/// `max_chunks` are allowed: one chunk can hold no fewer than one byte.
pub open spec fn spec_chunk_count(total_size: u64, max_chunks: u64) -> u64 {
    if max_chunks <= total_size {
        max_chunks
    } else {
        total_size
    }
}

/// Number of bytes in every chunk but possibly the last, which absorbs the
/// remainder of the division.
pub open spec fn spec_chunk_size(total_size: u64, max_chunks: u64) -> int {
    total_size as int / spec_chunk_count(total_size, max_chunks) as int
}

/// The planned range for chunk `i` out of `count` over `total_size` bytes.
pub open spec fn spec_range(total_size: u64, max_chunks: u64, i: int) -> ChunkRange {
    let count = spec_chunk_count(total_size, max_chunks) as int;
    let size = spec_chunk_size(total_size, max_chunks);
    ChunkRange {
        index: i as u32,
        start_byte: (i * size) as u64,
        end_byte: if i == count - 1 {
            (total_size - 1) as u64
        } else {
            (i * size + size - 1) as u64
        },
    }
}

/// The whole plan: the ordered sequence of ranges covering the resource.
pub open spec fn spec_plan(total_size: u64, max_chunks: u64) -> Seq<ChunkRange> {
    Seq::new(
        spec_chunk_count(total_size, max_chunks) as nat,
        |i: int| spec_range(total_size, max_chunks, i),
    )
}

/// Splits `total_size` bytes into `min(max_chunks, total_size)` contiguous,
/// non-overlapping inclusive ranges; the last range absorbs the remainder of
/// the integer division. A zero-size resource yields an empty plan.
pub fn plan(total_size: u64, max_chunks: u64) -> (r: Vec<ChunkRange>)
    requires
        max_chunks >= 1,
        spec_chunk_count(total_size, max_chunks) <= u32::MAX,
    ensures
        r@ == spec_plan(total_size, max_chunks),
{
    let count: u64 = if max_chunks <= total_size {
        max_chunks
    } else {
        total_size
    };
    let mut ranges: Vec<ChunkRange> = Vec::new();
    if count == 0 {
        assert(spec_plan(total_size, max_chunks) =~= Seq::<ChunkRange>::empty());
        return ranges;
    }
    let chunk_size: u64 = total_size / count;
    let mut i: u64 = 0;
    while i < count
        invariant
            count == spec_chunk_count(total_size, max_chunks),
            1 <= count <= total_size,
            count <= u32::MAX,
            chunk_size == spec_chunk_size(total_size, max_chunks),
            0 <= i <= count,
            ranges@.len() == i,
            forall|j: int| 0 <= j < i ==> ranges@[j] == spec_range(total_size, max_chunks, j),
        decreases count - i,
    {
        proof {
            lemma_range_bounds(total_size, max_chunks, i as int);
        }
        let start: u64 = i * chunk_size;
        let end: u64 = if i == count - 1 {
            total_size - 1
        } else {
            (i + 1) * chunk_size - 1
        };
        ranges.push(ChunkRange { index: i as u32, start_byte: start, end_byte: end });
        i = i + 1;
    }
    assert(ranges@ =~= spec_plan(total_size, max_chunks));
    ranges
}

/// Planning is deterministic: any two plans drawn up for the same size and
/// the same chunk bound are the same range list.
pub proof fn lemma_plan_deterministic(
    total_size: u64,
    max_chunks: u64,
    a: Seq<ChunkRange>,
    b: Seq<ChunkRange>,
)
    requires
        a == spec_plan(total_size, max_chunks),
        b == spec_plan(total_size, max_chunks),
    ensures
        a == b,
{
}

/// Number of bytes a range covers, bounds being inclusive.
pub open spec fn chunk_len(r: ChunkRange) -> int {
    r.end_byte - r.start_byte + 1
}

/// Total number of bytes covered by a sequence of ranges.
pub open spec fn sum_lens(p: Seq<ChunkRange>) -> int
    decreases p.len(),
{
    if p.len() == 0 {
        0
    } else {
        sum_lens(p.drop_last()) + chunk_len(p.last())
    }
}

/// The plan covers the resource exactly: the right number of ranges, starting
/// at byte zero, ending at the last byte, contiguous, pairwise disjoint, in
/// index order, and every byte of the resource falls in exactly one range.
pub proof fn lemma_plan_shape(total_size: u64, max_chunks: u64)
    requires
        total_size >= 1,
        max_chunks >= 1,
        spec_chunk_count(total_size, max_chunks) <= u32::MAX,
    ensures
        spec_plan(total_size, max_chunks).len() == spec_chunk_count(total_size, max_chunks),
        spec_plan(total_size, max_chunks)[0].start_byte == 0,
        spec_plan(total_size, max_chunks).last().end_byte == total_size - 1,
        forall|i: int|
            0 <= i < spec_plan(total_size, max_chunks).len() ==> (
            #[trigger] spec_plan(total_size, max_chunks)[i]).index == i,
        forall|i: int|
            0 <= i < spec_plan(total_size, max_chunks).len() ==> (
            #[trigger] spec_plan(total_size, max_chunks)[i]).start_byte <= spec_plan(
                total_size,
                max_chunks,
            )[i].end_byte,
        forall|i: int|
            0 <= i < spec_plan(total_size, max_chunks).len() - 1 ==> (
            #[trigger] spec_plan(total_size, max_chunks)[i]).end_byte + 1 == spec_plan(
                total_size,
                max_chunks,
            )[i + 1].start_byte,
        forall|i: int, j: int|
            0 <= i < j < spec_plan(total_size, max_chunks).len() ==> (
            #[trigger] spec_plan(total_size, max_chunks)[i]).end_byte < (
            #[trigger] spec_plan(total_size, max_chunks)[j]).start_byte,
{
    let count = spec_chunk_count(total_size, max_chunks) as int;
    let size = spec_chunk_size(total_size, max_chunks);
    assert(1 <= count <= total_size);
    assert(size >= 1 && count * size <= total_size) by (nonlinear_arith)
        requires
            1 <= count <= total_size,
            size == total_size as int / count,
    ;
    assert forall|i: int| 0 <= i < count implies {
        &&& 0 <= #[trigger] (i * size)
        &&& i * size + size <= total_size
        &&& (i + 1) * size == i * size + size
    } by {
        lemma_range_bounds(total_size, max_chunks, i);
    }
    assert forall|i: int, j: int|
        0 <= i < j < count implies (#[trigger] spec_plan(total_size, max_chunks)[i]).end_byte < (
    #[trigger] spec_plan(total_size, max_chunks)[j]).start_byte by {
        assert(i * size + size <= j * size) by (nonlinear_arith)
            requires
                i + 1 <= j,
                size >= 1,
        ;
        assert(j * size + size <= total_size);
    }
    assert(0 * size == 0);
}

/// Every byte of the resource lies inside some planned range: the union of the
/// ranges is all of `[0, total_size - 1]`.
pub proof fn lemma_plan_covers(total_size: u64, max_chunks: u64, b: u64)
    requires
        total_size >= 1,
        max_chunks >= 1,
        b < total_size,
    ensures
        exists|i: int|
            0 <= i < spec_plan(total_size, max_chunks).len() && (#[trigger] spec_plan(
                total_size,
                max_chunks,
            )[i]).start_byte <= b <= spec_plan(total_size, max_chunks)[i].end_byte,
{
    let count = spec_chunk_count(total_size, max_chunks) as int;
    let size = spec_chunk_size(total_size, max_chunks);
    assert(size >= 1 && count * size <= total_size) by (nonlinear_arith)
        requires
            1 <= count <= total_size,
            size == total_size as int / count,
    ;
    let q = b as int / size;
    assert(q * size <= b && b < q * size + size && q >= 0) by (nonlinear_arith)
        requires
            size >= 1,
            0 <= b,
            q == b as int / size,
    ;
    if q < count - 1 {
        lemma_range_bounds(total_size, max_chunks, q);
        assert(spec_plan(total_size, max_chunks)[q].start_byte <= b <= spec_plan(
            total_size,
            max_chunks,
        )[q].end_byte);
    } else {
        let i = count - 1;
        lemma_range_bounds(total_size, max_chunks, i);
        assert(i * size <= q * size) by (nonlinear_arith)
            requires
                i <= q,
                size >= 1,
        ;
        assert(spec_plan(total_size, max_chunks)[i].start_byte <= b <= spec_plan(
            total_size,
            max_chunks,
        )[i].end_byte);
    }
}

/// The ranges of a plan together cover exactly `total_size` bytes.
pub proof fn lemma_plan_total_len(total_size: u64, max_chunks: u64)
    requires
        max_chunks >= 1,
    ensures
        sum_lens(spec_plan(total_size, max_chunks)) == total_size,
{
    if total_size == 0 {
        assert(spec_plan(total_size, max_chunks) =~= Seq::<ChunkRange>::empty());
    } else {
        let p = spec_plan(total_size, max_chunks);
        let count = spec_chunk_count(total_size, max_chunks) as int;
        let size = spec_chunk_size(total_size, max_chunks);
        assert(size >= 1 && count * size <= total_size) by (nonlinear_arith)
            requires
                1 <= count <= total_size,
                size == total_size as int / count,
        ;
        lemma_prefix_sum(total_size, max_chunks, count - 1);
        lemma_range_bounds(total_size, max_chunks, count - 1);
        assert(p.take(count) =~= p);
        assert(p.take(count).drop_last() =~= p.take(count - 1));
        assert(sum_lens(p) == sum_lens(p.take(count - 1)) + chunk_len(p[count - 1]));
        assert(chunk_len(p[count - 1]) == total_size - (count - 1) * size);
    }
}

/// The first `k` full-size ranges of a plan cover `k * chunk_size` bytes.
proof fn lemma_prefix_sum(total_size: u64, max_chunks: u64, k: int)
    requires
        total_size >= 1,
        max_chunks >= 1,
        0 <= k < spec_chunk_count(total_size, max_chunks),
    ensures
        sum_lens(spec_plan(total_size, max_chunks).take(k)) == k * spec_chunk_size(
            total_size,
            max_chunks,
        ),
    decreases k,
{
    let p = spec_plan(total_size, max_chunks);
    let size = spec_chunk_size(total_size, max_chunks);
    if k == 0 {
        assert(p.take(0) =~= Seq::<ChunkRange>::empty());
        assert(0 * size == 0);
    } else {
        lemma_prefix_sum(total_size, max_chunks, k - 1);
        lemma_range_bounds(total_size, max_chunks, k - 1);
        assert(p.take(k).drop_last() =~= p.take(k - 1));
        assert(chunk_len(p[k - 1]) == size);
        assert(k * size == (k - 1) * size + size) by (nonlinear_arith);
    }
}

/// Arithmetic bounds for one planned range: the products stay below the total
/// size, so the executable plan builder never overflows.
proof fn lemma_range_bounds(total_size: u64, max_chunks: u64, i: int)
    requires
        max_chunks >= 1,
        total_size >= 1,
        0 <= i < spec_chunk_count(total_size, max_chunks),
    ensures
        spec_chunk_size(total_size, max_chunks) >= 1,
        i * spec_chunk_size(total_size, max_chunks) >= 0,
        (i + 1) * spec_chunk_size(total_size, max_chunks) <= total_size,
        (i + 1) * spec_chunk_size(total_size, max_chunks)
            == i * spec_chunk_size(total_size, max_chunks) + spec_chunk_size(total_size, max_chunks),
{
    let count = spec_chunk_count(total_size, max_chunks) as int;
    let size = spec_chunk_size(total_size, max_chunks);
    assert(1 <= count <= total_size);
    assert(size == total_size as int / count);
    assert(size >= 1 && count * size <= total_size) by (nonlinear_arith)
        requires
            1 <= count <= total_size,
            size == total_size as int / count,
    ;
    assert((i + 1) * size <= count * size) by (nonlinear_arith)
        requires
            i + 1 <= count,
            size >= 1,
    ;
    assert((i + 1) * size == i * size + size) by (nonlinear_arith);
    assert(i * size >= 0) by (nonlinear_arith)
        requires
            i >= 0,
            size >= 1,
    ;
}

} // verus!
