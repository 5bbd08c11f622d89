use vstd::prelude::*;
use crate::planner::{ChunkRange, chunk_len, sum_lens};

verus! {

/// The terminal outcome of one chunk, produced exactly once per index: either
/// the chunk's bytes sit in a staging file, or every attempt in the retry
/// budget failed and the last error is kept.
pub enum ChunkResult {
    Fetched { index: u32, staging_path: String },
    Failed { index: u32, last_error: String },
}

pub open spec fn is_fetched(r: Option<ChunkResult>) -> bool {
    r matches Some(ChunkResult::Fetched { .. })
}

/// The chunk index a result speaks of.
pub open spec fn result_index(r: ChunkResult) -> u32 {
    match r {
        ChunkResult::Fetched { index, .. } => index,
        ChunkResult::Failed { index, .. } => index,
    }
}

/// The bytes accounted for so far: the lengths of the planned ranges whose
/// chunks have been recorded as fetched.
pub open spec fn spec_progress(plan: Seq<ChunkRange>, results: Seq<Option<ChunkResult>>) -> int
    decreases results.len(),
{
    if results.len() == 0 {
        0
    } else {
        spec_progress(plan.drop_last(), results.drop_last()) + (if is_fetched(results.last()) {
            chunk_len(plan.last())
        } else {
            0
        })
    }
}

/// Collects the one-per-chunk outcomes of a run and accounts progress. Each
/// slot is written at most once; the progress counter is always exactly the
/// bytes of the fetched chunks, so it can never pass the resource size.
pub struct FetchLedger {
    plan: Vec<ChunkRange>,
    results: Vec<Option<ChunkResult>>,
    progress: u64,
    total_size: u64,
}

impl FetchLedger {
    pub closed spec fn spec_plan(self) -> Seq<ChunkRange> {
        self.plan@
    }

    pub closed spec fn spec_results(self) -> Seq<Option<ChunkResult>> {
        self.results@
    }

    pub closed spec fn spec_progress_count(self) -> u64 {
        self.progress
    }

    pub closed spec fn spec_total_size(self) -> u64 {
        self.total_size
    }

    /// The ledger's invariant: one slot per planned range, ranges at least one
    /// byte long and together as large as the resource, and the counter equal
    /// to the bytes of the chunks recorded as fetched.
    pub open spec fn wf(self) -> bool {
        &&& self.spec_results().len() == self.spec_plan().len()
        &&& self.spec_plan().len() <= u32::MAX
        &&& sum_lens(self.spec_plan()) == self.spec_total_size()
        &&& forall|i: int|
            0 <= i < self.spec_plan().len() ==> chunk_len(#[trigger] self.spec_plan()[i]) >= 1
        &&& forall|i: int|
            0 <= i < self.spec_results().len() ==> ((#[trigger] self.spec_results()[i]) matches
            Some(r) ==> result_index(r) == i)
        &&& self.spec_progress_count() == spec_progress(self.spec_plan(), self.spec_results())
    }

    /// A fresh ledger over a plan: every slot empty, nothing accounted.
    pub fn new(plan: Vec<ChunkRange>, total_size: u64) -> (s: Self)
        requires
            plan@.len() <= u32::MAX,
            sum_lens(plan@) == total_size,
            forall|i: int| 0 <= i < plan@.len() ==> chunk_len(#[trigger] plan@[i]) >= 1,
        ensures
            s.wf(),
            s.spec_plan() == plan@,
            s.spec_results().len() == plan@.len(),
            forall|i: int| 0 <= i < plan@.len() ==> (#[trigger] s.spec_results()[i]) is None,
            s.spec_progress_count() == 0,
            s.spec_total_size() == total_size,
    {
        let mut results: Vec<Option<ChunkResult>> = Vec::new();
        let mut i: usize = 0;
        while i < plan.len()
            invariant
                0 <= i <= plan@.len(),
                results@.len() == i,
                forall|j: int| 0 <= j < i ==> (#[trigger] results@[j]) is None,
            decreases plan@.len() - i,
        {
            results.push(None);
            i = i + 1;
        }
        proof {
            lemma_progress_none(plan@, results@);
        }
        FetchLedger { plan, results, progress: 0, total_size }
    }

    pub fn chunk_count(&self) -> (n: usize)
        ensures
            n == self.spec_plan().len(),
    {
        self.plan.len()
    }

    /// Records the terminal outcome of chunk `i`. The slot must still be
    /// empty: a verified caller can never account a chunk twice, so the
    /// counter stays within the resource size.
    pub fn record(&mut self, i: usize, result: ChunkResult)
        requires
            old(self).wf(),
            i < old(self).spec_results().len(),
            old(self).spec_results()[i as int] is None,
            result_index(result) == i as u32,
        ensures
            final(self).wf(),
            final(self).spec_plan() == old(self).spec_plan(),
            final(self).spec_total_size() == old(self).spec_total_size(),
            final(self).spec_results() == old(self).spec_results().update(
                i as int,
                Some(result),
            ),
            final(self).spec_progress_count() == old(self).spec_progress_count() + (
            if is_fetched(Some(result)) {
                chunk_len(old(self).spec_plan()[i as int])
            } else {
                0
            }),
            final(self).spec_progress_count() <= final(self).spec_total_size(),
    {
        proof {
            lemma_progress_update(self.plan@, self.results@, i as int, result);
            lemma_progress_in_bounds(self.plan@, self.results@.update(i as int, Some(result)));
            lemma_chunk_le_sum(self.plan@, i as int);
            lemma_progress_in_bounds(self.plan@, self.results@);
        }
        let fetched = match &result {
            ChunkResult::Fetched { .. } => true,
            ChunkResult::Failed { .. } => false,
        };
        if fetched {
            let r = self.plan[i];
            let bytes: u64 = r.end_byte - r.start_byte + 1;
            self.progress = self.progress + bytes;
        }
        self.results[i] = Some(result);
    }

    pub fn progress_count(&self) -> (n: u64)
        ensures
            n == self.spec_progress_count(),
    {
        self.progress
    }

    pub fn total_size(&self) -> (n: u64)
        ensures
            n == self.spec_total_size(),
    {
        self.total_size
    }

    /// The outcome recorded for chunk `i`, if any.
    pub fn result_at(&self, i: usize) -> (r: &Option<ChunkResult>)
        requires
            i < self.spec_results().len(),
        ensures
            r == &self.spec_results()[i as int],
    {
        &self.results[i]
    }

    /// Whether every chunk has reached a terminal outcome: the coordinator's
    /// full-barrier join is over only when this holds.
    pub fn all_recorded(&self) -> (b: bool)
        ensures
            b == (forall|i: int|
                0 <= i < self.spec_results().len() ==> (#[trigger] self.spec_results()[i])
                    is Some),
    {
        let mut i: usize = 0;
        while i < self.results.len()
            invariant
                0 <= i <= self.spec_results().len(),
                forall|j: int| 0 <= j < i ==> (#[trigger] self.spec_results()[j]) is Some,
            decreases self.spec_results().len() - i,
        {
            if self.results[i].is_none() {
                return false;
            }
            i = i + 1;
        }
        true
    }

    /// The progress counter never passes the resource size, whatever mix of
    /// fetched and failed chunks was recorded.
    pub proof fn lemma_progress_bounded(self)
        requires
            self.wf(),
        ensures
            self.spec_progress_count() <= self.spec_total_size(),
    {
        lemma_progress_in_bounds(self.spec_plan(), self.spec_results());
    }

    /// For an all-success run the bytes accounted across all chunk
    /// completions equal the resource size exactly.
    pub proof fn lemma_progress_complete(self)
        requires
            self.wf(),
            forall|i: int|
                0 <= i < self.spec_results().len() ==> is_fetched(
                    #[trigger] self.spec_results()[i],
                ),
        ensures
            self.spec_progress_count() == self.spec_total_size(),
    {
        lemma_progress_all_fetched(self.spec_plan(), self.spec_results());
    }
}

/// With every slot still empty nothing is accounted.
proof fn lemma_progress_none(plan: Seq<ChunkRange>, results: Seq<Option<ChunkResult>>)
    requires
        results.len() == plan.len(),
        forall|i: int| 0 <= i < results.len() ==> (#[trigger] results[i]) is None,
    ensures
        spec_progress(plan, results) == 0,
    decreases results.len(),
{
    if results.len() > 0 {
        lemma_progress_none(plan.drop_last(), results.drop_last());
    }
}

/// The accounted bytes lie between zero and the size of the whole plan.
proof fn lemma_progress_in_bounds(plan: Seq<ChunkRange>, results: Seq<Option<ChunkResult>>)
    requires
        results.len() == plan.len(),
        forall|i: int| 0 <= i < plan.len() ==> chunk_len(#[trigger] plan[i]) >= 1,
    ensures
        0 <= spec_progress(plan, results) <= sum_lens(plan),
    decreases results.len(),
{
    if results.len() > 0 {
        assert(forall|i: int|
            0 <= i < plan.drop_last().len() ==> chunk_len(#[trigger] plan.drop_last()[i]) >= 1);
        lemma_progress_in_bounds(plan.drop_last(), results.drop_last());
    }
}

/// One range is never larger than the whole plan it belongs to.
proof fn lemma_chunk_le_sum(plan: Seq<ChunkRange>, i: int)
    requires
        0 <= i < plan.len(),
        forall|j: int| 0 <= j < plan.len() ==> chunk_len(#[trigger] plan[j]) >= 1,
    ensures
        chunk_len(plan[i]) <= sum_lens(plan),
    decreases plan.len(),
{
    if i == plan.len() - 1 {
        lemma_sum_lens_nonneg(plan.drop_last());
    } else {
        assert(forall|j: int|
            0 <= j < plan.drop_last().len() ==> chunk_len(#[trigger] plan.drop_last()[j]) >= 1);
        lemma_chunk_le_sum(plan.drop_last(), i);
    }
}

/// A plan of non-empty ranges never has negative size.
proof fn lemma_sum_lens_nonneg(plan: Seq<ChunkRange>)
    requires
        forall|j: int| 0 <= j < plan.len() ==> chunk_len(#[trigger] plan[j]) >= 1,
    ensures
        sum_lens(plan) >= 0,
    decreases plan.len(),
{
    if plan.len() > 0 {
        assert(forall|j: int|
            0 <= j < plan.drop_last().len() ==> chunk_len(#[trigger] plan.drop_last()[j]) >= 1);
        lemma_sum_lens_nonneg(plan.drop_last());
    }
}

/// Writing one empty slot raises the account by that chunk's length if it was
/// fetched and by nothing if it failed.
proof fn lemma_progress_update(
    plan: Seq<ChunkRange>,
    results: Seq<Option<ChunkResult>>,
    i: int,
    result: ChunkResult,
)
    requires
        results.len() == plan.len(),
        0 <= i < results.len(),
        results[i] is None,
    ensures
        spec_progress(plan, results.update(i, Some(result))) == spec_progress(plan, results) + (
        if is_fetched(Some(result)) {
            chunk_len(plan[i])
        } else {
            0
        }),
    decreases results.len(),
{
    let updated = results.update(i, Some(result));
    if i == results.len() - 1 {
        assert(updated.drop_last() =~= results.drop_last());
        assert(updated.last() == Some(result));
    } else {
        assert(updated.drop_last() =~= results.drop_last().update(i, Some(result)));
        assert(updated.last() == results.last());
        lemma_progress_update(plan.drop_last(), results.drop_last(), i, result);
    }
}

/// With every chunk fetched the account is the size of the whole plan.
proof fn lemma_progress_all_fetched(plan: Seq<ChunkRange>, results: Seq<Option<ChunkResult>>)
    requires
        results.len() == plan.len(),
        forall|i: int| 0 <= i < results.len() ==> is_fetched(#[trigger] results[i]),
    ensures
        spec_progress(plan, results) == sum_lens(plan),
    decreases results.len(),
{
    if results.len() > 0 {
        lemma_progress_all_fetched(plan.drop_last(), results.drop_last());
    }
}

} // verus!
