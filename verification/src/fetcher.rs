use vstd::prelude::*;
use crate::staging::{render_decimal, spec_decimal};

verus! {

/// The `Range` request header value asking for the inclusive byte range
/// `start` to `end`: `bytes=` and the two bounds in decimal, joined by `-`.
pub open spec fn spec_range_header(start: u64, end: u64) -> Seq<u8> {
    seq![98u8, 121u8, 116u8, 101u8, 115u8, 61u8] + spec_decimal(start as nat) + seq![45u8]
        + spec_decimal(end as nat)
}

/// Builds the `Range` header value for one chunk's request.
pub fn range_header_value(start: u64, end: u64) -> (r: Vec<u8>)
    ensures
        r@ == spec_range_header(start, end),
{
    let mut out: Vec<u8> = Vec::new();
    out.push(98);
    out.push(121);
    out.push(116);
    out.push(101);
    out.push(115);
    out.push(61);
    let mut lo = render_decimal(start);
    out.append(&mut lo);
    out.push(45);
    let mut hi = render_decimal(end);
    out.append(&mut hi);
    proof {
        assert(out@ =~= spec_range_header(start, end));
    }
    out
}

/// The retry bookkeeping for one chunk: how many attempts have failed, how
/// many are allowed in all, and whether the chunk has reached a terminal
/// state. The caller performs the network attempt and reports its outcome
/// here; this type decides whether another attempt may run.
#[derive(Clone, Copy, PartialEq, Eq, Structural, Debug)]
pub struct RetryState {
    pub attempts_failed: u64,
    pub max_retries: u64,
    pub finished: bool,
    pub succeeded: bool,
}

impl RetryState {
    /// A state is well formed when it is terminal exactly on success or on an
    /// exhausted budget, and the failure count never passes the budget.
    pub open spec fn wf(self) -> bool {
        &&& self.attempts_failed <= self.max_retries
        &&& self.finished == (self.succeeded || self.attempts_failed == self.max_retries)
    }
}

/// The state before any attempt has run: with no budget at all the chunk is
/// already terminal and failed.
pub open spec fn spec_retry_start(max_retries: u64) -> RetryState {
    RetryState {
        attempts_failed: 0,
        max_retries,
        finished: max_retries == 0,
        succeeded: false,
    }
}

/// One attempt's outcome applied to a non-terminal state: success ends the
/// chunk at once; a failure spends one unit of budget and ends the chunk only
/// when the budget is gone.
pub open spec fn spec_retry_step(s: RetryState, success: bool) -> RetryState {
    if success {
        RetryState { finished: true, succeeded: true, ..s }
    } else {
        RetryState {
            attempts_failed: (s.attempts_failed + 1) as u64,
            finished: s.attempts_failed + 1 == s.max_retries,
            ..s
        }
    }
}

/// A whole run: outcomes are applied in order for as long as the state is not
/// terminal; later outcomes change nothing.
pub open spec fn spec_retry_run(max_retries: u64, outcomes: Seq<bool>) -> RetryState
    decreases outcomes.len(),
{
    if outcomes.len() == 0 {
        spec_retry_start(max_retries)
    } else {
        let prev = spec_retry_run(max_retries, outcomes.drop_last());
        if prev.finished {
            prev
        } else {
            spec_retry_step(prev, outcomes.last())
        }
    }
}

/// Begins the retry bookkeeping for one chunk with the given attempt budget.
pub fn retry_start(max_retries: u64) -> (s: RetryState)
    ensures
        s == spec_retry_start(max_retries),
        s.wf(),
{
    RetryState {
        attempts_failed: 0,
        max_retries,
        finished: max_retries == 0,
        succeeded: false,
    }
}

/// Whether the caller may run another attempt for this chunk.
pub fn should_attempt(s: &RetryState) -> (b: bool)
    ensures
        b == !s.finished,
{
    !s.finished
}

/// Records one attempt's outcome; only callable while the chunk is not
/// terminal, so a verified caller can never overrun the budget.
pub fn record_attempt(s: &mut RetryState, success: bool)
    requires
        old(s).wf(),
        !old(s).finished,
    ensures
        *final(s) == spec_retry_step(*old(s), success),
        final(s).wf(),
        final(s).max_retries == old(s).max_retries,
        success ==> final(s).succeeded && final(s).finished,
        !success ==> final(s).attempts_failed == old(s).attempts_failed + 1
            && !final(s).succeeded,
{
    if success {
        s.finished = true;
        s.succeeded = true;
    } else {
        s.attempts_failed = s.attempts_failed + 1;
        if s.attempts_failed == s.max_retries {
            s.finished = true;
        }
    }
}

/// A run of fewer failures than the budget allows leaves the state
/// non-terminal with exactly that many failures recorded.
proof fn lemma_failures_accumulate(max_retries: u64, outcomes: Seq<bool>)
    requires
        outcomes.len() < max_retries,
        forall|i: int| 0 <= i < outcomes.len() ==> !(#[trigger] outcomes[i]),
    ensures
        spec_retry_run(max_retries, outcomes) == (RetryState {
            attempts_failed: outcomes.len() as u64,
            max_retries,
            finished: false,
            succeeded: false,
        }),
    decreases outcomes.len(),
{
    if outcomes.len() > 0 {
        lemma_failures_accumulate(max_retries, outcomes.drop_last());
    }
}

/// Retry recovers transient failures: a chunk whose first `max_retries - 1`
/// attempts fail and whose final attempt succeeds ends fetched, with the whole
/// budget short of one spent on failures.
pub proof fn lemma_retry_recovers(max_retries: u64, outcomes: Seq<bool>)
    requires
        max_retries >= 1,
        outcomes.len() == max_retries,
        forall|i: int| 0 <= i < outcomes.len() - 1 ==> !(#[trigger] outcomes[i]),
        outcomes.last(),
    ensures
        spec_retry_run(max_retries, outcomes).succeeded,
        spec_retry_run(max_retries, outcomes).finished,
        spec_retry_run(max_retries, outcomes).attempts_failed == max_retries - 1,
{
    lemma_failures_accumulate(max_retries, outcomes.drop_last());
}

/// A run whose attempts all fail, once the budget is spent, ends terminal and
/// not fetched: the chunk is reported failed rather than retried forever.
pub proof fn lemma_retry_exhausted(max_retries: u64, outcomes: Seq<bool>)
    requires
        outcomes.len() == max_retries,
        forall|i: int| 0 <= i < outcomes.len() ==> !(#[trigger] outcomes[i]),
    ensures
        spec_retry_run(max_retries, outcomes).finished,
        !spec_retry_run(max_retries, outcomes).succeeded,
        spec_retry_run(max_retries, outcomes).attempts_failed == max_retries,
    decreases outcomes.len(),
{
    if outcomes.len() > 0 {
        lemma_failures_accumulate(max_retries, outcomes.drop_last());
    }
}

} // verus!
