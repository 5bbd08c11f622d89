use vstd::prelude::*;
use crate::planner::{ChunkRange, chunk_len, sum_lens};

verus! {

/// Which chunk indices made it into the output and which are missing from it.
/// Both lists are in ascending index order; the output file is byte-correct
/// only when `missing_chunks` is empty.
pub struct AssembleReport {
    pub written_chunks: Vec<u32>,
    pub missing_chunks: Vec<u32>,
}

/// The staged bytes of every chunk that was fetched, concatenated strictly in
/// index order; a missing chunk contributes nothing.
pub open spec fn spec_concat(chunks: Seq<Option<Vec<u8>>>) -> Seq<u8>
    decreases chunks.len(),
{
    if chunks.len() == 0 {
        Seq::empty()
    } else {
        spec_concat(chunks.drop_last()) + (match chunks.last() {
            Some(b) => b@,
            None => Seq::empty(),
        })
    }
}

/// The indices whose chunks were fetched, ascending.
pub open spec fn spec_written(chunks: Seq<Option<Vec<u8>>>) -> Seq<u32>
    decreases chunks.len(),
{
    if chunks.len() == 0 {
        Seq::empty()
    } else {
        spec_written(chunks.drop_last()) + (if chunks.last() is Some {
            seq![(chunks.len() - 1) as u32]
        } else {
            Seq::empty()
        })
    }
}

/// The indices whose chunks are missing, ascending.
pub open spec fn spec_missing(chunks: Seq<Option<Vec<u8>>>) -> Seq<u32>
    decreases chunks.len(),
{
    if chunks.len() == 0 {
        Seq::empty()
    } else {
        spec_missing(chunks.drop_last()) + (if chunks.last() is None {
            seq![(chunks.len() - 1) as u32]
        } else {
            Seq::empty()
        })
    }
}

/// Concatenates the staged chunks, in index order, into the bytes of the
/// output file, skipping missing chunks rather than aborting, and reports
/// exactly which indices were written and which are missing.
pub fn assemble(chunks: &Vec<Option<Vec<u8>>>) -> (r: (Vec<u8>, AssembleReport))
    requires
        chunks@.len() <= u32::MAX,
    ensures
        r.0@ == spec_concat(chunks@),
        r.1.written_chunks@ == spec_written(chunks@),
        r.1.missing_chunks@ == spec_missing(chunks@),
{
    let mut out: Vec<u8> = Vec::new();
    let mut written: Vec<u32> = Vec::new();
    let mut missing: Vec<u32> = Vec::new();
    let mut i: usize = 0;
    while i < chunks.len()
        invariant
            chunks@.len() <= u32::MAX,
            0 <= i <= chunks@.len(),
            out@ == spec_concat(chunks@.take(i as int)),
            written@ == spec_written(chunks@.take(i as int)),
            missing@ == spec_missing(chunks@.take(i as int)),
        decreases chunks@.len() - i,
    {
        proof {
            assert(chunks@.take(i + 1).drop_last() =~= chunks@.take(i as int));
            assert(chunks@.take(i + 1).last() == chunks@[i as int]);
        }
        match &chunks[i] {
            Some(bytes) => {
                let mut j: usize = 0;
                while j < bytes.len()
                    invariant
                        0 <= j <= bytes@.len(),
                        out@ == spec_concat(chunks@.take(i as int)) + bytes@.take(j as int),
                    decreases bytes@.len() - j,
                {
                    out.push(bytes[j]);
                    proof {
                        assert(bytes@.take(j + 1) =~= bytes@.take(j as int).push(bytes@[j as int]));
                    }
                    j = j + 1;
                }
                proof {
                    assert(bytes@.take(bytes@.len() as int) =~= bytes@);
                }
                written.push(i as u32);
            },
            None => {
                missing.push(i as u32);
                proof {
                    assert(out@ =~= spec_concat(chunks@.take(i + 1)));
                }
            },
        }
        i = i + 1;
    }
    proof {
        assert(chunks@.take(chunks@.len() as int) =~= chunks@);
    }
    (out, AssembleReport { written_chunks: written, missing_chunks: missing })
}

/// A fully fetched run reassembles without gaps: when every chunk is present
/// and each holds exactly its planned range's bytes, nothing is reported
/// missing, every index is reported written, and the output is as long as the
/// resource itself.
pub proof fn lemma_assemble_complete(plan: Seq<ChunkRange>, chunks: Seq<Option<Vec<u8>>>)
    requires
        chunks.len() == plan.len(),
        forall|i: int|
            0 <= i < chunks.len() ==> (#[trigger] chunks[i]) is Some && chunks[i]->0@.len()
                == chunk_len(plan[i]),
    ensures
        spec_missing(chunks) == Seq::<u32>::empty(),
        spec_written(chunks).len() == chunks.len(),
        spec_concat(chunks).len() == sum_lens(plan),
    decreases chunks.len(),
{
    if chunks.len() > 0 {
        lemma_assemble_complete(plan.drop_last(), chunks.drop_last());
        assert(spec_missing(chunks) =~= Seq::<u32>::empty());
    } else {
        assert(spec_missing(chunks) =~= Seq::<u32>::empty());
    }
}

/// The missing report is sound and complete: an index is reported missing
/// exactly when its chunk is absent.
pub proof fn lemma_missing_exact(chunks: Seq<Option<Vec<u8>>>, i: int)
    requires
        chunks.len() <= u32::MAX,
        0 <= i < chunks.len(),
    ensures
        spec_missing(chunks).contains(i as u32) <==> chunks[i] is None,
    decreases chunks.len(),
{
    let last = (chunks.len() - 1) as int;
    if i == last {
        if chunks[i] is None {
            assert(spec_missing(chunks).last() == i as u32);
        } else {
            lemma_missing_below(chunks.drop_last());
            assert(spec_missing(chunks) == spec_missing(chunks.drop_last()));
        }
    } else {
        lemma_missing_exact(chunks.drop_last(), i);
        lemma_missing_below(chunks.drop_last());
        if chunks[i] is None {
            let j = choose|j: int|
                0 <= j < spec_missing(chunks.drop_last()).len() && spec_missing(
                    chunks.drop_last(),
                )[j] == i as u32;
            assert(spec_missing(chunks)[j] == i as u32);
        } else {
            if spec_missing(chunks).contains(i as u32) {
                let j = choose|j: int|
                    0 <= j < spec_missing(chunks).len() && spec_missing(chunks)[j] == i as u32;
                if j < spec_missing(chunks.drop_last()).len() {
                    assert(spec_missing(chunks.drop_last()).contains(i as u32));
                } else {
                    assert(spec_missing(chunks)[j] == last as u32);
                }
            }
        }
    }
}

/// Every index the missing report names lies below the chunk count.
proof fn lemma_missing_below(chunks: Seq<Option<Vec<u8>>>)
    requires
        chunks.len() <= u32::MAX,
    ensures
        forall|j: int|
            0 <= j < spec_missing(chunks).len() ==> (#[trigger] spec_missing(chunks)[j])
                < chunks.len(),
    decreases chunks.len(),
{
    if chunks.len() > 0 {
        lemma_missing_below(chunks.drop_last());
        assert forall|j: int|
            0 <= j < spec_missing(chunks).len() implies (#[trigger] spec_missing(chunks)[j])
            < chunks.len() by {
            if j < spec_missing(chunks.drop_last()).len() {
                assert(spec_missing(chunks)[j] == spec_missing(chunks.drop_last())[j]);
            } else {
                assert(spec_missing(chunks)[j] == (chunks.len() - 1) as u32);
            }
        }
    }
}

} // verus!
