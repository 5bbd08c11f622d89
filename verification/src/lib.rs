use vstd::prelude::*;

pub mod coordinator;
pub mod fetcher;
pub mod filename;
pub mod planner;
pub mod probe;
pub mod reassembler;
pub mod staging;

use crate::planner::{chunk_len, spec_chunk_count, spec_plan, ChunkRange};
use crate::probe::{header_view, spec_content_length, spec_supports_ranges, ProbeError, Resource};
use crate::reassembler::{spec_concat, spec_missing};

verus! {

/// Decides whether a probed resource can be downloaded in ranged chunks and,
/// when it can, plans the chunks. A server without byte-range support is
/// rejected before any plan exists — unconditionally, which is why the
/// machine limits are asked only of resources with range support; for those
/// the planned ranges come back, empty for an empty resource.
pub fn prepare_download(resource: &Resource, max_chunks: u64) -> (r: Result<
    Vec<ChunkRange>,
    ProbeError,
>)
    requires
        resource.supports_ranges ==> max_chunks >= 1 && spec_chunk_count(
            resource.total_size,
            max_chunks,
        ) <= u32::MAX,
    ensures
        r is Ok <==> resource.supports_ranges,
        !resource.supports_ranges ==> r == Err::<Vec<ChunkRange>, ProbeError>(
            ProbeError::RangeUnsupported,
        ),
        r matches Ok(p) ==> p@ == spec_plan(resource.total_size, max_chunks),
{
    if !resource.supports_ranges {
        return Err(ProbeError::RangeUnsupported);
    }
    Ok(crate::planner::plan(resource.total_size, max_chunks))
}

/// The whole decision path from one probe response to a plan. A non-success
/// status is refused as a `Server` error; a success whose `Accept-Ranges`
/// value is not exactly `bytes` is refused as `RangeUnsupported` — in both
/// cases before any plan exists, so no fetch runs and no staging area is made
/// for such a response; only a success that announces range support comes
/// back with the resource and its planned ranges.
pub fn probe_and_prepare(
    url: String,
    status: u16,
    accept_ranges: Option<Vec<u8>>,
    content_length: Option<Vec<u8>>,
    max_chunks: u64,
) -> (r: Result<(Resource, Vec<ChunkRange>), ProbeError>)
    requires
        ((200 <= status < 300) && spec_supports_ranges(header_view(accept_ranges)))
            ==> max_chunks >= 1 && spec_chunk_count(
            spec_content_length(header_view(content_length)),
            max_chunks,
        ) <= u32::MAX,
    ensures
        r is Ok <==> ((200 <= status < 300) && spec_supports_ranges(header_view(accept_ranges))),
        !(200 <= status < 300) ==> r == Err::<(Resource, Vec<ChunkRange>), ProbeError>(
            ProbeError::Server(status),
        ),
        ((200 <= status < 300) && !spec_supports_ranges(header_view(accept_ranges))) ==> r
            == Err::<(Resource, Vec<ChunkRange>), ProbeError>(ProbeError::RangeUnsupported),
        r matches Ok(p) ==> {
            &&& p.0.url@ == url@
            &&& p.0.total_size == spec_content_length(header_view(content_length))
            &&& p.0.supports_ranges
            &&& p.1@ == spec_plan(spec_content_length(header_view(content_length)), max_chunks)
        },
{
    match crate::probe::evaluate_probe(url, status, accept_ranges, content_length) {
        Err(e) => Err(e),
        Ok(resource) => match prepare_download(&resource, max_chunks) {
            Err(e) => Err(e),
            Ok(plan) => Ok((resource, plan)),
        },
    }
}

/// When every chunk of a plan is fetched and staged with exactly its range's
/// bytes, reassembly reports nothing missing and the output holds exactly as
/// many bytes as the whole resource.
pub proof fn lemma_full_run_output_size(
    total_size: u64,
    max_chunks: u64,
    chunks: Seq<Option<Vec<u8>>>,
)
    requires
        max_chunks >= 1,
        chunks.len() == spec_plan(total_size, max_chunks).len(),
        forall|i: int|
            0 <= i < chunks.len() ==> (#[trigger] chunks[i]) is Some && chunks[i]->0@.len()
                == chunk_len(spec_plan(total_size, max_chunks)[i]),
    ensures
        spec_missing(chunks) == Seq::<u32>::empty(),
        spec_concat(chunks).len() == total_size,
{
    crate::reassembler::lemma_assemble_complete(spec_plan(total_size, max_chunks), chunks);
    crate::planner::lemma_plan_total_len(total_size, max_chunks);
}

} // verus!
