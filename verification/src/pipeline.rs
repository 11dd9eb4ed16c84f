//! The execute/aggregate/verify part of the pipeline: transforming one
//! segment, reassembling the per-segment buffers in order, and checking the
//! result against the input.

use vstd::prelude::*;

use crate::partition::is_partition;
use crate::partition::Segment;
use crate::record::create_data_result;
use crate::record::swap_entry;
use crate::record::transform;
use crate::record::BlockEntry;
use crate::record::BlockEntryB;

verus! {

/// Whether `output` is, record for record, the field-swap transform of
/// `input`.
pub open spec fn all_swapped(input: Seq<BlockEntry>, output: Seq<BlockEntryB>) -> bool {
    &&& output.len() == input.len()
    &&& (forall|i: int| 0 <= i < input.len() ==> output[i] == swap_entry(#[trigger] input[i]))
}

/// The worker body: transforms the segment of `input` that starts at
/// `index` and covers `offset` records, writing the results into the
/// pre-allocated buffer `output`. Only `output` is mutated, so workers on
/// disjoint segments with separate buffers never interfere.
pub fn execution(input: &Vec<BlockEntry>, output: &mut Vec<BlockEntryB>, index: usize, offset: usize)
    requires
        index + offset <= input@.len(),
        old(output)@.len() == offset,
    ensures
        final(output)@.len() == offset,
        forall|j: int|
            0 <= j < offset ==> final(output)@[j] == swap_entry(#[trigger] input@[index + j]),
{
    let total = input.len();
    let mut j: usize = 0;
    while j < offset
        invariant
            j <= offset,
            index + offset <= total,
            total == input@.len(),
            output@.len() == offset,
            forall|t: int| 0 <= t < j ==> output@[t] == swap_entry(#[trigger] input@[index + t]),
        decreases offset - j,
    {
        let r = transform(&input[index + j]);
        output[j] = r;
        j = j + 1;
    }
}

/// The whole transform in one sequential pass: the reference the parallel
/// run is measured against and checked to agree with.
pub fn add_block_single_thread(blockentries: Vec<BlockEntry>) -> (res: Vec<BlockEntryB>)
    ensures
        all_swapped(blockentries@, res@),
{
    let mut res: Vec<BlockEntryB> = Vec::new();
    let mut i: usize = 0;
    while i < blockentries.len()
        invariant
            i <= blockentries@.len(),
            res@.len() == i,
            forall|t: int| 0 <= t < i ==> res@[t] == swap_entry(#[trigger] blockentries@[t]),
        decreases blockentries@.len() - i,
    {
        let r = transform(&blockentries[i]);
        res.push(r);
        i = i + 1;
    }
    res
}

/// The views of a sequence of buffers.
pub open spec fn views_of(outs: Seq<Vec<BlockEntryB>>) -> Seq<Seq<BlockEntryB>> {
    Seq::new(outs.len(), |k: int| outs[k]@)
}

/// Whether `outs` holds one buffer per segment of `segs`, each sized to its
/// segment and holding the transforms of that segment's input records.
pub open spec fn segment_outputs_ok(
    input: Seq<BlockEntry>,
    segs: Seq<Segment>,
    outs: Seq<Seq<BlockEntryB>>,
) -> bool {
    &&& outs.len() == segs.len()
    &&& (forall|k: int| 0 <= k < segs.len() ==> (#[trigger] outs[k]).len() == segs[k].length)
    &&& (forall|k: int, j: int|
        0 <= k < segs.len() && 0 <= j < segs[k].length ==> (#[trigger] outs[k][j]) == swap_entry(
            input[segs[k].start + j],
        ))
}

/// The concatenation of the first `k` buffer contents, in buffer order.
pub open spec fn concat_prefix(outs: Seq<Seq<BlockEntryB>>, k: int) -> Seq<BlockEntryB>
    decreases k,
{
    if k <= 0 {
        Seq::empty()
    } else {
        concat_prefix(outs, k - 1) + outs[k - 1]
    }
}

/// The concatenation of all buffer contents, in buffer order.
pub open spec fn concat_all(outs: Seq<Seq<BlockEntryB>>) -> Seq<BlockEntryB> {
    concat_prefix(outs, outs.len() as int)
}

/// Runs every segment of a partition over the shared input, giving each
/// worker body its own pre-allocated buffer, and returns the buffers in
/// segment order. This is the one-worker-per-segment batch run in program
/// order; the segments are independent, so a driver may equally run them
/// concurrently with one task per segment and collect the same buffers.
pub fn run_segments(input: &Vec<BlockEntry>, segs: &Vec<Segment>) -> (outs: Vec<Vec<BlockEntryB>>)
    requires
        is_partition(segs@, input@.len() as int),
    ensures
        segment_outputs_ok(input@, segs@, views_of(outs@)),
{
    proof {
        crate::partition::lemma_partition_coverage(segs@, input@.len() as int);
        assert forall|t: int| 0 <= t < segs@.len() implies (#[trigger] segs@[t]).start
            + segs@[t].length <= input@.len() by {
            if input@.len() > 0 {
                assert(crate::partition::seg_contains(segs@[t], segs@[t].start + segs@[t].length - 1));
            }
        }
    }
    let mut outs: Vec<Vec<BlockEntryB>> = Vec::new();
    let mut k: usize = 0;
    while k < segs.len()
        invariant
            k <= segs@.len(),
            forall|t: int|
                0 <= t < segs@.len() ==> (#[trigger] segs@[t]).start + segs@[t].length
                    <= input@.len(),
            outs@.len() == k,
            forall|t: int| 0 <= t < k ==> (#[trigger] outs@[t]@).len() == segs@[t].length,
            forall|t: int, j: int|
                0 <= t < k && 0 <= j < segs@[t].length ==> (#[trigger] outs@[t]@[j]) == swap_entry(
                    input@[segs@[t].start + j],
                ),
        decreases segs@.len() - k,
    {
        let seg = segs[k];
        let mut buf = create_data_result(seg.length as u64);
        execution(input, &mut buf, seg.start, seg.length);
        outs.push(buf);
        k = k + 1;
    }
    outs
}

/// Reassembles the per-segment buffers into the final output sequence by
/// order-preserving concatenation in segment order.
pub fn aggregate(outputs: &Vec<Vec<BlockEntryB>>) -> (result: Vec<BlockEntryB>)
    ensures
        result@ == concat_all(views_of(outputs@)),
{
    let mut result: Vec<BlockEntryB> = Vec::new();
    let mut k: usize = 0;
    while k < outputs.len()
        invariant
            k <= outputs@.len(),
            result@ == concat_prefix(views_of(outputs@), k as int),
        decreases outputs@.len() - k,
    {
        let buf_len = outputs[k].len();
        let mut j: usize = 0;
        while j < buf_len
            invariant
                k < outputs@.len(),
                buf_len == outputs@[k as int]@.len(),
                j <= buf_len,
                result@ == concat_prefix(views_of(outputs@), k as int) + outputs@[k as int]@.take(
                    j as int,
                ),
            decreases buf_len - j,
        {
            let x = outputs[k][j];
            result.push(x);
            proof {
                assert(outputs@[k as int]@.take(j + 1) =~= outputs@[k as int]@.take(j as int).push(
                    outputs@[k as int]@[j as int],
                ));
            }
            j = j + 1;
        }
        proof {
            assert(outputs@[k as int]@.take(buf_len as int) =~= views_of(outputs@)[k as int]);
        }
        k = k + 1;
    }
    result
}

/// The whole pipeline in one call: partitions the input's index range,
/// runs every segment, and reassembles the buffers into the final ordered
/// output, which is, record for record, the transform of the input.
pub fn run_pipeline(input: &Vec<BlockEntry>, segment_count: usize) -> (result: Vec<BlockEntryB>)
    requires
        segment_count >= 1,
    ensures
        all_swapped(input@, result@),
{
    let segs = crate::partition::partition(input.len(), segment_count);
    let outs = run_segments(input, &segs);
    let result = aggregate(&outs);
    proof {
        lemma_aggregate_preserves_order(input@, segs@, views_of(outs@));
    }
    result
}

/// The global index one past the last index of the first `k` segments.
spec fn seg_end(segs: Seq<Segment>, k: int) -> int {
    if k <= 0 {
        0
    } else {
        segs[k - 1].start + segs[k - 1].length
    }
}

/// The concatenation of the first `k` buffers of a partition run covers the
/// global indices `[0, seg_end(segs, k))`, and at every one of them holds
/// the transform of the input record at the same index.
proof fn lemma_concat_prefix_correct(
    input: Seq<BlockEntry>,
    segs: Seq<Segment>,
    outs: Seq<Seq<BlockEntryB>>,
    k: int,
)
    requires
        is_partition(segs, input.len() as int),
        segment_outputs_ok(input, segs, outs),
        0 <= k <= segs.len(),
    ensures
        concat_prefix(outs, k).len() == seg_end(segs, k),
        forall|i: int|
            0 <= i < seg_end(segs, k) ==> #[trigger] concat_prefix(outs, k)[i] == swap_entry(
                input[i],
            ),
    decreases k,
{
    if k > 0 {
        lemma_concat_prefix_correct(input, segs, outs, k - 1);
        assert(seg_end(segs, k - 1) == segs[k - 1].start);
        assert forall|i: int| 0 <= i < seg_end(segs, k) implies #[trigger] concat_prefix(outs, k)[i]
            == swap_entry(input[i]) by {
            if i < seg_end(segs, k - 1) {
                assert(concat_prefix(outs, k)[i] == concat_prefix(outs, k - 1)[i]);
            } else {
                assert(outs[k - 1][i - segs[k - 1].start] == swap_entry(
                    input[segs[k - 1].start + (i - segs[k - 1].start)],
                ));
            }
        }
    }
}

/// Order preservation and completeness: reassembling the buffers of a full
/// partition run yields exactly one output record per input record, and the
/// record at every global index is the transform of the input record at
/// that same index — the concatenation restores the original order.
pub proof fn lemma_aggregate_preserves_order(
    input: Seq<BlockEntry>,
    segs: Seq<Segment>,
    outs: Seq<Seq<BlockEntryB>>,
)
    requires
        is_partition(segs, input.len() as int),
        segment_outputs_ok(input, segs, outs),
    ensures
        concat_all(outs).len() == input.len(),
        all_swapped(input, concat_all(outs)),
{
    lemma_concat_prefix_correct(input, segs, outs, segs.len() as int);
    if segs.len() == 0 {
        assert(input.len() == 0);
    }
}

} // verus!
