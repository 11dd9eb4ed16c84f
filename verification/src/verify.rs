//! The verifier: checks the reassembled output sequence against the input,
//! record for record, under the field-swap rule.

use vstd::prelude::*;

use crate::partition::is_partition;
use crate::partition::Segment;
use crate::pipeline::all_swapped;
use crate::pipeline::concat_all;
use crate::pipeline::segment_outputs_ok;
use crate::record::swap_entry;
use crate::record::BlockEntry;
use crate::record::BlockEntryB;

verus! {

/// Why a verification run failed: the output has the wrong length, or some
/// output record is not the transform of its input record. The two are
/// distinct error kinds; either one is fatal.
#[derive(Clone, Copy, Debug, PartialEq, Eq, Structural)]
pub enum VerifyError {
    LengthMismatch { expected: usize, actual: usize },
    ValueMismatch { index: usize },
}

/// The verdict of scanning `output` against `input` from index `i` on:
/// the first mismatching index at or after `i`, if there is one.
pub open spec fn verify_from(
    input: Seq<BlockEntry>,
    output: Seq<BlockEntryB>,
    i: int,
) -> Result<(), VerifyError>
    decreases input.len() - i,
{
    if i >= input.len() {
        Ok(())
    } else if output[i] != swap_entry(input[i]) {
        Err(VerifyError::ValueMismatch { index: i as usize })
    } else {
        verify_from(input, output, i + 1)
    }
}

/// The verdict the verifier owes: a length mismatch is reported as such,
/// otherwise the first index whose record is not the transform of its
/// input record, otherwise success.
pub open spec fn verify_spec(input: Seq<BlockEntry>, output: Seq<BlockEntryB>) -> Result<
    (),
    VerifyError,
> {
    if output.len() != input.len() {
        Err(
            (VerifyError::LengthMismatch {
                expected: input.len() as usize,
                actual: output.len() as usize,
            }),
        )
    } else {
        verify_from(input, output, 0)
    }
}

/// The scan from `i` succeeds exactly when every record from `i` on
/// matches.
proof fn lemma_verify_from_ok(input: Seq<BlockEntry>, output: Seq<BlockEntryB>, i: int)
    requires
        output.len() == input.len(),
        0 <= i <= input.len(),
    ensures
        (verify_from(input, output, i) is Ok) <==> (forall|j: int|
            i <= j < input.len() ==> output[j] == swap_entry(#[trigger] input[j])),
    decreases input.len() - i,
{
    if i < input.len() {
        lemma_verify_from_ok(input, output, i + 1);
    }
}

/// The verifier succeeds exactly when the output is, record for record,
/// the transform of the input.
pub proof fn lemma_verify_spec_ok(input: Seq<BlockEntry>, output: Seq<BlockEntryB>)
    ensures
        (verify_spec(input, output) is Ok) <==> all_swapped(input, output),
{
    if output.len() == input.len() {
        lemma_verify_from_ok(input, output, 0);
    }
}

/// Compares two payloads byte for byte.
fn bytes_equal(a: &[u8; 512], b: &[u8; 512]) -> (r: bool)
    ensures
        r <==> a@ == b@,
{
    let mut i: usize = 0;
    while i < 512
        invariant
            i <= 512,
            forall|j: int| 0 <= j < i ==> a@[j] == b@[j],
        decreases 512 - i,
    {
        if a[i] != b[i] {
            return false;
        }
        i = i + 1;
    }
    proof {
        assert(a@ =~= b@);
    }
    true
}

/// Decides whether output record `b` is the field-swap transform of input
/// record `a`.
fn record_matches(a: &BlockEntry, b: &BlockEntryB) -> (r: bool)
    ensures
        r <==> *b == swap_entry(*a),
{
    if !bytes_equal(&b.block, &a.entry) {
        return false;
    }
    if !bytes_equal(&b.entry, &a.block) {
        return false;
    }
    if b.size != a.size {
        return false;
    }
    proof {
        assert(b.block =~= a.entry);
        assert(b.entry =~= a.block);
        assert(*b =~= swap_entry(*a));
    }
    true
}

/// Checks the reassembled output against the input: the lengths must agree
/// and every output record must be the transform of the input record at
/// the same index. Reports a wrong length as its own error kind and
/// otherwise the first mismatching index; succeeds exactly when the whole
/// output is correct.
pub fn equal(blockentries: &Vec<BlockEntry>, result: &Vec<BlockEntryB>) -> (r: Result<
    (),
    VerifyError,
>)
    ensures
        r == verify_spec(blockentries@, result@),
        (r is Ok) <==> all_swapped(blockentries@, result@),
{
    let n = blockentries.len();
    if result.len() != n {
        return Err(VerifyError::LengthMismatch { expected: n, actual: result.len() });
    }
    let mut i: usize = 0;
    while i < n
        invariant
            n == blockentries@.len(),
            result@.len() == n,
            i <= n,
            forall|j: int| 0 <= j < i ==> result@[j] == swap_entry(#[trigger] blockentries@[j]),
            verify_from(blockentries@, result@, 0) == verify_from(blockentries@, result@, i as int),
        decreases n - i,
    {
        if !record_matches(&blockentries[i], &result[i]) {
            return Err(VerifyError::ValueMismatch { index: i });
        }
        i = i + 1;
    }
    Ok(())
}

/// Verification is owed to succeed on the assembled result of a full
/// partition run: for any valid partition of the input and any buffers a
/// run over it produced, the reassembled output passes the verifier.
pub proof fn lemma_pipeline_verifies(
    input: Seq<BlockEntry>,
    segs: Seq<Segment>,
    outs: Seq<Seq<BlockEntryB>>,
)
    requires
        is_partition(segs, input.len() as int),
        segment_outputs_ok(input, segs, outs),
    ensures
        verify_spec(input, concat_all(outs)) is Ok,
{
    crate::pipeline::lemma_aggregate_preserves_order(input, segs, outs);
    lemma_verify_spec_ok(input, concat_all(outs));
}

} // verus!
