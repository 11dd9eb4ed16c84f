//! The record model: a fixed-shape unit of data carrying two 512-byte
//! payloads and a sequence number, together with the field-swap transform
//! that the pipeline applies to every record.

use vstd::prelude::*;

verus! {

/// An input record: two 512-byte payloads and a sequence number. In a
/// freshly generated dataset, `size` equals the record's zero-based
/// position, so records are self-indexing.
#[verifier::ext_equal]
#[derive(Clone, Copy)]
pub struct BlockEntry {
    pub block: [u8; 512],
    pub entry: [u8; 512],
    pub size: u64,
}

/// An output record, of the same shape as [`BlockEntry`]. Output buffers are
/// pre-allocated with placeholder values of this type and then overwritten
/// by the workers.
#[verifier::ext_equal]
#[derive(Clone, Copy)]
pub struct BlockEntryB {
    pub block: [u8; 512],
    pub entry: [u8; 512],
    pub size: u64,
}

/// The field-swap transform: the single rule governing correctness of the
/// pipeline. The two payloads change places and the sequence number is kept.
pub open spec fn swap_entry(r: BlockEntry) -> BlockEntryB {
    BlockEntryB { block: r.entry, entry: r.block, size: r.size }
}

/// The field-swap transform in the other direction, from an output record
/// back to an input record.
pub open spec fn swap_back(r: BlockEntryB) -> BlockEntry {
    BlockEntry { block: r.entry, entry: r.block, size: r.size }
}

/// Swapping the payloads twice returns the original record, and the
/// sequence number is invariant under the transform.
pub proof fn lemma_swap_involution(r: BlockEntry)
    ensures
        swap_back(swap_entry(r)) == r,
        swap_entry(r).size == r.size,
{
}

/// Applies the field-swap transform to one record.
pub fn transform(r: &BlockEntry) -> (out: BlockEntryB)
    ensures
        out == swap_entry(*r),
{
    BlockEntryB { block: r.entry, entry: r.block, size: r.size }
}

/// Applies the field-swap transform to an output record, recovering the
/// input record it was derived from.
pub fn transform_back(r: &BlockEntryB) -> (out: BlockEntry)
    ensures
        out == swap_back(*r),
{
    BlockEntry { block: r.entry, entry: r.block, size: r.size }
}

/// Relies on rand's `StdRng::from_entropy` and `Rng::fill` to overwrite the
/// array with bytes drawn from the operating system's entropy source. The
/// bytes are arbitrary, so nothing is promised of the contents; the call
/// aborts the process if the entropy source fails.
#[verifier::external_body]
fn fill_with_random_numbers(array: &mut [u8; 512]) {
    let mut rng = <rand::rngs::StdRng as rand::SeedableRng>::from_entropy();
    rand::Rng::fill(&mut rng, array);
}

/// Generates an input dataset of `num` records with arbitrary payloads.
/// Only the sequence numbers are load-bearing for the pipeline: record `i`
/// carries `size == i`, so the dataset is self-indexing.
pub fn create_data(num: u64) -> (data: Vec<BlockEntry>)
    ensures
        data@.len() == num,
        forall|i: int| 0 <= i < num ==> (#[trigger] data@[i]).size == i,
{
    let mut data: Vec<BlockEntry> = Vec::new();
    let mut i: u64 = 0;
    while i < num
        invariant
            i <= num,
            data@.len() == i,
            forall|j: int| 0 <= j < i ==> (#[trigger] data@[j]).size == j,
        decreases num - i,
    {
        let mut a: [u8; 512] = [0; 512];
        let mut b: [u8; 512] = [0; 512];
        fill_with_random_numbers(&mut a);
        fill_with_random_numbers(&mut b);
        data.push(BlockEntry { block: a, entry: b, size: i });
        i = i + 1;
    }
    data
}

/// Pre-allocates an output buffer of `num` placeholder records: both
/// payloads are zero-filled and record `i` carries `size == i`.
pub fn create_data_result(num: u64) -> (data: Vec<BlockEntryB>)
    ensures
        data@.len() == num,
        forall|i: int| 0 <= i < num ==> (#[trigger] data@[i]).size == i,
        forall|i: int, k: int|
            0 <= i < num && 0 <= k < 512 ==> (#[trigger] data@[i].block@[k]) == 0
                && data@[i].entry@[k] == 0,
{
    let mut data: Vec<BlockEntryB> = Vec::new();
    let mut i: u64 = 0;
    while i < num
        invariant
            i <= num,
            data@.len() == i,
            forall|j: int| 0 <= j < i ==> (#[trigger] data@[j]).size == j,
            forall|j: int, k: int|
                0 <= j < i && 0 <= k < 512 ==> (#[trigger] data@[j].block@[k]) == 0
                    && data@[j].entry@[k] == 0,
        decreases num - i,
    {
        let a: [u8; 512] = [0; 512];
        let b: [u8; 512] = [0; 512];
        data.push(BlockEntryB { block: a, entry: b, size: i });
        i = i + 1;
    }
    data
}

} // verus!
