use blockswap::partition::partition;
use blockswap::pipeline::{add_block_single_thread, aggregate, execution, run_pipeline, run_segments};
use blockswap::record::{
    create_data, create_data_result, transform, transform_back, BlockEntry, BlockEntryB,
};
use blockswap::verify::{equal, VerifyError};

fn entry(i: u64, seed: u8) -> BlockEntry {
    let mut block = [0u8; 512];
    let mut header = [0u8; 512];
    block[0] = seed;
    block[511] = seed.wrapping_add(1);
    header[0] = seed.wrapping_add(2);
    header[511] = seed.wrapping_add(3);
    BlockEntry { block, entry: header, size: i }
}

fn dataset(n: u64) -> Vec<BlockEntry> {
    (0..n).map(|i| entry(i, (i % 251) as u8)).collect()
}

fn is_swap_of(input: &BlockEntry, output: &BlockEntryB) -> bool {
    output.block == input.entry && output.entry == input.block && output.size == input.size
}

#[test]
fn transform_swaps_fields_and_keeps_sequence() {
    let r = entry(9, 40);
    let out = transform(&r);
    assert!(is_swap_of(&r, &out));
}

#[test]
fn transform_twice_restores_the_record() {
    let r = entry(3, 17);
    let out = transform(&r);
    let back = transform_back(&out);
    assert_eq!(back.block, r.block);
    assert_eq!(back.entry, r.entry);
    assert_eq!(back.size, r.size);
}

#[test]
fn create_data_is_self_indexing() {
    let data = create_data(5);
    assert_eq!(data.len(), 5);
    for (i, r) in data.iter().enumerate() {
        assert_eq!(r.size, i as u64);
    }
}

#[test]
fn create_data_result_is_zero_filled() {
    let data = create_data_result(4);
    assert_eq!(data.len(), 4);
    for (i, r) in data.iter().enumerate() {
        assert_eq!(r.size, i as u64);
        assert!(r.block.iter().all(|&b| b == 0));
        assert!(r.entry.iter().all(|&b| b == 0));
    }
}

#[test]
fn execution_transforms_one_segment_in_place() {
    let input = dataset(10);
    let mut buffer = create_data_result(4);
    execution(&input, &mut buffer, 3, 4);
    assert_eq!(buffer.len(), 4);
    for j in 0..4 {
        assert!(is_swap_of(&input[3 + j], &buffer[j]));
    }
}

#[test]
fn single_thread_pass_swaps_every_record() {
    let input = dataset(6);
    let output = add_block_single_thread(input.clone());
    assert_eq!(output.len(), 6);
    for i in 0..6 {
        assert!(is_swap_of(&input[i], &output[i]));
    }
}

#[test]
fn run_segments_fills_one_buffer_per_segment() {
    let input = dataset(7);
    let segs = partition(input.len(), 3);
    let outs = run_segments(&input, &segs);
    assert_eq!(outs.len(), segs.len());
    for (k, seg) in segs.iter().enumerate() {
        assert_eq!(outs[k].len(), seg.length);
        for j in 0..seg.length {
            assert!(is_swap_of(&input[seg.start + j], &outs[k][j]));
        }
    }
}

#[test]
fn aggregate_concatenates_in_segment_order() {
    let input = dataset(7);
    let segs = partition(input.len(), 3);
    let outs = run_segments(&input, &segs);
    let combined = aggregate(&outs);
    let reference = add_block_single_thread(input.clone());
    assert_eq!(combined.len(), reference.len());
    for i in 0..combined.len() {
        assert!(is_swap_of(&input[i], &combined[i]));
        assert_eq!(combined[i].block, reference[i].block);
        assert_eq!(combined[i].entry, reference[i].entry);
        assert_eq!(combined[i].size, reference[i].size);
    }
}

#[test]
fn pipeline_on_empty_dataset_verifies() {
    let input: Vec<BlockEntry> = Vec::new();
    let output = run_pipeline(&input, 4);
    assert_eq!(output.len(), 0);
    assert_eq!(equal(&input, &output), Ok(()));
}

#[test]
fn pipeline_on_one_record_swaps_it() {
    let input = dataset(1);
    let output = run_pipeline(&input, 1);
    assert_eq!(output.len(), 1);
    assert!(is_swap_of(&input[0], &output[0]));
    assert_eq!(equal(&input, &output), Ok(()));
}

#[test]
fn pipeline_with_remainder_verifies_at_every_index() {
    let input = dataset(7);
    let output = run_pipeline(&input, 3);
    assert_eq!(output.len(), 7);
    for i in 0..7 {
        assert!(is_swap_of(&input[i], &output[i]));
    }
    assert_eq!(equal(&input, &output), Ok(()));
}

#[test]
fn pipeline_verifies_for_every_segment_count() {
    let input = dataset(9);
    for k in 1..=input.len() {
        let output = run_pipeline(&input, k);
        assert_eq!(equal(&input, &output), Ok(()));
    }
}

#[test]
fn verifier_reports_corrupted_record() {
    let input = dataset(8);
    let mut output = run_pipeline(&input, 3);
    output[5].size = 999;
    assert_eq!(equal(&input, &output), Err(VerifyError::ValueMismatch { index: 5 }));
}

#[test]
fn verifier_reports_first_of_several_mismatches() {
    let input = dataset(8);
    let mut output = run_pipeline(&input, 2);
    output[2].block[0] = output[2].block[0].wrapping_add(1);
    output[6].size = 0;
    assert_eq!(equal(&input, &output), Err(VerifyError::ValueMismatch { index: 2 }));
}

#[test]
fn verifier_reports_length_mismatch() {
    let input = dataset(5);
    let mut output = run_pipeline(&input, 2);
    output.pop();
    assert_eq!(
        equal(&input, &output),
        Err(VerifyError::LengthMismatch { expected: 5, actual: 4 })
    );
}

#[test]
fn generated_dataset_runs_through_the_pipeline() {
    let input = create_data(64);
    let output = run_pipeline(&input, 5);
    assert_eq!(equal(&input, &output), Ok(()));
}
