use blockswap::partition::partition;

#[test]
fn partition_empty_dataset() {
    let segs = partition(0, 4);
    assert_eq!(segs.len(), 0);
}

#[test]
fn partition_single_record() {
    let segs = partition(1, 1);
    assert_eq!(segs.len(), 1);
    assert_eq!(segs[0].start, 0);
    assert_eq!(segs[0].length, 1);
}

#[test]
fn partition_even_split_remainder_to_last() {
    let segs = partition(7, 3);
    assert_eq!(segs.len(), 3);
    assert_eq!((segs[0].start, segs[0].length), (0, 2));
    assert_eq!((segs[1].start, segs[1].length), (2, 2));
    assert_eq!((segs[2].start, segs[2].length), (4, 3));
}

#[test]
fn partition_collapses_when_more_segments_than_records() {
    let segs = partition(3, 10);
    assert_eq!(segs.len(), 3);
    for (k, seg) in segs.iter().enumerate() {
        assert_eq!(seg.start, k);
        assert_eq!(seg.length, 1);
    }
}

#[test]
fn partition_covers_every_index_exactly_once() {
    let total = 10;
    let segs = partition(total, 3);
    let mut seen = vec![0u32; total];
    for seg in &segs {
        for i in seg.start..seg.start + seg.length {
            seen[i] += 1;
        }
    }
    for (i, count) in seen.iter().enumerate() {
        assert_eq!(*count, 1, "index {} covered {} times", i, count);
    }
}

#[test]
fn partition_is_ordered_by_start() {
    let segs = partition(100, 7);
    for w in segs.windows(2) {
        assert!(w[0].start < w[1].start);
        assert_eq!(w[0].start + w[0].length, w[1].start);
    }
    assert_eq!(segs[0].start, 0);
    let last = segs.last().unwrap();
    assert_eq!(last.start + last.length, 100);
}
