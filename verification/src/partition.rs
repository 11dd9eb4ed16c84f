//! The partitioner: splits the index range `[0, total)` of a dataset into
//! contiguous, non-overlapping segments, one per worker.

use vstd::arithmetic::div_mod::lemma_fundamental_div_mod;
use vstd::arithmetic::div_mod::lemma_div_non_zero;
use vstd::arithmetic::div_mod::lemma_remainder_lower;
use vstd::arithmetic::mul::lemma_mul_is_commutative;
use vstd::arithmetic::mul::lemma_mul_is_distributive_sub;
use vstd::arithmetic::mul::lemma_mul_inequality;
use vstd::prelude::*;

verus! {

/// A segment descriptor: a contiguous range of dataset indices, starting at
/// `start` and covering `length` indices.
#[derive(Clone, Copy, PartialEq, Eq, Structural)]
pub struct Segment {
    pub start: usize,
    pub length: usize,
}

/// Whether index `i` falls inside segment `s`.
pub open spec fn seg_contains(s: Segment, i: int) -> bool {
    s.start <= i < s.start + s.length
}

/// Whether `segs` is an exact partition of `[0, total)`: the segments are
/// non-empty, consecutive segments are adjacent, the first starts at 0 and
/// the last ends at `total`. A dataset of size 0 is covered by zero
/// segments.
pub open spec fn is_partition(segs: Seq<Segment>, total: int) -> bool {
    &&& total >= 0
    &&& (total == 0 ==> segs.len() == 0)
    &&& (total > 0 ==> {
        &&& segs.len() >= 1
        &&& segs[0].start == 0
        &&& (forall|k: int| 0 <= k < segs.len() ==> (#[trigger] segs[k]).length >= 1)
        &&& (forall|k: int|
            0 <= k < segs.len() - 1 ==> (#[trigger] segs[k]).start + segs[k].length
                == segs[k + 1].start)
        &&& segs[segs.len() - 1].start + segs[segs.len() - 1].length == total
    })
}

/// How many segments a dataset of `total` records is split into when
/// `segment_count` are requested: `segment_count`, collapsed so that no
/// segment is empty, and zero segments for an empty dataset.
pub open spec fn seg_count_for(total: int, segment_count: int) -> int {
    if total == 0 {
        0
    } else if segment_count <= total {
        segment_count
    } else {
        total
    }
}

/// The size of every segment but the last: the even share of `total` over
/// the collapsed segment count.
pub open spec fn base_seg_len(total: int, segment_count: int) -> int {
    if total == 0 {
        0
    } else {
        total / seg_count_for(total, segment_count)
    }
}

/// Splits the index range `[0, total)` into non-empty segments under the
/// even-split policy: with `n = min(segment_count, total)` segments, the
/// first `n - 1` cover `total / n` indices each and the last absorbs the
/// remainder, so no index is dropped. An empty dataset yields zero
/// segments.
pub fn partition(total: usize, segment_count: usize) -> (segs: Vec<Segment>)
    requires
        segment_count >= 1,
    ensures
        is_partition(segs@, total as int),
        segs@.len() == seg_count_for(total as int, segment_count as int),
        forall|k: int|
            0 <= k < segs@.len() - 1 ==> (#[trigger] segs@[k]).length == base_seg_len(
                total as int,
                segment_count as int,
            ),
{
    if total == 0 {
        return Vec::new();
    }
    let n: usize = if segment_count <= total {
        segment_count
    } else {
        total
    };
    let base: usize = total / n;
    proof {
        lemma_div_non_zero(total as int, n as int);
        lemma_remainder_lower(total as int, n as int);
        lemma_mul_is_commutative(base as int, n as int);
        assert(n * base <= total);
    }
    let mut segs: Vec<Segment> = Vec::new();
    let mut start: usize = 0;
    let mut k: usize = 0;
    while k < n - 1
        invariant
            1 <= n <= total,
            base == total as int / n as int,
            1 <= base,
            k <= n - 1,
            segs@.len() == k,
            k >= 1 ==> segs@[0].start == 0,
            k == 0 ==> start == 0,
            k >= 1 ==> segs@[k - 1].start + base == start,
            forall|j: int| 0 <= j < k ==> (#[trigger] segs@[j]).length == base,
            forall|j: int| 0 <= j < k - 1 ==> (#[trigger] segs@[j]).start + base == segs@[j
                + 1].start,
            (n - k) * base <= total - start,
        decreases n - 1 - k,
    {
        proof {
            lemma_mul_inequality(1, n - k, base as int);
            assert(1 * base == base);
            lemma_mul_is_distributive_sub(base as int, n - k, 1);
            lemma_mul_is_commutative(base as int, n - k);
            lemma_mul_is_commutative(base as int, n - k - 1);
        }
        segs.push(Segment { start, length: base });
        start = start + base;
        k = k + 1;
    }
    proof {
        lemma_mul_inequality(1, n - k, base as int);
        assert(1 * base == base);
        lemma_mul_is_commutative(base as int, n - k);
    }
    segs.push(Segment { start, length: total - start });
    segs
}

/// Whether some segment of `segs` contains index `i`.
pub open spec fn covered(segs: Seq<Segment>, i: int) -> bool {
    exists|k: int| 0 <= k < segs.len() && seg_contains(segs[k], i)
}

/// The end of one segment never exceeds the start of a later one.
proof fn lemma_end_le_later_start(segs: Seq<Segment>, total: int, k1: int, k2: int)
    requires
        is_partition(segs, total),
        total > 0,
        0 <= k1 < k2 < segs.len(),
    ensures
        segs[k1].start + segs[k1].length <= segs[k2].start,
    decreases k2 - k1,
{
    if k1 + 1 < k2 {
        lemma_end_le_later_start(segs, total, k1 + 1, k2);
    }
}

/// Every index at or past a segment's start and below `total` falls inside
/// that segment or a later one.
proof fn lemma_cover_from(segs: Seq<Segment>, total: int, i: int, k: int)
    requires
        is_partition(segs, total),
        total > 0,
        0 <= k < segs.len(),
        segs[k].start <= i < total,
    ensures
        exists|j: int| k <= j < segs.len() && seg_contains(segs[j], i),
    decreases segs.len() - k,
{
    if i < segs[k].start + segs[k].length {
        assert(seg_contains(segs[k], i));
    } else {
        assert(k < segs.len() - 1);
        lemma_cover_from(segs, total, i, k + 1);
    }
}

/// A segment's indices all lie below `total`.
proof fn lemma_seg_below_total(segs: Seq<Segment>, total: int, k: int)
    requires
        is_partition(segs, total),
        total > 0,
        0 <= k < segs.len(),
    ensures
        segs[k].start + segs[k].length <= total,
{
    if k < segs.len() - 1 {
        lemma_end_le_later_start(segs, total, k, segs.len() - 1);
    }
}

/// Partition coverage: the segments of a partition of `[0, total)` are
/// ordered by `start`, pairwise disjoint, stay inside `[0, total)`, and
/// together cover every index of `[0, total)`.
pub proof fn lemma_partition_coverage(segs: Seq<Segment>, total: int)
    requires
        is_partition(segs, total),
    ensures
        forall|i: int| 0 <= i < total ==> #[trigger] covered(segs, i),
        forall|k: int, i: int|
            0 <= k < segs.len() && #[trigger] seg_contains(segs[k], i) ==> 0 <= i < total,
        forall|k1: int, k2: int, i: int|
            0 <= k1 < k2 < segs.len() && #[trigger] seg_contains(segs[k1], i)
                ==> !(#[trigger] seg_contains(segs[k2], i)),
        forall|k1: int, k2: int|
            0 <= k1 < k2 < segs.len() ==> (#[trigger] segs[k1]).start < (#[trigger] segs[k2]).start,
{
    if total > 0 {
        assert forall|i: int| 0 <= i < total implies #[trigger] covered(segs, i) by {
            lemma_cover_from(segs, total, i, 0);
        }
        assert forall|k: int, i: int|
            0 <= k < segs.len() && #[trigger] seg_contains(segs[k], i) implies 0 <= i < total by {
            lemma_seg_below_total(segs, total, k);
        }
        assert forall|k1: int, k2: int, i: int|
            0 <= k1 < k2 < segs.len() && #[trigger] seg_contains(segs[k1], i) implies !(
        #[trigger] seg_contains(segs[k2], i)) by {
            lemma_end_le_later_start(segs, total, k1, k2);
        }
        assert forall|k1: int, k2: int| 0 <= k1 < k2 < segs.len() implies (
        #[trigger] segs[k1]).start < (#[trigger] segs[k2]).start by {
            lemma_end_le_later_start(segs, total, k1, k2);
        }
    }
}

} // verus!
