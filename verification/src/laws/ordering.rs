//! Promises about orders and ranges.
use vstd::prelude::*;

verus! {

/// A stable order of keys names each position once, smaller keys first, and of equal keys the
/// one that stands first.
pub proof fn stable_orders(keys: Seq<u64>, order: Seq<usize>, i: int, j: int, p: int)
    requires
        crate::order::stably_sorts(keys, order),
        0 <= i < j < order.len(),
        0 <= p < keys.len(),
    ensures
        order.len() == keys.len(),
        order[i] < keys.len(),
        keys[order[i] as int] < keys[order[j] as int] || (keys[order[i] as int]
            == keys[order[j] as int] && order[i] < order[j]),
        exists|k: int| 0 <= k < order.len() && #[trigger] order[k] == p,
{
    assert(crate::order::precedes(keys, order[i] as int, order[j] as int));
    assert(crate::order::listed(order, p));
}

/// Merging makes one range of all that overlap or touch: the merged ranges lie apart, with
/// something between each and the next, and a point, counted in halves so that borders are
/// told from what lies between, is in one of them exactly if it was in a range before.
pub proof fn merged_ranges(merged: Seq<(usize, usize)>, ranges: Seq<(usize, usize)>, half: int)
    requires
        crate::ranges::merged_from(merged, ranges),
        forall|i: int| 0 <= i < ranges.len() ==> (#[trigger] ranges[i]).0 <= ranges[i].1,
    ensures
        forall|i: int, j: int|
            0 <= i < j < merged.len() ==> (#[trigger] merged[i]).1 < (#[trigger] merged[j]).0,
        forall|i: int| 0 <= i < merged.len() ==> (#[trigger] merged[i]).0 <= merged[i].1,
        (exists|i: int|
            0 <= i < merged.len() && 2 * (#[trigger] merged[i]).0 <= half && half <= 2
                * merged[i].1) <==> (exists|i: int|
            0 <= i < ranges.len() && 2 * (#[trigger] ranges[i]).0 <= half && half <= 2
                * ranges[i].1),
{
    crate::ranges::merged_touches_the_same(merged, ranges);
    assert(crate::ranges::touched(merged, half) <==> crate::ranges::touched(ranges, half));
}

} // verus!
