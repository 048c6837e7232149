//! Stable sorting by a numeric key.
use vstd::prelude::*;

verus! {

/// Position `a` comes before position `b`: by the smaller key, and for equal keys by
/// the smaller position.
pub open spec fn precedes(keys: Seq<u64>, a: int, b: int) -> bool {
    keys[a] < keys[b] || (keys[a] == keys[b] && a < b)
}

/// `order` lists the positions from `from` to `to`, each once, in the order in which a
/// stable sort of `keys` by increasing key puts them.
pub open spec fn sorts(keys: Seq<u64>, from: int, to: int, order: Seq<usize>) -> bool {
    &&& order.len() == to - from
    &&& forall|i: int| 0 <= i < order.len() ==> from <= #[trigger] order[i] < to
    &&& forall|i: int, j: int|
        0 <= i < j < order.len() ==> precedes(
            keys,
            #[trigger] order[i] as int,
            #[trigger] order[j] as int,
        )
    &&& forall|p: int| from <= p < to ==> #[trigger] listed(order, p)
}

/// `order` holds the position `p`.
pub open spec fn listed(order: Seq<usize>, p: int) -> bool {
    exists|i: int| 0 <= i < order.len() && #[trigger] order[i] == p
}

/// `order` is the stable order of all of `keys`, by increasing key.
pub open spec fn stably_sorts(keys: Seq<u64>, order: Seq<usize>) -> bool {
    sorts(keys, 0, keys.len() as int, order)
}

/// There is one stable order only.
pub proof fn stable_order_is_unique(keys: Seq<u64>, a: Seq<usize>, b: Seq<usize>)
    requires
        stably_sorts(keys, a),
        stably_sorts(keys, b),
    ensures
        a == b,
{
    assert forall|i: int| 0 <= i < a.len() implies a[i] == b[i] by {
        agree_up_to(keys, a, b, i);
    }
}

proof fn agree_up_to(keys: Seq<u64>, a: Seq<usize>, b: Seq<usize>, i: int)
    requires
        stably_sorts(keys, a),
        stably_sorts(keys, b),
        0 <= i < a.len(),
    ensures
        a[i] == b[i],
    decreases i,
{
    assert forall|j: int| 0 <= j < i implies a[j] == b[j] by {
        agree_up_to(keys, a, b, j);
    }
    if a[i] != b[i] {
        assert(listed(b, a[i] as int));
        assert(listed(a, b[i] as int));
        let j = choose|j: int| 0 <= j < b.len() && b[j] == a[i];
        let k = choose|k: int| 0 <= k < a.len() && a[k] == b[i];
        assert(j > i && k > i);
        assert(precedes(keys, b[i] as int, b[j] as int));
        assert(precedes(keys, a[i] as int, a[k] as int));
    }
}

fn merge(
    keys: &Vec<u64>,
    left: Vec<usize>,
    right: Vec<usize>,
    Ghost(from): Ghost<int>,
    Ghost(mid): Ghost<int>,
    Ghost(to): Ghost<int>,
) -> (merged: Vec<usize>)
    requires
        0 <= from <= mid <= to <= keys.len(),
        sorts(keys@, from, mid, left@),
        sorts(keys@, mid, to, right@),
    ensures
        sorts(keys@, from, to, merged@),
{
    let mut merged: Vec<usize> = Vec::new();
    let mut i: usize = 0;
    let mut j: usize = 0;
    while i < left.len() || j < right.len()
        invariant
            0 <= from <= mid <= to <= keys.len(),
            sorts(keys@, from, mid, left@),
            sorts(keys@, mid, to, right@),
            i <= left.len(),
            j <= right.len(),
            merged.len() == i + j,
            forall|m: int| 0 <= m < merged.len() ==> from <= #[trigger] merged@[m] < to,
            forall|m: int, n: int|
                0 <= m < n < merged.len() ==> precedes(
                    keys@,
                    #[trigger] merged@[m] as int,
                    #[trigger] merged@[n] as int,
                ),
            forall|m: int, n: int|
                0 <= m < merged.len() && i <= n < left.len() ==> precedes(
                    keys@,
                    #[trigger] merged@[m] as int,
                    #[trigger] left@[n] as int,
                ),
            forall|m: int, n: int|
                0 <= m < merged.len() && j <= n < right.len() ==> precedes(
                    keys@,
                    #[trigger] merged@[m] as int,
                    #[trigger] right@[n] as int,
                ),
            forall|n: int| 0 <= n < i ==> listed(merged@, #[trigger] left@[n] as int),
            forall|n: int| 0 <= n < j ==> listed(merged@, #[trigger] right@[n] as int),
        decreases left.len() - i + right.len() - j,
    {
        let take_left = if i == left.len() {
            false
        } else if j == right.len() {
            true
        } else {
            keys[left[i]] <= keys[right[j]]
        };
        let ghost before = merged@;
        if take_left {
            merged.push(left[i]);
            i = i + 1;
        } else {
            merged.push(right[j]);
            j = j + 1;
        }
        proof {
            assert(merged@[before.len() as int] == merged@.last());
            assert forall|p: int| listed(before, p) implies listed(merged@, p) by {
                let m = choose|m: int| 0 <= m < before.len() && before[m] == p;
                assert(merged@[m] == p);
            }
            assert(listed(merged@, merged@.last() as int));
        }
    }
    proof {
        assert forall|p: int| from <= p < to implies #[trigger] listed(merged@, p) by {
            if p < mid {
                assert(listed(left@, p));
                let n = choose|n: int| 0 <= n < left@.len() && left@[n] == p;
                assert(listed(merged@, left@[n] as int));
            } else {
                assert(listed(right@, p));
                let n = choose|n: int| 0 <= n < right@.len() && right@[n] == p;
                assert(listed(merged@, right@[n] as int));
            }
        }
    }
    merged
}

fn sort_between(keys: &Vec<u64>, from: usize, to: usize) -> (order: Vec<usize>)
    requires
        from <= to <= keys.len(),
    ensures
        sorts(keys@, from as int, to as int, order@),
    decreases to - from,
{
    let mut order: Vec<usize> = Vec::new();
    if to - from == 1 {
        order.push(from);
        assert(order@[0] == from);
        order
    } else if to == from {
        order
    } else {
        let mid: usize = from + (to - from) / 2;
        let left = sort_between(keys, from, mid);
        let right = sort_between(keys, mid, to);
        merge(keys, left, right, Ghost(from as int), Ghost(mid as int), Ghost(to as int))
    }
}

/// The positions of `keys` in the order in which a stable sort by increasing key puts
/// them.
pub fn stable_order(keys: &Vec<u64>) -> (order: Vec<usize>)
    ensures
        stably_sorts(keys@, order@),
{
    sort_between(keys, 0, keys.len())
}

} // verus!
