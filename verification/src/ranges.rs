//! Cutting ranges of bytes out of a text.
use vstd::prelude::*;
use vstd::utf8::decode_utf8;
use vstd::utf8::encode_utf8;
use vstd::utf8::is_char_boundary;

use crate::order::stable_order;

verus! {

/// Byte `at` lies in one of the ranges; each goes from its first number up to, but not
/// including, its second.
pub open spec fn covered(ranges: Seq<(usize, usize)>, at: int) -> bool {
    exists|i: int|
        0 <= i < ranges.len() && (#[trigger] ranges[i]).0 <= at && at < ranges[i].1
}

/// What is left of the first `n` bytes without those that the ranges cover.
pub open spec fn outside(bytes: Seq<u8>, ranges: Seq<(usize, usize)>, n: int) -> Seq<u8>
    decreases n,
{
    if n <= 0 {
        Seq::empty()
    } else if covered(ranges, n - 1) {
        outside(bytes, ranges, n - 1)
    } else {
        outside(bytes, ranges, n - 1).push(bytes[n - 1])
    }
}

/// What is left outside ranges is no longer than it was.
pub proof fn cutting_adds_nothing(bytes: Seq<u8>, ranges: Seq<(usize, usize)>, n: int)
    requires
        n >= 0,
    ensures
        outside(bytes, ranges, n).len() <= n,
    decreases n,
{
    if n > 0 {
        cutting_adds_nothing(bytes, ranges, n - 1);
    }
}

/// The range lies within the bytes of a text and cuts no character in two.
pub open spec fn cuts_cleanly(bytes: Seq<u8>, range: (usize, usize)) -> bool {
    &&& range.0 <= range.1 <= bytes.len()
    &&& is_char_boundary(bytes, range.0 as int)
    &&& is_char_boundary(bytes, range.1 as int)
}

/// Each range starts behind the end of the one before it.
pub open spec fn apart(ranges: Seq<(usize, usize)>) -> bool {
    forall|i: int, j: int|
        0 <= i < j < ranges.len() ==> (#[trigger] ranges[i]).1 < (#[trigger] ranges[j]).0
}

/// No range ends before it starts.
pub open spec fn upright(ranges: Seq<(usize, usize)>) -> bool {
    forall|i: int| 0 <= i < ranges.len() ==> (#[trigger] ranges[i]).0 <= ranges[i].1
}

/// Each end of a range in `merged` is an end of the same kind in `ranges`.
pub open spec fn ends_from(merged: Seq<(usize, usize)>, ranges: Seq<(usize, usize)>) -> bool {
    forall|i: int|
        0 <= i < merged.len() ==> is_start(ranges, (#[trigger] merged[i]).0) && is_end(
            ranges,
            merged[i].1,
        )
}

/// A range starts at `at`.
pub open spec fn is_start(ranges: Seq<(usize, usize)>, at: usize) -> bool {
    exists|i: int| 0 <= i < ranges.len() && (#[trigger] ranges[i]).0 == at
}

/// A range ends at `at`.
pub open spec fn is_end(ranges: Seq<(usize, usize)>, at: usize) -> bool {
    exists|i: int| 0 <= i < ranges.len() && (#[trigger] ranges[i]).1 == at
}

/// The ranges of `ranges`, one after the other by where they start, with `done` merged
/// so far and `next` to come: `next` widens the last one if it begins in it or right
/// behind it.
pub open spec fn merge_step(done: Seq<(usize, usize)>, next: (usize, usize)) -> Seq<
    (usize, usize),
> {
    if done.len() > 0 && next.0 <= done.last().1 {
        let end = if done.last().1 >= next.1 {
            done.last().1
        } else {
            next.1
        };
        done.drop_last().push((done.last().0, end))
    } else {
        done.push(next)
    }
}

/// The first `n` ranges, taken in `order`, merged.
pub open spec fn merge_in_order(ranges: Seq<(usize, usize)>, order: Seq<usize>, n: int) -> Seq<
    (usize, usize),
>
    decreases n,
{
    if n <= 0 {
        Seq::empty()
    } else {
        merge_step(merge_in_order(ranges, order, n - 1), ranges[order[n - 1] as int])
    }
}

/// Where the ranges start.
pub open spec fn starts(ranges: Seq<(usize, usize)>) -> Seq<u64> {
    Seq::new(ranges.len(), |i: int| ranges[i].0 as u64)
}

/// `merged` is what merging the ranges, one after the other by where they start, gives.
pub open spec fn merged_from(merged: Seq<(usize, usize)>, ranges: Seq<(usize, usize)>) -> bool {
    exists|order: Seq<usize>| #[trigger]
        crate::order::stably_sorts(starts(ranges), order) && merged == merge_in_order(
            ranges,
            order,
            ranges.len() as int,
        )
}

/// The ranges that the first `n` positions of `order` name.
spec fn arranged(ranges: Seq<(usize, usize)>, order: Seq<usize>, n: int) -> Seq<(usize, usize)> {
    Seq::new(n as nat, |i: int| ranges[order[i] as int])
}

proof fn merge_keeps_cover(ranges: Seq<(usize, usize)>, order: Seq<usize>, n: int)
    requires
        crate::order::stably_sorts(starts(ranges), order),
        0 <= n <= order.len(),
    ensures
        ({
            let merged = merge_in_order(ranges, order, n);
            &&& forall|at: int|
                covered(merged, at) <==> covered(arranged(ranges, order, n), at)
            &&& apart(merged)
            &&& ends_from(merged, ranges)
            &&& upright(ranges) ==> upright(merged)
            &&& n > 0 ==> merged.len() > 0 && merged.last().0 <= ranges[order[n - 1] as int].0
            &&& forall|i: int|
                0 <= i < merged.len() ==> (#[trigger] merged[i]).0 <= merged.last().0
        }),
    decreases n,
{
    if n > 0 {
        merge_keeps_cover(ranges, order, n - 1);
        let before = merge_in_order(ranges, order, n - 1);
        let merged = merge_in_order(ranges, order, n);
        let next = ranges[order[n - 1] as int];
        let some = arranged(ranges, order, n - 1);
        let more = arranged(ranges, order, n);
        assert(more == some.push(next));
        if n > 1 {
            assert(crate::order::precedes(
                starts(ranges),
                order[n - 2] as int,
                order[n - 1] as int,
            ));
            assert(before.last().0 <= next.0);
        }
        assert(is_start(ranges, next.0) && is_end(ranges, next.1));
        assert forall|at: int| covered(merged, at) <==> covered(more, at) by {
            if covered(more, at) {
                let i = choose|i: int| 0 <= i < more.len() && more[i].0 <= at && at < more[i].1;
                if i < n - 1 {
                    assert(some[i] == more[i]);
                    assert(covered(before, at));
                    let k = choose|k: int|
                        0 <= k < before.len() && before[k].0 <= at && at < before[k].1;
                    assert(merged[k].0 <= at && at < merged[k].1);
                } else {
                    let k = merged.len() - 1;
                    assert(merged[k].0 <= at && at < merged[k].1);
                }
            }
            if covered(merged, at) {
                let k = choose|k: int|
                    0 <= k < merged.len() && merged[k].0 <= at && at < merged[k].1;
                if k < merged.len() - 1 {
                    assert(before[k] == merged[k]);
                    assert(covered(before, at));
                } else if next.0 <= at && at < next.1 {
                    assert(more[n - 1] == next);
                    assert(covered(more, at));
                } else {
                    assert(before.len() > 0);
                    assert(before[before.len() - 1].0 <= at && at < before[before.len() - 1].1);
                    assert(covered(before, at));
                }
                if covered(some, at) {
                    let i = choose|i: int|
                        0 <= i < some.len() && some[i].0 <= at && at < some[i].1;
                    assert(more[i] == some[i]);
                }
            }
        }
        assert forall|i: int| 0 <= i < merged.len() implies is_start(
            ranges,
            (#[trigger] merged[i]).0,
        ) && is_end(ranges, merged[i].1) by {
            if i < before.len() {
                assert(is_start(ranges, before[i].0) && is_end(ranges, before[i].1));
            }
        }
    }
}

/// Overlapping and touching ranges made into one, in the order of where they start.
pub fn merge_ranges(ranges: &Vec<(usize, usize)>) -> (merged: Vec<(usize, usize)>)
    ensures
        merged_from(merged@, ranges@),
        forall|at: int| covered(merged@, at) <==> covered(ranges@, at),
        apart(merged@),
        ends_from(merged@, ranges@),
        upright(ranges@) ==> upright(merged@),
{
    let mut keys: Vec<u64> = Vec::new();
    for i in 0..ranges.len()
        invariant
            keys@ == starts(ranges@.take(i as int)),
    {
        keys.push(ranges[i].0 as u64);
        assert(keys@ == starts(ranges@.take(i + 1)));
    }
    assert(ranges@.take(ranges@.len() as int) == ranges@);
    let order = stable_order(&keys);
    let mut merged: Vec<(usize, usize)> = Vec::new();
    for n in 0..order.len()
        invariant
            crate::order::stably_sorts(starts(ranges@), order@),
            merged@ == merge_in_order(ranges@, order@, n as int),
    {
        let next = ranges[order[n]];
        let count: usize = merged.len();
        if count > 0 && next.0 <= merged[count - 1].1 {
            let last = merged[count - 1];
            let end: usize = if last.1 >= next.1 {
                last.1
            } else {
                next.1
            };
            merged.set(count - 1, (last.0, end));
            assert(merged@ == merge_in_order(ranges@, order@, n + 1));
        } else {
            merged.push(next);
        }
    }
    proof {
        merge_keeps_cover(ranges@, order@, order@.len() as int);
        let all = arranged(ranges@, order@, order@.len() as int);
        assert forall|at: int| covered(all, at) <==> covered(ranges@, at) by {
            if covered(all, at) {
                let i = choose|i: int| 0 <= i < all.len() && all[i].0 <= at && at < all[i].1;
                assert(all[i] == ranges@[order@[i] as int]);
            }
            if covered(ranges@, at) {
                let p = choose|p: int|
                    0 <= p < ranges@.len() && ranges@[p].0 <= at && at < ranges@[p].1;
                assert(crate::order::listed(order@, p));
                let i = choose|i: int| 0 <= i < order@.len() && order@[i] == p;
                assert(all[i] == ranges@[p]);
            }
        }
    }
    merged
}

proof fn outside_skips(bytes: Seq<u8>, ranges: Seq<(usize, usize)>, from: int, to: int)
    requires
        0 <= from <= to,
        forall|at: int| from <= at < to ==> covered(ranges, at),
    ensures
        outside(bytes, ranges, to) == outside(bytes, ranges, from),
    decreases to - from,
{
    if from < to {
        outside_skips(bytes, ranges, from, to - 1);
    }
}

proof fn outside_keeps(bytes: Seq<u8>, ranges: Seq<(usize, usize)>, from: int, to: int)
    requires
        0 <= from <= to <= bytes.len(),
        forall|at: int| from <= at < to ==> !covered(ranges, at),
    ensures
        outside(bytes, ranges, to) == outside(bytes, ranges, from) + bytes.subrange(from, to),
    decreases to - from,
{
    if from < to {
        outside_keeps(bytes, ranges, from, to - 1);
        assert(bytes.subrange(from, to) == bytes.subrange(from, to - 1).push(bytes[to - 1]));
    }
}

proof fn outside_by_cover(
    bytes: Seq<u8>,
    a: Seq<(usize, usize)>,
    b: Seq<(usize, usize)>,
    n: int,
)
    requires
        forall|at: int| covered(a, at) <==> covered(b, at),
    ensures
        outside(bytes, a, n) == outside(bytes, b, n),
    decreases n,
{
    if n > 0 {
        outside_by_cover(bytes, a, b, n - 1);
    }
}

/// Where nothing is to be cut, everything is left.
pub proof fn nothing_cut(bytes: Seq<u8>)
    ensures
        outside(bytes, Seq::empty(), bytes.len() as int) == bytes,
{
    outside_keeps(bytes, Seq::empty(), 0, bytes.len() as int);
    assert(bytes.subrange(0, bytes.len() as int) == bytes);
}

fn part<'a>(text: &'a str, from: usize, to: usize) -> (piece: &'a str)
    requires
        from <= to <= encode_utf8(text@).len(),
        is_char_boundary(encode_utf8(text@), from as int),
        is_char_boundary(encode_utf8(text@), to as int),
    ensures
        encode_utf8(piece@) == encode_utf8(text@).subrange(from as int, to as int),
{
    let ghost bytes = encode_utf8(text@);
    proof {
        vstd::utf8::encode_utf8_valid_utf8(text@);
        vstd::utf8::valid_utf8_split(bytes, to as int);
        let front = bytes.subrange(0, to as int);
        if from < to {
            vstd::utf8::is_char_boundary_iff_not_is_continuation_byte(bytes, from as int);
            vstd::utf8::is_char_boundary_iff_not_is_continuation_byte(front, from as int);
            assert(front[from as int] == bytes[from as int]);
        } else {
            vstd::utf8::is_char_boundary_start_end_of_seq(front);
        }
    }
    let (front, _) = text.split_at(to);
    let (_, piece) = front.split_at(from);
    assert(encode_utf8(piece@) == bytes.subrange(from as int, to as int));
    piece
}

/// What is left of `text` without the bytes that the ranges cover.
pub fn cut_ranges(text: &str, ranges: &Vec<(usize, usize)>) -> (rest: String)
    requires
        forall|i: int|
            0 <= i < ranges@.len() ==> cuts_cleanly(encode_utf8(text@), #[trigger] ranges@[i]),
    ensures
        encode_utf8(rest@) == outside(
            encode_utf8(text@),
            ranges@,
            encode_utf8(text@).len() as int,
        ),
{
    let ghost bytes = encode_utf8(text@);
    let length: usize = text.as_bytes().len();
    let merged = merge_ranges(ranges);
    proof {
        vstd::utf8::encode_utf8_valid_utf8(text@);
        vstd::utf8::is_char_boundary_start_end_of_seq(bytes);
        assert forall|i: int| 0 <= i < merged@.len() implies cuts_cleanly(
            bytes,
            #[trigger] merged@[i],
        ) by {
            assert(is_start(ranges@, merged@[i].0) && is_end(ranges@, merged@[i].1));
        }
    }
    let mut rest = String::new();
    let mut cursor: usize = 0;
    for k in 0..merged.len()
        invariant
            bytes == encode_utf8(text@),
            length == bytes.len(),
            apart(merged@),
            forall|i: int|
                0 <= i < merged@.len() ==> cuts_cleanly(bytes, #[trigger] merged@[i]),
            cursor <= length,
            is_char_boundary(bytes, cursor as int),
            k > 0 ==> cursor == merged@[k - 1].1,
            k == 0 ==> cursor == 0,
            encode_utf8(rest@) == outside(bytes, merged@, cursor as int),
    {
        let (start, end) = merged[k];
        assert(cuts_cleanly(bytes, merged@[k as int]));
        assert(cursor <= start);
        proof {
            assert forall|at: int| cursor <= at < start implies !covered(merged@, at) by {
                if covered(merged@, at) {
                    let i = choose|i: int|
                        0 <= i < merged@.len() && merged@[i].0 <= at && at < merged@[i].1;
                    if i < k {
                        if i < k - 1 {
                            assert(merged@[i].1 < merged@[k - 1].0);
                        }
                    } else if i > k {
                        assert(merged@[k as int].1 < merged@[i].0);
                    }
                }
            }
            outside_keeps(bytes, merged@, cursor as int, start as int);
            assert forall|at: int| start <= at < end implies covered(merged@, at) by {
                assert(merged@[k as int].0 <= at && at < merged@[k as int].1);
            }
            outside_skips(bytes, merged@, start as int, end as int);
        }
        if cursor < start {
            let piece = part(text, cursor, start);
            proof {
                crate::text::encoding_adds_up(rest@, piece@);
            }
            rest.append(piece);
        }
        cursor = end;
    }
    proof {
        assert forall|at: int| cursor <= at < length implies !covered(merged@, at) by {
            if covered(merged@, at) {
                let i = choose|i: int|
                    0 <= i < merged@.len() && merged@[i].0 <= at && at < merged@[i].1;
                if i < merged@.len() - 1 {
                    assert(merged@[i].1 < merged@[merged@.len() - 1].0);
                }
            }
        }
        outside_keeps(bytes, merged@, cursor as int, length as int);
        outside_by_cover(bytes, merged@, ranges@, length as int);
    }
    if cursor < length {
        let piece = part(text, cursor, length);
        proof {
            crate::text::encoding_adds_up(rest@, piece@);
        }
        rest.append(piece);
    }
    rest
}

/// The point at `half` half steps lies in one of the ranges or at one of their ends.
pub open spec fn touched(ranges: Seq<(usize, usize)>, half: int) -> bool {
    exists|i: int|
        0 <= i < ranges.len() && 2 * (#[trigger] ranges[i]).0 <= half && half <= 2 * ranges[i].1
}

proof fn merging_keeps_touch(ranges: Seq<(usize, usize)>, order: Seq<usize>, n: int)
    requires
        crate::order::stably_sorts(starts(ranges), order),
        upright(ranges),
        0 <= n <= order.len(),
    ensures
        forall|half: int|
            touched(merge_in_order(ranges, order, n), half) <==> touched(
                arranged(ranges, order, n),
                half,
            ),
    decreases n,
{
    if n > 0 {
        merging_keeps_touch(ranges, order, n - 1);
        merge_keeps_cover(ranges, order, n - 1);
        let before = merge_in_order(ranges, order, n - 1);
        let merged = merge_in_order(ranges, order, n);
        let next = ranges[order[n - 1] as int];
        let some = arranged(ranges, order, n - 1);
        let more = arranged(ranges, order, n);
        assert(more == some.push(next));
        assert(next.0 <= next.1);
        if n > 1 {
            assert(crate::order::precedes(
                starts(ranges),
                order[n - 2] as int,
                order[n - 1] as int,
            ));
            assert(before.last().0 <= next.0);
        }
        assert forall|half: int| touched(merged, half) <==> touched(more, half) by {
            if touched(more, half) {
                let i = choose|i: int|
                    0 <= i < more.len() && 2 * (#[trigger] more[i]).0 <= half && half <= 2
                        * more[i].1;
                if i < n - 1 {
                    assert(some[i] == more[i]);
                    assert(touched(before, half));
                    let k = choose|k: int|
                        0 <= k < before.len() && 2 * (#[trigger] before[k]).0 <= half && half <= 2
                            * before[k].1;
                    assert(2 * merged[k].0 <= half && half <= 2 * merged[k].1);
                } else {
                    let k = merged.len() - 1;
                    assert(2 * merged[k].0 <= half && half <= 2 * merged[k].1);
                }
            }
            if touched(merged, half) {
                let k = choose|k: int|
                    0 <= k < merged.len() && 2 * (#[trigger] merged[k]).0 <= half && half <= 2
                        * merged[k].1;
                if k < merged.len() - 1 {
                    assert(before[k] == merged[k]);
                    assert(touched(before, half));
                } else if 2 * next.0 <= half && half <= 2 * next.1 {
                    assert(more[n - 1] == next);
                } else {
                    assert(before.len() > 0);
                    let last = before.len() - 1;
                    assert(2 * before[last].0 <= half && half <= 2 * before[last].1);
                    assert(touched(before, half));
                }
                if touched(some, half) {
                    let i = choose|i: int|
                        0 <= i < some.len() && 2 * (#[trigger] some[i]).0 <= half && half <= 2
                            * some[i].1;
                    assert(more[i] == some[i]);
                }
            }
        }
    }
}

pub(crate) proof fn merged_touches_the_same(merged: Seq<(usize, usize)>, ranges: Seq<(usize, usize)>)
    requires
        upright(ranges),
        merged_from(merged, ranges),
    ensures
        apart(merged),
        upright(merged),
        forall|half: int| touched(merged, half) <==> touched(ranges, half),
{
    let order = choose|order: Seq<usize>| #[trigger]
        crate::order::stably_sorts(starts(ranges), order) && merged == merge_in_order(
            ranges,
            order,
            ranges.len() as int,
        );
    merge_keeps_cover(ranges, order, ranges.len() as int);
    merging_keeps_touch(ranges, order, ranges.len() as int);
    let all = arranged(ranges, order, ranges.len() as int);
    assert forall|half: int| touched(all, half) <==> touched(ranges, half) by {
        if touched(all, half) {
            let i = choose|i: int|
                0 <= i < all.len() && 2 * (#[trigger] all[i]).0 <= half && half <= 2 * all[i].1;
            assert(all[i] == ranges[order[i] as int]);
        }
        if touched(ranges, half) {
            let p = choose|p: int|
                0 <= p < ranges.len() && 2 * (#[trigger] ranges[p]).0 <= half && half <= 2
                    * ranges[p].1;
            assert(crate::order::listed(order, p));
            let i = choose|i: int| 0 <= i < order.len() && order[i] == p;
            assert(all[i] == ranges[p]);
        }
    }
}

proof fn last_ends_alike(a: Seq<(usize, usize)>, b: Seq<(usize, usize)>)
    requires
        a.len() > 0,
        apart(b),
        upright(a),
        upright(b),
        forall|half: int| touched(a, half) ==> touched(b, half),
    ensures
        b.len() > 0,
        a.last().1 <= b.last().1,
{
    let last = a.len() - 1;
    assert(a[last].0 <= a[last].1);
    assert(touched(a, 2 * a[last].1));
    let k = choose|k: int|
        0 <= k < b.len() && 2 * (#[trigger] b[k]).0 <= 2 * a[last].1 && 2 * a[last].1 <= 2 * b[k].1;
    if k < b.len() - 1 {
        assert(b[k].1 < b[b.len() - 1].0);
        assert(b[b.len() - 1].0 <= b[b.len() - 1].1);
    }
}

proof fn apart_lists_are_fixed(a: Seq<(usize, usize)>, b: Seq<(usize, usize)>)
    requires
        apart(a),
        apart(b),
        upright(a),
        upright(b),
        forall|half: int| touched(a, half) <==> touched(b, half),
    ensures
        a == b,
    decreases a.len(),
{
    if a.len() == 0 {
        if b.len() > 0 {
            last_ends_alike(b, a);
        }
        assert(a == b);
    } else {
        last_ends_alike(a, b);
        last_ends_alike(b, a);
        let x = a[a.len() - 1];
        let y = b[b.len() - 1];
        assert(x.0 <= x.1 && y.0 <= y.1);
        start_is_no_earlier(a, b);
        start_is_no_earlier(b, a);
        let front = a.drop_last();
        let other = b.drop_last();
        assert forall|half: int| touched(front, half) <==> touched(other, half) by {
            rest_is_touched(a, half);
            rest_is_touched(b, half);
        }
        assert forall|i: int, j: int| 0 <= i < j < front.len() implies (#[trigger] front[i]).1 < (
        #[trigger] front[j]).0 by {
            assert(a[i].1 < a[j].0);
        }
        assert forall|i: int, j: int| 0 <= i < j < other.len() implies (#[trigger] other[i]).1 < (
        #[trigger] other[j]).0 by {
            assert(b[i].1 < b[j].0);
        }
        assert forall|i: int| 0 <= i < front.len() implies (#[trigger] front[i]).0
            <= front[i].1 by {
            assert(a[i].0 <= a[i].1);
        }
        assert forall|i: int| 0 <= i < other.len() implies (#[trigger] other[i]).0
            <= other[i].1 by {
            assert(b[i].0 <= b[i].1);
        }
        apart_lists_are_fixed(front, other);
        assert(a == front.push(x));
        assert(b == other.push(y));
    }
}

proof fn start_is_no_earlier(a: Seq<(usize, usize)>, b: Seq<(usize, usize)>)
    requires
        a.len() > 0,
        b.len() > 0,
        apart(b),
        upright(a),
        upright(b),
        a.last().1 == b.last().1,
        forall|half: int| touched(a, half) ==> touched(b, half),
    ensures
        b.last().0 <= a.last().0,
{
    let x = a[a.len() - 1];
    let y = b[b.len() - 1];
    assert(y.0 <= y.1);
    if x.0 < y.0 {
        let half = 2 * y.0 - 1;
        assert(2 * x.0 <= half && half <= 2 * x.1);
        assert(touched(a, half));
        let k = choose|k: int|
            0 <= k < b.len() && 2 * (#[trigger] b[k]).0 <= half && half <= 2 * b[k].1;
        if k < b.len() - 1 {
            assert(b[k].1 < b[b.len() - 1].0);
        }
    }
}

proof fn rest_is_touched(a: Seq<(usize, usize)>, half: int)
    requires
        a.len() > 0,
        apart(a),
        upright(a),
    ensures
        touched(a.drop_last(), half) <==> touched(a, half) && half < 2 * a.last().0,
{
    let front = a.drop_last();
    let last = a.len() - 1;
    if touched(front, half) {
        let i = choose|i: int|
            0 <= i < front.len() && 2 * (#[trigger] front[i]).0 <= half && half <= 2 * front[i].1;
        assert(a[i] == front[i]);
        assert(a[i].1 < a[last].0);
    }
    if touched(a, half) && half < 2 * a.last().0 {
        let i = choose|i: int|
            0 <= i < a.len() && 2 * (#[trigger] a[i]).0 <= half && half <= 2 * a[i].1;
        assert(i < last);
        assert(front[i] == a[i]);
    }
}

/// The order in which ranges are given does not matter, nor how often one is given: the
/// same ranges merge alike.
pub proof fn order_of_ranges_does_not_matter(
    a: Seq<(usize, usize)>,
    b: Seq<(usize, usize)>,
    from_a: Seq<(usize, usize)>,
    from_b: Seq<(usize, usize)>,
)
    requires
        upright(a),
        upright(b),
        forall|range: (usize, usize)| a.contains(range) <==> b.contains(range),
        merged_from(from_a, a),
        merged_from(from_b, b),
    ensures
        from_a == from_b,
{
    merged_touches_the_same(from_a, a);
    merged_touches_the_same(from_b, b);
    assert forall|half: int| touched(a, half) <==> touched(b, half) by {
        if touched(a, half) {
            let i = choose|i: int|
                0 <= i < a.len() && 2 * (#[trigger] a[i]).0 <= half && half <= 2 * a[i].1;
            assert(b.contains(a[i]));
        }
        if touched(b, half) {
            let i = choose|i: int|
                0 <= i < b.len() && 2 * (#[trigger] b[i]).0 <= half && half <= 2 * b[i].1;
            assert(a.contains(b[i]));
        }
    }
    apart_lists_are_fixed(from_a, from_b);
}

/// Merging ranges that have been merged changes nothing.
pub proof fn merging_twice_is_merging_once(
    ranges: Seq<(usize, usize)>,
    once: Seq<(usize, usize)>,
    twice: Seq<(usize, usize)>,
)
    requires
        upright(ranges),
        merged_from(once, ranges),
        merged_from(twice, once),
    ensures
        twice == once,
{
    merged_touches_the_same(once, ranges);
    merged_touches_the_same(twice, once);
    apart_lists_are_fixed(twice, once);
}

} // verus!
