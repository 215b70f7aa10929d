//! Grouping items into batches for the model.

use crate::chunker::{chunk_count, lemma_chunk_count};
use vstd::arithmetic::mul::lemma_mul_is_distributive_add_other_way;
use vstd::prelude::*;

verus! {

/// The items of batch `k` when `total` items go out `batch_size` at a time:
/// those with index from `k * batch_size` up to `(k + 1) * batch_size`, as
/// far as there are items. The last batch may be smaller.
pub open spec fn batch_range(total: nat, batch_size: nat, k: nat) -> (nat, nat) {
    (
        if k * batch_size <= total {
            k * batch_size
        } else {
            total
        },
        if (k + 1) * batch_size <= total {
            (k + 1) * batch_size
        } else {
            total
        },
    )
}

/// The batches of `total` items: as many as `total / batch_size`, rounded
/// up, each with the range of its items.
pub open spec fn batch_ranges(total: nat, batch_size: nat) -> Seq<(nat, nat)> {
    Seq::new(chunk_count(total, batch_size), |k: int| batch_range(total, batch_size, k as nat))
}

/// Whether `ranges` are the batches of `total` items.
pub open spec fn is_batches(ranges: Seq<(usize, usize)>, total: nat, batch_size: nat) -> bool {
    &&& ranges.len() == chunk_count(total, batch_size)
    &&& forall|k: int|
        0 <= k < ranges.len() ==> (#[trigger] ranges[k]).0 == batch_range(
            total,
            batch_size,
            k as nat,
        ).0 && ranges[k].1 == batch_range(total, batch_size, k as nat).1
}

/// Number of batches that `total` items make.
pub fn batch_count(total: usize, batch_size: usize) -> (count: usize)
    requires
        batch_size > 0,
    ensures
        count == chunk_count(total as nat, batch_size as nat),
{
    let full = total / batch_size;
    assert(total % batch_size != 0 ==> full < total) by (nonlinear_arith)
        requires
            batch_size > 0,
            full == total / batch_size,
    ;
    let count = if total % batch_size == 0 {
        full
    } else {
        full + 1
    };
    proof {
        let c = batch_size as int;
        assert(total == c * (total as int / c) + total as int % c) by (nonlinear_arith)
            requires
                c > 0,
        ;
        assert(total as int / c * c == c * (total as int / c)) by (nonlinear_arith);
        if count > 0 {
            lemma_mul_is_distributive_add_other_way(c, count - 1, 1);
        }
        lemma_chunk_count(total as nat, batch_size as nat, count as nat);
    }
    count
}

/// Plans the batches of `total` items: the range of each, in order.
pub fn batches(total: usize, batch_size: usize) -> (ranges: Vec<(usize, usize)>)
    requires
        batch_size > 0,
    ensures
        is_batches(ranges@, total as nat, batch_size as nat),
        forall|k: int|
            0 <= k < ranges@.len() ==> (#[trigger] ranges@[k]).0 < ranges@[k].1 <= total
                && ranges@[k].1 - ranges@[k].0 <= batch_size,
{
    let ghost c = batch_size as nat;
    let mut ranges: Vec<(usize, usize)> = Vec::new();
    let mut first: usize = 0;
    proof {
        assert(ranges.len() * c == 0) by (nonlinear_arith)
            requires
                ranges.len() == 0,
        ;
        if total == 0 {
            lemma_chunk_count(0, c, 0);
        }
    }
    while first < total
        invariant
            c == batch_size,
            c > 0,
            first <= total,
            first < total ==> first == ranges.len() * c,
            first == total ==> ranges.len() == chunk_count(total as nat, c),
            forall|k: int|
                0 <= k < ranges.len() ==> (#[trigger] ranges@[k]).0 == batch_range(
                    total as nat,
                    c,
                    k as nat,
                ).0 && ranges@[k].1 == batch_range(total as nat, c, k as nat).1,
            forall|k: int|
                0 <= k < ranges@.len() ==> (#[trigger] ranges@[k]).0 < ranges@[k].1 <= total
                    && ranges@[k].1 - ranges@[k].0 <= batch_size,
        decreases total - first,
    {
        let last = if total - first <= batch_size {
            total
        } else {
            first + batch_size
        };
        proof {
            let k = ranges.len() as nat;
            lemma_mul_is_distributive_add_other_way(c as int, k as int, 1);
            assert((k + 1) * c == first + c);
            if last == total {
                lemma_chunk_count(total as nat, c, k + 1);
            }
        }
        ranges.push((first, last));
        first = last;
    }
    ranges
}

/// The batches follow each other without gap or overlap: each starts where
/// the one before it ended, the first at item 0, and the last ends with the
/// last item.
pub proof fn lemma_batches_partition(total: nat, batch_size: nat, k: nat)
    requires
        batch_size > 0,
        k < chunk_count(total, batch_size),
    ensures
        batch_range(total, batch_size, k).0 == k * batch_size,
        batch_range(total, batch_size, k).0 < batch_range(total, batch_size, k).1,
        k + 1 < chunk_count(total, batch_size) ==> batch_range(total, batch_size, k).1
            == batch_range(total, batch_size, k + 1).0,
        k + 1 == chunk_count(total, batch_size) ==> batch_range(total, batch_size, k).1 == total,
{
    let n = chunk_count(total, batch_size);
    let c = batch_size as int;
    assert(n * c >= total && (n > 0 ==> (n - 1) * c < total)) by (nonlinear_arith)
        requires
            c > 0,
            n == (total + c - 1) / c,
    ;
    assert(k * c <= (n - 1) * c) by (nonlinear_arith)
        requires
            k <= n - 1,
            c > 0,
    ;
    lemma_mul_is_distributive_add_other_way(c, k as int, 1);
    if k + 1 < n {
        assert((k + 1) * c <= (n - 1) * c) by (nonlinear_arith)
            requires
                k + 1 <= n - 1,
                c > 0,
        ;
    } else {
        assert((k + 1) * c == n * c);
    }
}

} // verus!
