//! Work cut into batches of at most a given size.

use vstd::prelude::*;

verus! {

/// The number of batches.
pub open spec fn batch_count(len: int, size: int) -> int
    recommends
        size > 0,
{
    (len + size - 1) / size
}

/// Where a batch ends.
pub open spec fn batch_end(len: int, size: int, k: int) -> int {
    if (k + 1) * size < len {
        (k + 1) * size
    } else {
        len
    }
}

/// The batches of a list of `len`, each by its first position and the one behind its last.
pub open spec fn batch_ranges(len: int, size: int) -> Seq<(usize, usize)> {
    Seq::new(
        batch_count(len, size) as nat,
        |k: int| ((k * size) as usize, batch_end(len, size, k) as usize),
    )
}

/// See [`batch_ranges`].
pub fn batches(len: usize, size: usize) -> (ranges: Vec<(usize, usize)>)
    requires
        size > 0,
    ensures
        ranges@ == batch_ranges(len as int, size as int),
{
    let mut out: Vec<(usize, usize)> = Vec::new();
    let mut from: usize = 0;
    let ghost mut k: int = 0;
    proof {
        assert((size - 1) / size as int == 0) by (nonlinear_arith)
            requires
                size > 0,
        ;
        assert((len + size - 1) / size as int >= 0) by (nonlinear_arith)
            requires
                size > 0,
        ;
    }
    while from < len
        invariant
            size > 0,
            k >= 0,
            from <= len,
            from < len ==> from == k * size,
            from == len ==> k == batch_count(len as int, size as int),
            k <= batch_count(len as int, size as int),
            out.len() == k,
            forall|j: int|
                0 <= j < k ==> #[trigger] out[j] == batch_ranges(len as int, size as int)[j],
        decreases len - from,
    {
        proof {
            lemma_batch(len as int, size as int, k);
        }
        let to: usize = if len - from > size {
            from + size
        } else {
            len
        };
        assert((k + 1) * size == k * size + size) by (nonlinear_arith);
        out.push((from, to));
        from = to;
        proof {
            k = k + 1;
        }
    }
    assert(out@ =~= batch_ranges(len as int, size as int));
    out
}

proof fn lemma_batch(len: int, size: int, k: int)
    requires
        size > 0,
        k >= 0,
        k * size < len,
    ensures
        k < batch_count(len, size),
        (k + 1) * size >= len ==> k + 1 == batch_count(len, size),
{
    let n = batch_count(len, size);
    assert(n * size <= len + size - 1 < n * size + size) by (nonlinear_arith)
        requires
            size > 0,
            n == (len + size - 1) / size,
    ;
    assert(k < n) by (nonlinear_arith)
        requires
            k * size < len,
            len + size - 1 < n * size + size,
            size > 0,
    ;
    if (k + 1) * size >= len {
        assert(n <= k + 1) by (nonlinear_arith)
            requires
                (k + 1) * size >= len,
                n * size <= len + size - 1,
                size > 0,
        ;
    }
}

/// Batches take every position once, in order: the first batch starts at the front, each batch
/// starts where the one before it ends, the last one ends at the end, and each holds between one
/// position and `size`.
pub proof fn batches_cover_the_list(len: int, size: int, k: int)
    requires
        size > 0,
        0 <= len <= usize::MAX,
        0 <= k < batch_count(len, size),
    ensures
        batch_ranges(len, size)[0].0 == 0,
        batch_ranges(len, size)[k].0 < batch_ranges(len, size)[k].1,
        batch_ranges(len, size)[k].1 - batch_ranges(len, size)[k].0 <= size,
        k + 1 < batch_count(len, size) ==> batch_ranges(len, size)[k].1 == batch_ranges(
            len,
            size,
        )[k + 1].0,
        k + 1 == batch_count(len, size) ==> batch_ranges(len, size)[k].1 == len,
{
    let n = batch_count(len, size);
    assert(n * size <= len + size - 1 < n * size + size) by (nonlinear_arith)
        requires
            size > 0,
            n == (len + size - 1) / size,
    ;
    assert(k * size < len) by (nonlinear_arith)
        requires
            k + 1 <= n,
            n * size <= len + size - 1,
            size > 0,
    ;
    assert(k * size >= 0) by (nonlinear_arith)
        requires
            k >= 0,
            size > 0,
    ;
    assert((k + 1) * size == k * size + size) by (nonlinear_arith);
    assert(0 * size == 0);
    if k + 1 < n {
        assert((k + 1) * size < len) by (nonlinear_arith)
            requires
                k + 2 <= n,
                n * size <= len + size - 1,
                size > 0,
        ;
    } else {
        assert((k + 1) * size >= len) by (nonlinear_arith)
            requires
                k + 1 == n,
                len + size - 1 < n * size + size,
        ;
    }
}

/// There are no more batches than needed and none too few: none for an empty list, and every batch
/// but the last is full.
pub proof fn all_batches_but_the_last_are_full(len: int, size: int, k: int)
    requires
        size > 0,
        0 <= len <= usize::MAX,
    ensures
        batch_count(len, size) >= 0,
        batch_count(len, size) == 0 <==> len == 0,
        batch_ranges(len, size).len() == batch_count(len, size),
        0 <= k && k + 1 < batch_count(len, size) ==> batch_ranges(len, size)[k].1 - batch_ranges(
            len,
            size,
        )[k].0 == size,
{
    let n = batch_count(len, size);
    assert(n * size <= len + size - 1 < n * size + size) by (nonlinear_arith)
        requires
            size > 0,
            n == (len + size - 1) / size,
    ;
    assert(n >= 0) by (nonlinear_arith)
        requires
            len + size - 1 < n * size + size,
            len >= 0,
            size > 0,
    ;
    assert(n == 0 <==> len == 0) by (nonlinear_arith)
        requires
            n * size <= len + size - 1 < n * size + size,
            len >= 0,
            size > 0,
            n >= 0,
    ;
    if 0 <= k && k + 1 < n {
        assert((k + 1) * size < len) by (nonlinear_arith)
            requires
                k + 2 <= n,
                n * size <= len + size - 1,
                size > 0,
        ;
        assert((k + 1) * size == k * size + size) by (nonlinear_arith);
        assert(k * size >= 0) by (nonlinear_arith)
            requires
                k >= 0,
                size > 0,
        ;
    }
}

} // verus!
