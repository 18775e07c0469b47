//! Grouping the results of one encryption call into fixed-size chunks.
use itertools::Itertools;
use vstd::prelude::*;

verus! {

/// The number of chunks of `size` that `n` items fill, the last one possibly partly.
pub open spec fn chunk_count(n: int, size: int) -> int {
    (n + size - 1) / size
}

pub open spec fn min(a: int, b: int) -> int {
    if a < b { a } else { b }
}

/// The chunks laid end to end.
pub open spec fn concat_chunks<T>(cs: Seq<Vec<T>>) -> Seq<T>
    decreases cs.len(),
{
    if cs.len() == 0 {
        Seq::empty()
    } else {
        concat_chunks(cs.drop_last()) + cs.last()@
    }
}

/// Relies on itertools::Itertools::chunks: consecutive groups of `size` items in
/// order, the last one shorter where too few are left.
#[verifier::external_body]
fn chunks_of<T>(items: Vec<T>, size: usize) -> (r: Vec<Vec<T>>)
    requires
        size > 0,
    ensures
        r@.len() == chunk_count(items@.len() as int, size as int),
        forall|i: int|
            0 <= i < r@.len() ==> #[trigger] r@[i]@ == items@.subrange(
                i * size,
                min((i + 1) * size, items@.len() as int),
            ),
{
    items.into_iter().chunks(size).into_iter().map(|c| c.collect()).collect()
}

proof fn lemma_count_bounds(m: int, n: int, k: int)
    requires
        k > 0,
        n >= 0,
        0 <= m,
    ensures
        m < chunk_count(n, k) ==> m * k < n,
        m == chunk_count(n, k) ==> m * k >= n,
        (m + 1) * k == m * k + k,
{
    assert((m + 1) * k == m * k + k) by (nonlinear_arith);
    assert(m < (n + k - 1) / k ==> m * k < n) by (nonlinear_arith)
        requires
            k > 0,
            n >= 0,
            m >= 0,
    ;
    assert(m == (n + k - 1) / k ==> m * k >= n) by (nonlinear_arith)
        requires
            k > 0,
            n >= 0,
            m >= 0,
    ;
}

/// Laid end to end, the first `m` chunks give the items they were cut from.
proof fn lemma_chunks_prefix<T>(items: Seq<T>, cs: Seq<Vec<T>>, k: int, m: int)
    requires
        k > 0,
        cs.len() == chunk_count(items.len() as int, k),
        forall|i: int|
            0 <= i < cs.len() ==> #[trigger] cs[i]@ == items.subrange(
                i * k,
                min((i + 1) * k, items.len() as int),
            ),
        0 <= m <= cs.len(),
    ensures
        concat_chunks(cs.take(m)) == items.take(min(m * k, items.len() as int)),
    decreases m,
{
    let n = items.len() as int;
    if m == 0 {
        assert(cs.take(0) =~= Seq::<Vec<T>>::empty());
        assert(items.take(0) =~= Seq::<T>::empty());
    } else {
        lemma_chunks_prefix(items, cs, k, m - 1);
        lemma_count_bounds(m - 1, n, k);
        assert(cs.take(m).drop_last() =~= cs.take(m - 1));
        assert(cs.take(m).last() == cs[m - 1]);
        let lo = (m - 1) * k;
        assert(items.take(lo) + items.subrange(lo, min(m * k, n)) =~= items.take(min(m * k, n)));
    }
}

/// Cuts the results of one encryption call into chunks of `chunk_size`, keeping their order.
pub fn chunk_results<T>(encrypted: Vec<T>, chunk_size: usize) -> (r: Vec<Vec<T>>)
    requires
        chunk_size > 0,
    ensures
        r@.len() == chunk_count(encrypted@.len() as int, chunk_size as int),
        forall|i: int|
            0 <= i < r@.len() ==> #[trigger] r@[i]@ == encrypted@.subrange(
                i * chunk_size,
                min((i + 1) * chunk_size, encrypted@.len() as int),
            ),
        concat_chunks(r@) == encrypted@,
{
    let ghost items = encrypted@;
    let r = chunks_of(encrypted, chunk_size);
    proof {
        let n = items.len() as int;
        lemma_chunks_prefix(items, r@, chunk_size as int, r@.len() as int);
        lemma_count_bounds(r@.len() as int, n, chunk_size as int);
        assert(r@.take(r@.len() as int) =~= r@);
        assert(items.take(n) =~= items);
    }
    r
}

} // verus!
