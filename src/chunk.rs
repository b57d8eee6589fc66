use vstd::prelude::*;
use crate::matrix::{copy_names, name_lists};

verus! {

/// Where chunk number `i + 1` of `c` starts in a matrix of `n` entries (and
/// where chunk `i` ends). Each chunk gets `n / c` entries, and the first
/// `n % c` chunks one more, so with more chunks than entries the last
/// chunks are empty.
pub open spec fn chunk_start(n: int, c: int, i: int) -> int {
    i * (n / c) + if i < n % c { i } else { n % c }
}

/// The entries of `m` that chunk `k` of `c` holds, counting from 1.
pub open spec fn chunk_of<T>(m: Seq<T>, k: int, c: int) -> Seq<T> {
    m.subrange(chunk_start(m.len() as int, c, k - 1), chunk_start(m.len() as int, c, k))
}

/// Chunks `1..=k` of `c`, one after the other.
pub open spec fn chunks_joined<T>(m: Seq<T>, c: int, k: int) -> Seq<T>
    decreases k,
{
    if k <= 0 {
        Seq::empty()
    } else {
        chunks_joined(m, c, k - 1) + chunk_of(m, k, c)
    }
}

proof fn lemma_start_step(n: int, c: int, i: int)
    requires
        n >= 0,
        c >= 1,
        0 <= i < c,
    ensures
        chunk_start(n, c, i + 1) == chunk_start(n, c, i) + n / c + if i < n % c { 1int } else { 0 },
{
    assert((i + 1) * (n / c) == i * (n / c) + n / c) by (nonlinear_arith);
}

proof fn lemma_start_bounds(n: int, c: int, i: int)
    requires
        n >= 0,
        c >= 1,
        0 <= i <= c,
    ensures
        0 <= chunk_start(n, c, i) <= n,
        i == c ==> chunk_start(n, c, i) == n,
{
    let q = n / c;
    let r = n % c;
    assert(n == c * q + r) by (nonlinear_arith)
        requires c >= 1, q == n / c, r == n % c;
    assert(0 <= q && 0 <= r < c) by (nonlinear_arith)
        requires c >= 1, n >= 0, q == n / c, r == n % c;
    assert(0 <= i * q <= c * q) by (nonlinear_arith)
        requires 0 <= i <= c, q >= 0;
    assert(i * q + r <= n) by (nonlinear_arith)
        requires i <= c, q >= 0, n == c * q + r;
}

/// Chunks `1..=c` of `c`, one after the other, give back the whole matrix,
/// so each entry lies in exactly one chunk; every chunk starts where the one
/// before it ends; and two chunks differ in size by at most one entry.
pub proof fn lemma_chunks_partition<T>(m: Seq<T>, c: int)
    requires
        c >= 1,
    ensures
        chunks_joined(m, c, c) == m,
        chunk_start(m.len() as int, c, 0) == 0,
        forall|k: int| 1 <= k <= c ==> chunk_start(m.len() as int, c, k - 1)
            <= #[trigger] chunk_start(m.len() as int, c, k),
        forall|k1: int, k2: int|
            1 <= k1 <= c && 1 <= k2 <= c ==> #[trigger] chunk_of(m, k1, c).len() <= #[trigger] chunk_of(
                m,
                k2,
                c,
            ).len() + 1,
{
    let n = m.len() as int;
    assert forall|k: int| 1 <= k <= c implies chunk_start(n, c, k - 1) <= #[trigger] chunk_start(n, c, k)
        && chunk_of(m, k, c).len() == n / c + if k - 1 < n % c { 1int } else { 0 } by {
        lemma_start_step(n, c, k - 1);
        lemma_start_bounds(n, c, k - 1);
        lemma_start_bounds(n, c, k);
    }
    lemma_joined(m, c, c);
    lemma_start_bounds(n, c, c);
    assert(m.subrange(0, n) =~= m);
}

proof fn lemma_joined<T>(m: Seq<T>, c: int, k: int)
    requires
        c >= 1,
        0 <= k <= c,
    ensures
        chunks_joined(m, c, k) == m.subrange(0, chunk_start(m.len() as int, c, k)),
    decreases k,
{
    let n = m.len() as int;
    if k == 0 {
        assert(m.subrange(0, 0) =~= Seq::<T>::empty());
    } else {
        lemma_joined(m, c, k - 1);
        lemma_start_step(n, c, k - 1);
        lemma_start_bounds(n, c, k - 1);
        lemma_start_bounds(n, c, k);
        assert(m.subrange(0, chunk_start(n, c, k - 1)) + chunk_of(m, k, c) =~= m.subrange(
            0,
            chunk_start(n, c, k),
        ));
    }
}

/// The chunk depends on the matrix size and the chunk pair alone: for two
/// matrices of one size, chunk `k` of `c` holds the entries at the same
/// positions of each.
pub proof fn lemma_chunk_positions<T>(m1: Seq<T>, m2: Seq<T>, k: int, c: int)
    requires
        m1.len() == m2.len(),
        1 <= k <= c,
    ensures
        chunk_of(m1, k, c).len() == chunk_of(m2, k, c).len(),
        forall|i: int|
            0 <= i < chunk_of(m1, k, c).len() ==> #[trigger] chunk_of(m1, k, c)[i] == m1[chunk_start(
                m1.len() as int,
                c,
                k - 1,
            ) + i] && chunk_of(m2, k, c)[i] == m2[chunk_start(m1.len() as int, c, k - 1) + i],
{
    let n = m1.len() as int;
    lemma_start_step(n, c, k - 1);
    lemma_start_bounds(n, c, k - 1);
    lemma_start_bounds(n, c, k);
}

/// The positions `[start, end)` of chunk `chunk` of `chunks` in a matrix of
/// `n` entries.
pub fn chunk_bounds(n: usize, chunk: usize, chunks: usize) -> (r: (usize, usize))
    requires
        1 <= chunk <= chunks,
    ensures
        r.0 == chunk_start(n as int, chunks as int, chunk - 1),
        r.1 == chunk_start(n as int, chunks as int, chunk as int),
        r.0 <= r.1 <= n,
{
    proof {
        lemma_start_step(n as int, chunks as int, chunk - 1);
        lemma_start_bounds(n as int, chunks as int, chunk - 1);
        lemma_start_bounds(n as int, chunks as int, chunk as int);
        assert((chunk - 1) * (n / chunks) <= n);
    }
    let q = n / chunks;
    let r = n % chunks;
    let i = chunk - 1;
    let start = i * q + if i < r { i } else { r };
    let end = start + q + if i < r { 1 } else { 0 };
    (start, end)
}

/// Chunk `chunk` of `chunks` of the matrix `m`.
pub fn select_chunk(m: &Vec<Vec<String>>, chunk: usize, chunks: usize) -> (r: Vec<Vec<String>>)
    requires
        1 <= chunk <= chunks,
    ensures
        name_lists(r@) == chunk_of(name_lists(m@), chunk as int, chunks as int),
{
    let (start, end) = chunk_bounds(m.len(), chunk, chunks);
    let ghost whole = name_lists(m@);
    let mut r: Vec<Vec<String>> = Vec::new();
    for i in start..end
        invariant
            start <= end <= m@.len(),
            whole == name_lists(m@),
            name_lists(r@) == whole.subrange(start as int, i as int),
    {
        let ghost before = r@;
        let c = copy_names(&m[i]);
        r.push(c);
        assert(name_lists(r@) =~= name_lists(before).push(whole[i as int]));
        assert(name_lists(r@) =~= whole.subrange(start as int, i + 1));
    }
    r
}

} // verus!
