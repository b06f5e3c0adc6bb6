//! Fixed-dimension vectors and matrices, holding each element as the bit
//! pattern of a single-precision float. Construction and transposition only
//! place elements, so they never read what an element means.
use vstd::arithmetic::div_mod::{lemma_div_pos_is_pos, lemma_fundamental_div_mod, lemma_mod_pos_bound};
use vstd::prelude::*;

verus! {

/// A column vector of `N` elements.
pub struct Vector<const N: usize> {
    bits: Vec<u32>,
}

/// A matrix of `N` rows and `M` columns, stored column by column.
pub struct Matrix<const N: usize, const M: usize> {
    bits: Vec<u32>,
}

impl<const N: usize> Vector<N> {
    /// The elements, first to last.
    pub closed spec fn view(&self) -> Seq<u32> {
        self.bits@
    }

    #[verifier::type_invariant]
    spec fn has_n_elements(&self) -> bool {
        self.bits@.len() == N
    }

    /// Builds the vector from exactly `N` elements.
    pub fn new(data: &[u32]) -> (v: Self)
        requires
            data@.len() == N,
        ensures
            v@ == data@,
    {
        let bits = copy_elements(data);
        Vector { bits }
    }

    /// The same elements as a single-row matrix.
    pub fn trans(&self) -> (m: Matrix<1, N>)
        ensures
            m@.len() == N,
            forall|j: int| 0 <= j < N ==> #[trigger] m.at(0, j) == self@[j],
    {
        proof {
            use_type_invariant(self);
        }
        let bits = copy_elements(self.bits.as_slice());
        Matrix { bits }
    }

    /// The elements, first to last.
    pub fn as_bits(&self) -> (r: &[u32])
        ensures
            r@ == self@,
            r@.len() == N,
    {
        proof {
            use_type_invariant(self);
        }
        self.bits.as_slice()
    }
}

impl<const N: usize, const M: usize> Matrix<N, M> {
    /// The elements in column-major order.
    pub closed spec fn view(&self) -> Seq<u32> {
        self.bits@
    }

    /// The element in row `i`, column `j`.
    pub open spec fn at(&self, i: int, j: int) -> u32 {
        self@[j * N + i]
    }

    #[verifier::type_invariant]
    spec fn has_n_by_m_elements(&self) -> bool {
        self.bits@.len() == N * M
    }

    /// Builds the matrix from exactly `N * M` elements in column-major order.
    pub fn new(data: &[u32]) -> (m: Self)
        requires
            data@.len() == N * M,
        ensures
            m@ == data@,
            forall|i: int, j: int|
                0 <= i < N && 0 <= j < M ==> #[trigger] m.at(i, j) == data@[j * N + i],
    {
        let bits = copy_elements(data);
        Matrix { bits }
    }

    /// The transpose: row `j`, column `i` of the result is row `i`, column `j`
    /// of `self`.
    pub fn trans(&self) -> (t: Matrix<M, N>)
        ensures
            t@.len() == M * N,
            forall|i: int, j: int|
                0 <= i < N && 0 <= j < M ==> #[trigger] t.at(j, i) == self.at(i, j),
    {
        proof {
            use_type_invariant(self);
        }
        let total: usize = self.bits.len();
        let mut out: Vec<u32> = Vec::new();
        let mut c: usize = 0;
        while c < N
            invariant
                self.bits@.len() == N * M,
                total == N * M,
                c <= N,
                out@.len() == c * M,
                forall|i: int, j: int|
                    0 <= i < c && 0 <= j < M ==> #[trigger] out@[i * M + j] == self.at(i, j),
            decreases N - c,
        {
            let mut r: usize = 0;
            while r < M
                invariant
                    self.bits@.len() == N * M,
                    total == N * M,
                    c < N,
                    r <= M,
                    out@.len() == c * M + r,
                    forall|i: int, j: int|
                        0 <= i < c && 0 <= j < M ==> #[trigger] out@[i * M + j] == self.at(i, j),
                    forall|j: int| 0 <= j < r ==> #[trigger] out@[c * M + j] == self.at(c as int, j),
                decreases M - r,
            {
                proof {
                    lemma_index_in_bounds(c as int, r as int, N as int, M as int);
                }
                let k: usize = r * N + c;
                let ghost before = out@;
                out.push(self.bits[k]);
                proof {
                    assert forall|i: int, j: int| 0 <= i < c && 0 <= j < M implies
                        #[trigger] out@[i * M + j] == self.at(i, j) by {
                        lemma_index_in_bounds(j, i, M as int, c as int);
                        assert(before[i * M + j] == self.at(i, j));
                    }
                }
                r = r + 1;
            }
            proof {
                assert forall|i: int, j: int| 0 <= i < c + 1 && 0 <= j < M implies
                    #[trigger] out@[i * M + j] == self.at(i, j) by {
                    if i < c {
                        lemma_index_in_bounds(j, i, M as int, c as int);
                    } else {
                        assert(i == c);
                    }
                }
                assert((c + 1) * M == c * M + M) by (nonlinear_arith);
            }
            c = c + 1;
        }
        proof {
            assert(out@.len() == M * N) by (nonlinear_arith)
                requires out@.len() == c * M, c == N;
        }
        Matrix { bits: out }
    }

    /// The elements in column-major order.
    pub fn as_bits(&self) -> (r: &[u32])
        ensures
            r@ == self@,
            r@.len() == N * M,
    {
        proof {
            use_type_invariant(self);
        }
        self.bits.as_slice()
    }
}

/// Transposing twice gives the matrix back: where `t` is the transpose of `m`
/// and `back` is the transpose of `t`, `back` holds the elements of `m` in the
/// same places.
pub proof fn lemma_transpose_round_trip<const N: usize, const M: usize>(
    m: Matrix<N, M>,
    t: Matrix<M, N>,
    back: Matrix<N, M>,
)
    requires
        m@.len() == N * M,
        back@.len() == N * M,
        forall|i: int, j: int| 0 <= i < N && 0 <= j < M ==> #[trigger] t.at(j, i) == m.at(i, j),
        forall|i: int, j: int| 0 <= i < M && 0 <= j < N ==> #[trigger] back.at(j, i) == t.at(i, j),
    ensures
        back@ == m@,
{
    assert forall|k: int| 0 <= k < m@.len() implies #[trigger] back@[k] == m@[k] by {
        let n = N as int;
        assert(n > 0) by (nonlinear_arith)
            requires 0 <= k < n * (M as int);
        let i = k % n;
        let j = k / n;
        lemma_fundamental_div_mod(k, n);
        lemma_mod_pos_bound(k, n);
        lemma_div_pos_is_pos(k, n);
        assert(j < M) by (nonlinear_arith)
            requires k == n * j + i, 0 <= i, k < n * (M as int), n > 0;
        assert(j * n + i == k) by (nonlinear_arith)
            requires k == n * j + i;
        assert(t.at(j, i) == m.at(i, j));
        assert(back.at(i, j) == t.at(j, i));
    }
    assert(back@ =~= m@);
}

/// Row `i`, column `j` of an `n`-row, `m`-column matrix lies inside its
/// column-major storage.
proof fn lemma_index_in_bounds(i: int, j: int, n: int, m: int)
    requires
        0 <= i < n,
        0 <= j < m,
    ensures
        0 <= j * n + i < n * m,
        j * n + i < n * m,
{
    assert(0 <= j * n + i < n * m) by (nonlinear_arith)
        requires 0 <= i < n, 0 <= j < m;
}

/// A fresh vector holding the elements of `data` in order.
fn copy_elements(data: &[u32]) -> (r: Vec<u32>)
    ensures
        r@ == data@,
{
    let mut r: Vec<u32> = Vec::with_capacity(data.len());
    let mut k: usize = 0;
    while k < data.len()
        invariant
            k <= data@.len(),
            r@ == data@.subrange(0, k as int),
        decreases data@.len() - k,
    {
        r.push(data[k]);
        k = k + 1;
    }
    assert(r@ =~= data@);
    r
}

} // verus!
