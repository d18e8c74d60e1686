//! Matrices of `r32` components with dimensions fixed at compile time.
use crate::geom::vector::{
    all_wf, checked_mul_add, dot_upto, lemma_dot_none_extends, lemma_dot_upto_prefix,
    lemma_zero_wf, one, zero, VectorPrecise,
};
use crate::num::rational::r32;
use vstd::prelude::*;

verus! {

broadcast use vstd::array::group_array_axioms;

///Matrix of r32 components with R rows and C columns, stored row by row.
#[derive(Clone, Copy, Debug, PartialEq, Eq, Hash)]
pub struct MatrixPrecise<const R: usize, const C: usize> {
    ///Rows of components.
    pub data: [[r32; C]; R],
}

impl<const R: usize, const C: usize> MatrixPrecise<R, C> {
    /// The component in row `i`, column `j`.
    pub open spec fn at(self, i: int, j: int) -> r32 {
        self.data@[i]@[j]
    }

    /// Row `i` as a sequence.
    pub open spec fn row_seq(self, i: int) -> Seq<r32> {
        self.data@[i]@
    }

    /// Column `j` as a sequence.
    pub open spec fn col_seq(self, j: int) -> Seq<r32> {
        Seq::new(R as nat, |i: int| self.data@[i]@[j])
    }

    /// Every component is canonical.
    pub open spec fn wf(self) -> bool {
        forall|i: int, j: int| 0 <= i < R && 0 <= j < C ==> (#[trigger] self.at(i, j)).wf()
    }

    /// Every component is zero.
    pub open spec fn is_zero(self) -> bool {
        forall|i: int, j: int| 0 <= i < R && 0 <= j < C ==> #[trigger] self.at(i, j) == zero()
    }

    /// Replaces one component.
    fn set(&mut self, i: usize, j: usize, v: r32)
        requires
            i < R,
            j < C,
        ensures
            forall|a: int, b: int|
                0 <= a < R && 0 <= b < C ==> #[trigger] final(self).at(a, b) == if a == i && b
                    == j {
                    v
                } else {
                    old(self).at(a, b)
                },
    {
        let mut row = self.data[i];
        row[j] = v;
        self.data[i] = row;
    }

    ///Returns a new matrix from a correctly shaped array of rows.
    pub fn new(data: [[r32; C]; R]) -> (r: MatrixPrecise<R, C>)
        ensures
            r.data == data,
    {
        MatrixPrecise { data }
    }

    /// The matrix with every component zero.
    pub fn zeros() -> (r: MatrixPrecise<R, C>)
        ensures
            r.is_zero(),
            r.wf(),
    {
        proof {
            lemma_zero_wf();
        }
        let z = r32::default();
        let row = vstd::array::array_fill_for_copy_types::<r32, C>(z);
        let data = vstd::array::array_fill_for_copy_types::<[r32; C], R>(row);
        MatrixPrecise { data }
    }

    ///Returns R, the number of rows.
    pub fn num_rows() -> (r: usize)
        ensures
            r == R,
    {
        R
    }

    ///Returns R, the length of a column.
    pub fn col_len() -> (r: usize)
        ensures
            r == R,
    {
        R
    }

    ///Returns C, the number of columns.
    pub fn num_cols() -> (r: usize)
        ensures
            r == C,
    {
        C
    }

    ///Returns C, the length of a row.
    pub fn row_len() -> (r: usize)
        ensures
            r == C,
    {
        C
    }

    ///Returns row `index` as a vector.
    pub fn row(&self, index: usize) -> (r: VectorPrecise<C>)
        requires
            index < R,
        ensures
            r.data@ == self.row_seq(index as int),
    {
        VectorPrecise { data: self.data[index] }
    }

    ///Returns column `index` as a vector.
    pub fn col(&self, index: usize) -> (r: VectorPrecise<R>)
        requires
            index < C,
        ensures
            r.data@ == self.col_seq(index as int),
    {
        let z = r32::default();
        let mut column = [z; R];
        let mut i: usize = 0;
        while i < R
            invariant
                i <= R,
                index < C,
                forall|k: int| 0 <= k < i ==> column@[k] == self.at(k, index as int),
            decreases R - i,
        {
            column[i] = self.data[i][index];
            i = i + 1;
        }
        assert(column@ =~= self.col_seq(index as int));
        VectorPrecise { data: column }
    }

    ///Returns the transposed matrix.
    pub fn transpose(&self) -> (r: MatrixPrecise<C, R>)
        ensures
            forall|i: int, j: int| 0 <= i < R && 0 <= j < C ==> #[trigger] r.at(j, i) == self.at(i, j),
    {
        let mut out = MatrixPrecise::<C, R>::zeros();
        let mut i: usize = 0;
        while i < R
            invariant
                i <= R,
                forall|a: int, b: int| 0 <= a < i && 0 <= b < C ==> #[trigger] out.at(b, a) == self.at(a, b),
            decreases R - i,
        {
            let mut j: usize = 0;
            while j < C
                invariant
                    i < R,
                    j <= C,
                    forall|a: int, b: int|
                        0 <= a < i && 0 <= b < C ==> #[trigger] out.at(b, a) == self.at(a, b),
                    forall|b: int| 0 <= b < j ==> #[trigger] out.at(b, i as int) == self.at(i as int, b),
                decreases C - j,
            {
                out.set(j, i, self.data[i][j]);
                j = j + 1;
            }
            i = i + 1;
        }
        out
    }
}


impl<const R: usize, const C: usize> MatrixPrecise<R, C> {
    /// Every entry of the product with `o` can be computed without overflow.
    pub open spec fn mul_fits<const D: usize>(self, o: MatrixPrecise<C, D>) -> bool {
        &&& self.wf()
        &&& o.wf()
        &&& forall|i: int, j: int|
            0 <= i < R && 0 <= j < D ==> (#[trigger] dot_upto(self.row_seq(i), o.col_seq(j), C as int)).is_some()
    }

    /// `m` is the product of `self` and `o`.
    pub open spec fn is_product<const D: usize>(self, o: MatrixPrecise<C, D>, m: MatrixPrecise<R, D>) -> bool {
        &&& m.wf()
        &&& forall|i: int, j: int|
            0 <= i < R && 0 <= j < D ==> Some(#[trigger] m.at(i, j)) == dot_upto(
                self.row_seq(i),
                o.col_seq(j),
                C as int,
            )
    }

    /// The product with `other`, or `None` when some entry does not fit.
    pub fn checked_multiply<const D: usize>(&self, other: &MatrixPrecise<C, D>) -> (r: Option<
        MatrixPrecise<R, D>,
    >)
        requires
            self.wf(),
            other.wf(),
        ensures
            r.is_some() == self.mul_fits(*other),
            r matches Some(m) ==> self.is_product(*other, m),
    {
        proof {
            lemma_zero_wf();
        }
        let mut out = MatrixPrecise::<R, D>::zeros();
        let mut i: usize = 0;
        while i < R
            invariant
                i <= R,
                self.wf(),
                other.wf(),
                out.wf(),
                forall|a: int, b: int|
                    0 <= a < i && 0 <= b < D ==> Some(#[trigger] out.at(a, b)) == dot_upto(
                        self.row_seq(a),
                        other.col_seq(b),
                        C as int,
                    ),
            decreases R - i,
        {
            let row = self.row(i);
            assert forall|k: int| 0 <= k < row.data@.len() implies (#[trigger] row.data@[k]).wf() by {
                assert(row.data@[k] == self.at(i as int, k));
            }
            let mut j: usize = 0;
            while j < D
                invariant
                    i < R,
                    j <= D,
                    self.wf(),
                    other.wf(),
                    out.wf(),
                    row.data@ == self.row_seq(i as int),
                    row.wf(),
                    forall|a: int, b: int|
                        0 <= a < i && 0 <= b < D ==> Some(#[trigger] out.at(a, b)) == dot_upto(
                            self.row_seq(a),
                            other.col_seq(b),
                            C as int,
                        ),
                    forall|b: int|
                        0 <= b < j ==> Some(#[trigger] out.at(i as int, b)) == dot_upto(
                            self.row_seq(i as int),
                            other.col_seq(b),
                            C as int,
                        ),
                decreases D - j,
            {
                let col = other.col(j);
                assert forall|k: int| 0 <= k < col.data@.len() implies (#[trigger] col.data@[k]).wf() by {
                    assert(col.data@[k] == other.at(k, j as int));
                }
                match row.checked_dot(&col) {
                    Some(v) => {
                        out.set(i, j, v);
                    },
                    None => {
                        assert(dot_upto(self.row_seq(i as int), other.col_seq(j as int), C as int) is None);
                        assert(!self.mul_fits(*other));
                        return None;
                    },
                }
                j = j + 1;
            }
            i = i + 1;
        }
        assert forall|a: int, b: int| 0 <= a < R && 0 <= b < D implies (#[trigger] dot_upto(
            self.row_seq(a),
            other.col_seq(b),
            C as int,
        )).is_some() by {
            assert(Some(out.at(a, b)) == dot_upto(self.row_seq(a), other.col_seq(b), C as int));
        }
        Some(out)
    }

    ///Returns the product with `other`; every entry must be computable without overflow.
    pub fn multiply<const D: usize>(&self, other: MatrixPrecise<C, D>) -> (r: MatrixPrecise<R, D>)
        requires
            self.mul_fits(other),
        ensures
            self.is_product(other, r),
    {
        self.checked_multiply(&other).unwrap()
    }
}


/// Doolittle's equation for `u[i][k]`: the entry of `a` less the sum over `j < i` of
/// `l[i][j] * u[j][k]`, computed exactly.
pub open spec fn u_eq<const L: usize>(
    a: MatrixPrecise<L, L>,
    l: MatrixPrecise<L, L>,
    u: MatrixPrecise<L, L>,
    i: int,
    k: int,
) -> bool {
    match dot_upto(l.row_seq(i), u.col_seq(k), i) {
        Some(s) => a.at(i, k).sub_fits(s) && u.at(i, k) == a.at(i, k).spec_sub(s),
        None => false,
    }
}

/// Doolittle's equation for `l[k][i]`, `k > i`: the entry of `a` less the sum over `j < i`
/// of `l[k][j] * u[j][i]`, divided by the non-zero pivot `u[i][i]`.
pub open spec fn l_eq<const L: usize>(
    a: MatrixPrecise<L, L>,
    l: MatrixPrecise<L, L>,
    u: MatrixPrecise<L, L>,
    i: int,
    k: int,
) -> bool {
    match dot_upto(l.row_seq(k), u.col_seq(i), i) {
        Some(s) => {
            &&& u.at(i, i) != zero()
            &&& a.at(k, i).sub_fits(s)
            &&& a.at(k, i).spec_sub(s).div_fits(u.at(i, i))
            &&& l.at(k, i) == a.at(k, i).spec_sub(s).spec_div(u.at(i, i))
        },
        None => false,
    }
}

/// Doolittle's equations hold for the first `n` rows of `u` and columns of `l`.
pub open spec fn lu_eqs_upto<const L: usize>(
    a: MatrixPrecise<L, L>,
    l: MatrixPrecise<L, L>,
    u: MatrixPrecise<L, L>,
    n: int,
) -> bool {
    &&& forall|i: int, k: int| 0 <= i < n && i <= k < L ==> #[trigger] u_eq(a, l, u, i, k)
    &&& forall|i: int, k: int| 0 <= i < n && i < k < L ==> #[trigger] l_eq(a, l, u, i, k)
}

/// `l` is unit lower triangular and `u` upper triangular, with canonical entries.
pub open spec fn lu_shape<const L: usize>(l: MatrixPrecise<L, L>, u: MatrixPrecise<L, L>) -> bool {
    &&& l.wf()
    &&& u.wf()
    &&& forall|i: int, k: int| 0 <= i < k < L ==> #[trigger] l.at(i, k) == zero()
    &&& forall|i: int, k: int| 0 <= k < i < L ==> #[trigger] u.at(i, k) == zero()
    &&& forall|i: int| 0 <= i < L ==> #[trigger] l.at(i, i) == one()
}

/// `(l, u)` is the Doolittle LU decomposition of `a`, computed exactly.
pub open spec fn is_lu<const L: usize>(
    a: MatrixPrecise<L, L>,
    l: MatrixPrecise<L, L>,
    u: MatrixPrecise<L, L>,
) -> bool {
    lu_shape(l, u) && lu_eqs_upto(a, l, u, L as int)
}

/// `u_eq` reads only the first `i` entries of row `i` of `l` and of column `k` of `u`,
/// and `u[i][k]`.
pub proof fn lemma_u_eq_frame<const L: usize>(
    a: MatrixPrecise<L, L>,
    l: MatrixPrecise<L, L>,
    u: MatrixPrecise<L, L>,
    l2: MatrixPrecise<L, L>,
    u2: MatrixPrecise<L, L>,
    i: int,
    k: int,
)
    requires
        0 <= i < L,
        0 <= k < L,
        u_eq(a, l, u, i, k),
        forall|j: int| 0 <= j < i ==> l2.at(i, j) == l.at(i, j) && u2.at(j, k) == u.at(j, k),
        u2.at(i, k) == u.at(i, k),
    ensures
        u_eq(a, l2, u2, i, k),
{
    assert forall|j: int| 0 <= j < i implies l.row_seq(i)[j] == l2.row_seq(i)[j] && u.col_seq(k)[j]
        == u2.col_seq(k)[j] by {
        assert(l2.at(i, j) == l.at(i, j) && u2.at(j, k) == u.at(j, k));
    }
    lemma_dot_upto_prefix(l.row_seq(i), u.col_seq(k), l2.row_seq(i), u2.col_seq(k), i);
}

/// `l_eq` reads only the first `i` entries of row `k` of `l` and of column `i` of `u`,
/// `u[i][i]` and `l[k][i]`.
pub proof fn lemma_l_eq_frame<const L: usize>(
    a: MatrixPrecise<L, L>,
    l: MatrixPrecise<L, L>,
    u: MatrixPrecise<L, L>,
    l2: MatrixPrecise<L, L>,
    u2: MatrixPrecise<L, L>,
    i: int,
    k: int,
)
    requires
        0 <= i < L,
        0 <= k < L,
        l_eq(a, l, u, i, k),
        forall|j: int| 0 <= j < i ==> l2.at(k, j) == l.at(k, j) && u2.at(j, i) == u.at(j, i),
        u2.at(i, i) == u.at(i, i),
        l2.at(k, i) == l.at(k, i),
    ensures
        l_eq(a, l2, u2, i, k),
{
    assert forall|j: int| 0 <= j < i implies l.row_seq(k)[j] == l2.row_seq(k)[j] && u.col_seq(i)[j]
        == u2.col_seq(i)[j] by {
        assert(l2.at(k, j) == l.at(k, j) && u2.at(j, i) == u.at(j, i));
    }
    lemma_dot_upto_prefix(l.row_seq(k), u.col_seq(i), l2.row_seq(k), u2.col_seq(i), i);
}

/// Equations on the first `n` rows and columns survive changes elsewhere.
pub proof fn lemma_lu_eqs_frame<const L: usize>(
    a: MatrixPrecise<L, L>,
    l: MatrixPrecise<L, L>,
    u: MatrixPrecise<L, L>,
    l2: MatrixPrecise<L, L>,
    u2: MatrixPrecise<L, L>,
    n: int,
)
    requires
        0 <= n <= L,
        lu_eqs_upto(a, l, u, n),
        forall|r: int, c: int| 0 <= r < L && 0 <= c < n ==> #[trigger] l2.at(r, c) == l.at(r, c),
        forall|r: int, c: int| 0 <= r < n && 0 <= c < L ==> #[trigger] u2.at(r, c) == u.at(r, c),
    ensures
        lu_eqs_upto(a, l2, u2, n),
{
    assert forall|i: int, k: int| 0 <= i < n && i <= k < L implies #[trigger] u_eq(a, l2, u2, i, k) by {
        assert(u_eq(a, l, u, i, k));
        assert forall|j: int| 0 <= j < i implies l2.at(i, j) == l.at(i, j) && u2.at(j, k) == u.at(j, k) by {
            assert(l2.at(i, j) == l.at(i, j));
            assert(u2.at(j, k) == u.at(j, k));
        }
        assert(u2.at(i, k) == u.at(i, k));
        lemma_u_eq_frame(a, l, u, l2, u2, i, k);
    }
    assert forall|i: int, k: int| 0 <= i < n && i < k < L implies #[trigger] l_eq(a, l2, u2, i, k) by {
        assert(l_eq(a, l, u, i, k));
        assert forall|j: int| 0 <= j < i implies l2.at(k, j) == l.at(k, j) && u2.at(j, i) == u.at(j, i) by {
            assert(l2.at(k, j) == l.at(k, j));
            assert(u2.at(j, i) == u.at(j, i));
        }
        assert(u2.at(i, i) == u.at(i, i));
        assert(l2.at(k, i) == l.at(k, i));
        lemma_l_eq_frame(a, l, u, l2, u2, i, k);
    }
}


/// `l2` and `u2` agree with `l` and `u` on the columns of `l` before `n`, the rows of `u`
/// before `n`, the first `ku` entries of row `n` of `u` and the first `kl` entries of
/// column `n` of `l`.
pub open spec fn agrees<const L: usize>(
    l: MatrixPrecise<L, L>,
    u: MatrixPrecise<L, L>,
    l2: MatrixPrecise<L, L>,
    u2: MatrixPrecise<L, L>,
    n: int,
    ku: int,
    kl: int,
) -> bool {
    &&& forall|r: int, c: int| 0 <= r < L && 0 <= c < n ==> #[trigger] l2.at(r, c) == l.at(r, c)
    &&& forall|r: int, c: int| 0 <= r < n && 0 <= c < L ==> #[trigger] u2.at(r, c) == u.at(r, c)
    &&& forall|c: int| 0 <= c < ku ==> #[trigger] u2.at(n, c) == u.at(n, c)
    &&& forall|r: int| 0 <= r < kl ==> #[trigger] l2.at(r, n) == l.at(r, n)
}

/// Partial dot products over entries on which two pairs of factors agree are equal.
proof fn lemma_dot_agree<const L: usize>(
    l: MatrixPrecise<L, L>,
    u: MatrixPrecise<L, L>,
    l2: MatrixPrecise<L, L>,
    u2: MatrixPrecise<L, L>,
    r: int,
    c: int,
    n: int,
)
    requires
        0 <= r < L,
        0 <= c < L,
        0 <= n <= L,
        forall|j: int| 0 <= j < n ==> l2.at(r, j) == l.at(r, j) && u2.at(j, c) == u.at(j, c),
    ensures
        dot_upto(l2.row_seq(r), u2.col_seq(c), n) == dot_upto(l.row_seq(r), u.col_seq(c), n),
{
    assert forall|j: int| 0 <= j < n implies l2.row_seq(r)[j] == l.row_seq(r)[j] && u2.col_seq(c)[j]
        == u.col_seq(c)[j] by {
        assert(l2.at(r, j) == l.at(r, j) && u2.at(j, c) == u.at(j, c));
    }
    lemma_dot_upto_prefix(l2.row_seq(r), u2.col_seq(c), l.row_seq(r), u.col_seq(c), n);
}

impl<const L: usize> MatrixPrecise<L, L> {
    /// The sum over `j < n` of `l[r][j] * u[j][c]`, or `None` when a step does not fit.
    fn partial_dot(l: &Self, u: &Self, r: usize, c: usize, n: usize) -> (res: Option<r32>)
        requires
            l.wf(),
            u.wf(),
            r < L,
            c < L,
            n <= L,
        ensures
            res == dot_upto(l.row_seq(r as int), u.col_seq(c as int), n as int),
            res matches Some(v) ==> v.wf(),
    {
        proof {
            lemma_zero_wf();
        }
        let mut s = r32::default();
        let mut j: usize = 0;
        while j < n
            invariant
                j <= n <= L,
                r < L,
                c < L,
                l.wf(),
                u.wf(),
                s.wf(),
                dot_upto(l.row_seq(r as int), u.col_seq(c as int), j as int) == Some(s),
            decreases n - j,
        {
            assert(l.row_seq(r as int)[j as int] == l.at(r as int, j as int));
            assert(u.col_seq(c as int)[j as int] == u.at(j as int, c as int));
            match checked_mul_add(s, l.data[r][j], u.data[j][c]) {
                Some(v) => {
                    s = v;
                },
                None => {
                    proof {
                        lemma_dot_none_extends(
                            l.row_seq(r as int),
                            u.col_seq(c as int),
                            j as int + 1,
                            n as int,
                        );
                    }
                    return None;
                },
            }
            j = j + 1;
        }
        Some(s)
    }

    ///LU decomposition by Doolittle's method without pivoting: a unit lower triangular `L`
    ///and an upper triangular `U` with `L × U` equal to this matrix. `None` exactly when no
    ///such pair can be computed with exact `r32` values: a pivot `U[i][i]` that must divide
    ///is zero, or an intermediate value does not fit.
    pub fn lu(&self) -> (r: Option<(MatrixPrecise<L, L>, MatrixPrecise<L, L>)>)
        requires
            self.wf(),
        ensures
            r matches Some(lu) ==> is_lu(*self, lu.0, lu.1),
            r matches Some(lu) ==> forall|l2: MatrixPrecise<L, L>, u2: MatrixPrecise<L, L>|
                #[trigger] is_lu(*self, l2, u2) ==> agrees(lu.0, lu.1, l2, u2, L as int, 0, 0),
            r is None ==> forall|l2: MatrixPrecise<L, L>, u2: MatrixPrecise<L, L>|
                !#[trigger] is_lu(*self, l2, u2),
    {
        proof {
            lemma_zero_wf();
        }
        let mut l = MatrixPrecise::<L, L>::zeros();
        let mut u = MatrixPrecise::<L, L>::zeros();
        let mut i: usize = 0;
        while i < L
            invariant
                i <= L,
                self.wf(),
                l.wf(),
                u.wf(),
                forall|r: int, c: int| 0 <= r < L && i <= c < L ==> #[trigger] l.at(r, c) == zero(),
                forall|r: int, c: int| 0 <= r < c < L ==> #[trigger] l.at(r, c) == zero(),
                forall|r: int| 0 <= r < i ==> #[trigger] l.at(r, r) == one(),
                forall|r: int, c: int| i <= r < L && 0 <= c < L ==> #[trigger] u.at(r, c) == zero(),
                forall|r: int, c: int| 0 <= c < r < L ==> #[trigger] u.at(r, c) == zero(),
                lu_eqs_upto(*self, l, u, i as int),
                forall|l2: MatrixPrecise<L, L>, u2: MatrixPrecise<L, L>|
                    #[trigger] is_lu(*self, l2, u2) ==> agrees(l, u, l2, u2, i as int, 0, 0),
            decreases L - i,
        {
            proof {
                assert forall|l2: MatrixPrecise<L, L>, u2: MatrixPrecise<L, L>|
                    #[trigger] is_lu(*self, l2, u2) implies agrees(l, u, l2, u2, i as int, i as int, 0) by {
                    assert forall|c: int| 0 <= c < i implies #[trigger] u2.at(i as int, c) == u.at(i as int, c) by {
                        assert(u2.at(i as int, c) == zero());
                    }
                }
            }
            let mut k: usize = i;
            while k < L
                invariant
                    i < L,
                    i <= k <= L,
                    self.wf(),
                    l.wf(),
                    u.wf(),
                    forall|r: int, c: int| 0 <= r < L && i <= c < L ==> #[trigger] l.at(r, c) == zero(),
                    forall|r: int, c: int| 0 <= r < c < L ==> #[trigger] l.at(r, c) == zero(),
                    forall|r: int| 0 <= r < i ==> #[trigger] l.at(r, r) == one(),
                    forall|r: int, c: int| i < r < L && 0 <= c < L ==> #[trigger] u.at(r, c) == zero(),
                    forall|c: int| k <= c < L ==> #[trigger] u.at(i as int, c) == zero(),
                    forall|r: int, c: int| 0 <= c < r < L ==> #[trigger] u.at(r, c) == zero(),
                    lu_eqs_upto(*self, l, u, i as int),
                    forall|c: int| i <= c < k ==> #[trigger] u_eq(*self, l, u, i as int, c),
                    forall|l2: MatrixPrecise<L, L>, u2: MatrixPrecise<L, L>|
                        #[trigger] is_lu(*self, l2, u2) ==> agrees(l, u, l2, u2, i as int, k as int, 0),
                decreases L - k,
            {
                let sum = match Self::partial_dot(&l, &u, i, k, i) {
                    Some(v) => v,
                    None => {
                        proof {
                            assert forall|l2: MatrixPrecise<L, L>, u2: MatrixPrecise<L, L>|
                                !#[trigger] is_lu(*self, l2, u2) by {
                                if is_lu(*self, l2, u2) {
                                    assert(u_eq(*self, l2, u2, i as int, k as int));
                                    lemma_dot_agree(l, u, l2, u2, i as int, k as int, i as int);
                                }
                            }
                        }
                        return None;
                    },
                };
                assert(self.at(i as int, k as int).wf());
                let v = match self.data[i][k].checked_sub(sum) {
                    Some(v) => v,
                    None => {
                        proof {
                            assert forall|l2: MatrixPrecise<L, L>, u2: MatrixPrecise<L, L>|
                                !#[trigger] is_lu(*self, l2, u2) by {
                                if is_lu(*self, l2, u2) {
                                    assert(u_eq(*self, l2, u2, i as int, k as int));
                                    lemma_dot_agree(l, u, l2, u2, i as int, k as int, i as int);
                                }
                            }
                        }
                        return None;
                    },
                };
                let ghost u0 = u;
                u.set(i, k, v);
                proof {
                    assert forall|j: int| 0 <= j < i implies l.row_seq(i as int)[j] == l.row_seq(
                        i as int,
                    )[j] && u0.col_seq(k as int)[j] == u.col_seq(k as int)[j] by {
                        assert(u.at(j, k as int) == u0.at(j, k as int));
                    }
                    lemma_dot_upto_prefix(
                        l.row_seq(i as int),
                        u0.col_seq(k as int),
                        l.row_seq(i as int),
                        u.col_seq(k as int),
                        i as int,
                    );
                    assert(u_eq(*self, l, u, i as int, k as int));
                    assert forall|c: int| i <= c < k + 1 implies #[trigger] u_eq(
                        *self,
                        l,
                        u,
                        i as int,
                        c,
                    ) by {
                        if c < k {
                            lemma_u_eq_frame(*self, l, u0, l, u, i as int, c);
                        }
                    }
                    lemma_lu_eqs_frame(*self, l, u0, l, u, i as int);
                    assert forall|l2: MatrixPrecise<L, L>, u2: MatrixPrecise<L, L>|
                        #[trigger] is_lu(*self, l2, u2) implies agrees(l, u, l2, u2, i as int, k + 1, 0) by {
                        assert(agrees(l, u0, l2, u2, i as int, k as int, 0));
                        assert(u_eq(*self, l2, u2, i as int, k as int));
                        lemma_dot_agree(l, u0, l2, u2, i as int, k as int, i as int);
                        assert(u2.at(i as int, k as int) == v);
                        assert forall|r: int, c: int| 0 <= r < i && 0 <= c < L implies #[trigger] u2.at(r, c)
                            == u.at(r, c) by {
                            assert(u2.at(r, c) == u0.at(r, c));
                        }
                        assert forall|c: int| 0 <= c < k + 1 implies #[trigger] u2.at(i as int, c) == u.at(
                            i as int,
                            c,
                        ) by {
                            if c < k {
                                assert(u2.at(i as int, c) == u0.at(i as int, c));
                            }
                        }
                    }
                }
                k = k + 1;
            }
            let ghost l0 = l;
            proof {
                lemma_zero_wf();
            }
            let one_r = r32::new_raw(1, 1);
            l.set(i, i, one_r);
            proof {
                lemma_lu_eqs_frame(*self, l0, u, l, u, i as int);
                assert forall|c: int| i <= c < L implies #[trigger] u_eq(*self, l, u, i as int, c) by {
                    lemma_u_eq_frame(*self, l0, u, l, u, i as int, c);
                }
                assert forall|l2: MatrixPrecise<L, L>, u2: MatrixPrecise<L, L>|
                    #[trigger] is_lu(*self, l2, u2) implies agrees(l, u, l2, u2, i as int, L as int, i + 1) by {
                    assert(agrees(l0, u, l2, u2, i as int, L as int, 0));
                    assert forall|r: int, c: int| 0 <= r < L && 0 <= c < i implies #[trigger] l2.at(r, c)
                        == l.at(r, c) by {
                        assert(l2.at(r, c) == l0.at(r, c));
                    }
                    assert forall|r: int| 0 <= r < i + 1 implies #[trigger] l2.at(r, i as int) == l.at(
                        r,
                        i as int,
                    ) by {
                        if r < i {
                            assert(l2.at(r, i as int) == zero());
                        } else {
                            assert(l2.at(r, r) == one());
                        }
                    }
                }
            }
            let mut k: usize = i + 1;
            while k < L
                invariant
                    i < L,
                    i + 1 <= k <= L,
                    self.wf(),
                    l.wf(),
                    u.wf(),
                    forall|r: int, c: int| 0 <= r < L && i < c < L ==> #[trigger] l.at(r, c) == zero(),
                    forall|r: int| k <= r < L ==> #[trigger] l.at(r, i as int) == zero(),
                    forall|r: int, c: int| 0 <= r < c < L ==> #[trigger] l.at(r, c) == zero(),
                    forall|r: int| 0 <= r <= i ==> #[trigger] l.at(r, r) == one(),
                    forall|r: int, c: int| i < r < L && 0 <= c < L ==> #[trigger] u.at(r, c) == zero(),
                    forall|r: int, c: int| 0 <= c < r < L ==> #[trigger] u.at(r, c) == zero(),
                    lu_eqs_upto(*self, l, u, i as int),
                    forall|c: int| i <= c < L ==> #[trigger] u_eq(*self, l, u, i as int, c),
                    forall|c: int| i < c < k ==> #[trigger] l_eq(*self, l, u, i as int, c),
                    forall|l2: MatrixPrecise<L, L>, u2: MatrixPrecise<L, L>|
                        #[trigger] is_lu(*self, l2, u2) ==> agrees(l, u, l2, u2, i as int, L as int, k as int),
                decreases L - k,
            {
                let sum = match Self::partial_dot(&l, &u, k, i, i) {
                    Some(v) => v,
                    None => {
                        proof {
                            assert forall|l2: MatrixPrecise<L, L>, u2: MatrixPrecise<L, L>|
                                !#[trigger] is_lu(*self, l2, u2) by {
                                if is_lu(*self, l2, u2) {
                                    assert(l_eq(*self, l2, u2, i as int, k as int));
                                    lemma_dot_agree(l, u, l2, u2, k as int, i as int, i as int);
                                }
                            }
                        }
                        return None;
                    },
                };
                assert(self.at(k as int, i as int).wf());
                assert(u.at(i as int, i as int).wf());
                let t = match self.data[k][i].checked_sub(sum) {
                    Some(v) => v,
                    None => {
                        proof {
                            assert forall|l2: MatrixPrecise<L, L>, u2: MatrixPrecise<L, L>|
                                !#[trigger] is_lu(*self, l2, u2) by {
                                if is_lu(*self, l2, u2) {
                                    assert(l_eq(*self, l2, u2, i as int, k as int));
                                    lemma_dot_agree(l, u, l2, u2, k as int, i as int, i as int);
                                }
                            }
                        }
                        return None;
                    },
                };
                let v = match t.checked_div(u.data[i][i]) {
                    Some(v) => v,
                    None => {
                        proof {
                            crate::num::factors::lemma_gcd_zero(u.at(i as int, i as int).d as nat);
                            assert forall|l2: MatrixPrecise<L, L>, u2: MatrixPrecise<L, L>|
                                !#[trigger] is_lu(*self, l2, u2) by {
                                if is_lu(*self, l2, u2) {
                                    assert(l_eq(*self, l2, u2, i as int, k as int));
                                    lemma_dot_agree(l, u, l2, u2, k as int, i as int, i as int);
                                    assert(u2.at(i as int, i as int) == u.at(i as int, i as int));
                                }
                            }
                        }
                        return None;
                    },
                };
                let ghost l0 = l;
                l.set(k, i, v);
                proof {
                    assert(u.at(i as int, i as int) != zero());
                    assert forall|j: int| 0 <= j < i implies l0.row_seq(k as int)[j] == l.row_seq(
                        k as int,
                    )[j] && u.col_seq(i as int)[j] == u.col_seq(i as int)[j] by {
                        assert(l.at(k as int, j) == l0.at(k as int, j));
                    }
                    lemma_dot_upto_prefix(
                        l0.row_seq(k as int),
                        u.col_seq(i as int),
                        l.row_seq(k as int),
                        u.col_seq(i as int),
                        i as int,
                    );
                    assert(l_eq(*self, l, u, i as int, k as int));
                    assert forall|c: int| i < c < k + 1 implies #[trigger] l_eq(
                        *self,
                        l,
                        u,
                        i as int,
                        c,
                    ) by {
                        if c < k {
                            lemma_l_eq_frame(*self, l0, u, l, u, i as int, c);
                        }
                    }
                    assert forall|c: int| i <= c < L implies #[trigger] u_eq(*self, l, u, i as int, c) by {
                        lemma_u_eq_frame(*self, l0, u, l, u, i as int, c);
                    }
                    lemma_lu_eqs_frame(*self, l0, u, l, u, i as int);
                    assert forall|l2: MatrixPrecise<L, L>, u2: MatrixPrecise<L, L>|
                        #[trigger] is_lu(*self, l2, u2) implies agrees(l, u, l2, u2, i as int, L as int, k + 1) by {
                        assert(agrees(l0, u, l2, u2, i as int, L as int, k as int));
                        assert(l_eq(*self, l2, u2, i as int, k as int));
                        lemma_dot_agree(l0, u, l2, u2, k as int, i as int, i as int);
                        assert(u2.at(i as int, i as int) == u.at(i as int, i as int));
                        assert(l2.at(k as int, i as int) == v);
                        assert forall|r: int, c: int| 0 <= r < L && 0 <= c < i implies #[trigger] l2.at(r, c)
                            == l.at(r, c) by {
                            assert(l2.at(r, c) == l0.at(r, c));
                        }
                        assert forall|r: int| 0 <= r < k + 1 implies #[trigger] l2.at(r, i as int) == l.at(
                            r,
                            i as int,
                        ) by {
                            if r < k {
                                assert(l2.at(r, i as int) == l0.at(r, i as int));
                            }
                        }
                    }
                }
                k = k + 1;
            }
            proof {
                assert forall|a: int, c: int| 0 <= a < i + 1 && a <= c < L implies #[trigger] u_eq(
                    *self,
                    l,
                    u,
                    a,
                    c,
                ) by {
                    if a < i {
                        assert(lu_eqs_upto(*self, l, u, i as int));
                    }
                }
                assert forall|a: int, c: int| 0 <= a < i + 1 && a < c < L implies #[trigger] l_eq(
                    *self,
                    l,
                    u,
                    a,
                    c,
                ) by {
                    if a < i {
                        assert(lu_eqs_upto(*self, l, u, i as int));
                    }
                }
                assert forall|l2: MatrixPrecise<L, L>, u2: MatrixPrecise<L, L>|
                    #[trigger] is_lu(*self, l2, u2) implies agrees(l, u, l2, u2, i + 1, 0, 0) by {
                    assert(agrees(l, u, l2, u2, i as int, L as int, L as int));
                    assert forall|r: int, c: int| 0 <= r < L && 0 <= c < i + 1 implies #[trigger] l2.at(r, c)
                        == l.at(r, c) by {
                        if c == i as int {
                            if r < L {
                                assert(l2.at(r, i as int) == l.at(r, i as int));
                            }
                        }
                    }
                    assert forall|r: int, c: int| 0 <= r < i + 1 && 0 <= c < L implies #[trigger] u2.at(r, c)
                        == u.at(r, c) by {
                        if r == i as int {
                            assert(u2.at(i as int, c) == u.at(i as int, c));
                        }
                    }
                }
            }
            i = i + 1;
        }
        Some((l, u))
    }
}


/// `|x| > |y|`.
pub open spec fn abs_greater(x: r32, y: r32) -> bool {
    crate::num::factors::abs(x.n as int) * y.d > crate::num::factors::abs(y.n as int) * x.d
}

/// The pivot row for column `col` among the rows `0..m` not in `taken`: the first such row,
/// replaced only by a later one of strictly larger magnitude; `L` when there is none.
pub open spec fn pick<const L: usize>(a: MatrixPrecise<L, L>, col: int, taken: Seq<usize>, m: int) -> int
    decreases m,
{
    if m <= 0 {
        L as int
    } else {
        let b = pick(a, col, taken, m - 1);
        let j = m - 1;
        if taken.contains(j as usize) {
            b
        } else if b == L as int {
            j
        } else if abs_greater(a.at(j, col), a.at(b, col)) {
            j
        } else {
            b
        }
    }
}

/// The pivot rows of the first `i` columns, in order.
pub open spec fn pivot_prefix<const L: usize>(a: MatrixPrecise<L, L>, i: int) -> Seq<usize>
    decreases i,
{
    if i <= 0 {
        Seq::empty()
    } else {
        let p = pivot_prefix(a, i - 1);
        p.push(pick(a, i - 1, p, L as int) as usize)
    }
}

/// The row order of partial pivoting: for each column in turn, the not yet taken row whose
/// entry there has the largest magnitude, the first such on ties.
pub open spec fn pivot_perm<const L: usize>(a: MatrixPrecise<L, L>) -> Seq<usize> {
    pivot_prefix(a, L as int)
}

/// Fewer than `n` rows below `n` leave one of them free.
proof fn lemma_free_row(p: Seq<usize>, n: int)
    requires
        p.len() < n <= usize::MAX,
        forall|k: int| 0 <= k < p.len() ==> #[trigger] p[k] < n,
    ensures
        exists|c: int| 0 <= c < n && !#[trigger] p.contains(c as usize),
{
    let q = Seq::new(p.len(), |k: int| p[k] as int);
    if !(exists|c: int| 0 <= c < n && !#[trigger] p.contains(c as usize)) {
        vstd::set_lib::lemma_int_range(0, n);
        q.lemma_cardinality_of_set();
        vstd::seq_lib::seq_to_set_is_finite(q);
        assert forall|c: int| vstd::set_lib::set_int_range(0, n).contains(c) implies q.to_set().contains(c) by {
            assert(0 <= c < n);
            assert(p.contains(c as usize));
            let k = choose|k: int| 0 <= k < p.len() && p[k] == c as usize;
            assert(q[k] == c);
        }
        vstd::set_lib::lemma_len_subset(vstd::set_lib::set_int_range(0, n), q.to_set());
    }
}

/// Once a free row has been scanned, the pick is a free row.
proof fn lemma_pick_finds<const L: usize>(a: MatrixPrecise<L, L>, col: int, taken: Seq<usize>, c: int, m: int)
    requires
        0 <= c < m <= L,
        !taken.contains(c as usize),
    ensures
        pick(a, col, taken, m) != L as int,
    decreases m,
{
    if c < m - 1 {
        lemma_pick_finds(a, col, taken, c, m - 1);
    }
}

/// `perm` lists each of `0..L` once.
pub open spec fn is_perm(perm: Seq<usize>, n: int) -> bool {
    &&& perm.len() == n
    &&& forall|i: int| 0 <= i < n ==> #[trigger] perm[i] < n
    &&& forall|i: int, j: int| 0 <= i < n && 0 <= j < n && i != j ==> perm[i] != perm[j]
}

/// `p` is the permutation matrix that takes row `perm[i]` to row `i`.
pub open spec fn is_perm_matrix<const L: usize>(p: MatrixPrecise<L, L>, perm: Seq<usize>) -> bool {
    forall|i: int, j: int|
        0 <= i < L && 0 <= j < L ==> #[trigger] p.at(i, j) == if j == perm[i] as int {
            one()
        } else {
            zero()
        }
}

/// `pa` is `a` with row `perm[i]` moved to row `i`.
pub open spec fn is_permuted<const L: usize, const C: usize>(
    a: MatrixPrecise<L, C>,
    pa: MatrixPrecise<L, C>,
    perm: Seq<usize>,
) -> bool {
    forall|i: int, j: int| 0 <= i < L && 0 <= j < C ==> #[trigger] pa.at(i, j) == a.at(perm[i] as int, j)
}

/// `(l, u, p)` is an LUP decomposition of `a`: `p` permutes the rows of `a` and `(l, u)`
/// is the LU decomposition of the result.
pub open spec fn is_lup<const L: usize>(
    a: MatrixPrecise<L, L>,
    l: MatrixPrecise<L, L>,
    u: MatrixPrecise<L, L>,
    p: MatrixPrecise<L, L>,
) -> bool {
    exists|perm: Seq<usize>, pa: MatrixPrecise<L, L>|
        #![trigger is_perm_matrix(p, perm), is_permuted(a, pa, perm)]
        is_perm(perm, L as int) && is_perm_matrix(p, perm) && is_permuted(a, pa, perm) && is_lu(pa, l, u)
}

/// `(l, u)` is the LU decomposition of `a` with its rows in the pivoting order.
pub open spec fn lup_of<const L: usize>(
    a: MatrixPrecise<L, L>,
    l: MatrixPrecise<L, L>,
    u: MatrixPrecise<L, L>,
) -> bool {
    exists|pa: MatrixPrecise<L, L>|
        #[trigger] is_permuted(a, pa, pivot_perm(a)) && is_lu(pa, l, u)
}

/// `is_lu` reads the decomposed matrix only through its components.
pub proof fn lemma_is_lu_ext<const L: usize>(
    a: MatrixPrecise<L, L>,
    a2: MatrixPrecise<L, L>,
    l: MatrixPrecise<L, L>,
    u: MatrixPrecise<L, L>,
)
    requires
        is_lu(a, l, u),
        forall|i: int, j: int| 0 <= i < L && 0 <= j < L ==> #[trigger] a2.at(i, j) == a.at(i, j),
    ensures
        is_lu(a2, l, u),
{
    assert forall|i: int, k: int| 0 <= i < L && i <= k < L implies #[trigger] u_eq(a2, l, u, i, k) by {
        assert(u_eq(a, l, u, i, k));
        assert(a2.at(i, k) == a.at(i, k));
    }
    assert forall|i: int, k: int| 0 <= i < L && i < k < L implies #[trigger] l_eq(a2, l, u, i, k) by {
        assert(l_eq(a, l, u, i, k));
        assert(a2.at(k, i) == a.at(k, i));
    }
}

/// `m` is the identity.
pub open spec fn is_identity<const L: usize>(m: MatrixPrecise<L, L>) -> bool {
    forall|i: int, j: int| 0 <= i < L && 0 <= j < L ==> #[trigger] m.at(i, j) == if i == j {
        one()
    } else {
        zero()
    }
}

impl<const L: usize> MatrixPrecise<L, L> {
    ///Returns the identity matrix.
    pub fn identity() -> (r: MatrixPrecise<L, L>)
        ensures
            is_identity(r),
            r.wf(),
    {
        proof {
            lemma_zero_wf();
        }
        let mut m = MatrixPrecise::<L, L>::zeros();
        let mut i: usize = 0;
        while i < L
            invariant
                i <= L,
                m.wf(),
                forall|a: int, b: int| 0 <= a < L && 0 <= b < L ==> #[trigger] m.at(a, b) == if a
                    == b && a < i {
                    one()
                } else {
                    zero()
                },
            decreases L - i,
        {
            proof {
                lemma_zero_wf();
            }
            m.set(i, i, r32::new_raw(1, 1));
            i = i + 1;
        }
        m
    }

    /// The order in which partial pivoting takes the rows: for each column in turn, the
    /// not yet taken row whose entry there has the largest magnitude, the first such on ties.
    fn pivot_order(&self) -> (r: [usize; L])
        requires
            self.wf(),
        ensures
            r@ == pivot_perm(*self),
            is_perm(r@, L as int),
    {
        let mut check = [false; L];
        let mut perm = [0usize; L];
        let mut i: usize = 0;
        while i < L
            invariant
                i <= L,
                self.wf(),
                perm@.subrange(0, i as int) == pivot_prefix(*self, i as int),
                forall|r: int| 0 <= r < i ==> #[trigger] perm@[r] < L && check@[perm@[r] as int],
                forall|r: int, q: int| 0 <= r < i && 0 <= q < i && r != q ==> perm@[r] != perm@[q],
                forall|c: int| 0 <= c < L ==> (#[trigger] check@[c] <==> pivot_prefix(*self, i as int).contains(c as usize)),
            decreases L - i,
        {
            let ghost pre = pivot_prefix(*self, i as int);
            let mut best: usize = L;
            let mut j: usize = 0;
            while j < L
                invariant
                    i < L,
                    j <= L,
                    self.wf(),
                    pre == pivot_prefix(*self, i as int),
                    forall|c: int| 0 <= c < L ==> (#[trigger] check@[c] <==> pre.contains(c as usize)),
                    best as int == pick(*self, i as int, pre, j as int),
                    best == L || (best < L && !check@[best as int]),
                decreases L - j,
            {
                if !check[j] {
                    if best == L {
                        best = j;
                    } else {
                        match self.data[j][i].compare_abs(&self.data[best][i]) {
                            core::cmp::Ordering::Greater => {
                                best = j;
                            },
                            _ => {},
                        }
                    }
                }
                j = j + 1;
            }
            proof {
                if best == L {
                    assert forall|r: int| 0 <= r < i implies #[trigger] pre[r] < L by {
                        assert(perm@.subrange(0, i as int)[r] == perm@[r]);
                    }
                    lemma_free_row(pre, L as int);
                    let c = choose|c: int| 0 <= c < L && !#[trigger] pre.contains(c as usize);
                    lemma_pick_finds(*self, i as int, pre, c, L as int);
                }
            }
            let ghost old_check = check@;
            let ghost old_perm = perm@;
            perm[i] = best;
            check[best] = true;
            proof {
                assert(pivot_prefix(*self, i + 1) == pre.push(best));
                assert(perm@.subrange(0, i + 1) =~= pre.push(best)) by {
                    assert(old_perm.subrange(0, i as int) == pre);
                    assert forall|r: int| 0 <= r < i implies perm@[r] == old_perm[r] by {}
                }
                assert forall|c: int| 0 <= c < L implies (#[trigger] check@[c] <==> pre.push(best).contains(
                    c as usize,
                )) by {
                    if c == best as int {
                        assert(pre.push(best)[i as int] == best);
                    } else {
                        assert(check@[c] == old_check[c]);
                        if pre.push(best).contains(c as usize) {
                            let k = choose|k: int| 0 <= k < pre.push(best).len() && pre.push(best)[k] == c as usize;
                            assert(k < i);
                            assert(pre[k] == c as usize);
                        }
                        if pre.contains(c as usize) {
                            let k = choose|k: int| 0 <= k < pre.len() && pre[k] == c as usize;
                            assert(pre.push(best)[k] == c as usize);
                        }
                    }
                }
                assert forall|r: int, q: int| 0 <= r < i + 1 && 0 <= q < i + 1 && r != q implies perm@[r]
                    != perm@[q] by {
                    if r == i as int {
                        assert(old_check[perm@[q] as int]);
                    } else if q == i as int {
                        assert(old_check[perm@[r] as int]);
                    }
                }
            }
            i = i + 1;
        }
        assert(perm@ =~= perm@.subrange(0, L as int));
        perm
    }

    /// The LUP decomposition together with the row order behind `P`.
    fn lup_with_perm(&self) -> (r: Option<
        (MatrixPrecise<L, L>, MatrixPrecise<L, L>, MatrixPrecise<L, L>, [usize; L]),
    >)
        requires
            self.wf(),
        ensures
            r matches Some(lup) ==> is_perm(lup.3@, L as int) && is_perm_matrix(lup.2, lup.3@)
                && exists|pa: MatrixPrecise<L, L>|
                #![trigger is_permuted(*self, pa, lup.3@)]
                is_permuted(*self, pa, lup.3@) && is_lu(pa, lup.0, lup.1),
            r matches Some(lup) ==> lup.3@ == pivot_perm(*self) && lup_of(*self, lup.0, lup.1),
            r matches Some(lup) ==> forall|l2: MatrixPrecise<L, L>, u2: MatrixPrecise<L, L>|
                #[trigger] lup_of(*self, l2, u2) ==> agrees(lup.0, lup.1, l2, u2, L as int, 0, 0),
            r is None ==> forall|l2: MatrixPrecise<L, L>, u2: MatrixPrecise<L, L>|
                !#[trigger] lup_of(*self, l2, u2),
    {
        let perm = self.pivot_order();
        proof {
            lemma_zero_wf();
        }
        let mut p = MatrixPrecise::<L, L>::zeros();
        let mut pa = MatrixPrecise::<L, L>::zeros();
        let mut i: usize = 0;
        while i < L
            invariant
                i <= L,
                self.wf(),
                is_perm(perm@, L as int),
                p.wf(),
                pa.wf(),
                forall|a: int, b: int| 0 <= a < L && 0 <= b < L ==> #[trigger] p.at(a, b) == if a < i
                    && b == perm@[a] as int {
                    one()
                } else {
                    zero()
                },
                forall|a: int, b: int| 0 <= a < i && 0 <= b < L ==> #[trigger] pa.at(a, b) == self.at(
                    perm@[a] as int,
                    b,
                ),
            decreases L - i,
        {
            proof {
                lemma_zero_wf();
            }
            p.set(i, perm[i], r32::new_raw(1, 1));
            let k = perm[i];
            let row = self.data[k];
            let ghost pa0 = pa;
            pa.data[i] = row;
            proof {
                assert(pa.data@ == pa0.data@.update(i as int, row));
                assert(row == self.data@[perm@[i as int] as int]);
                assert forall|a: int, b: int| 0 <= a < L && 0 <= b < L implies (#[trigger] pa.at(a, b)).wf() by {
                    if a == i as int {
                        assert(perm@[a] < L);
                        assert(pa.at(a, b) == self.at(perm@[a] as int, b));
                        assert(self.at(perm@[a] as int, b).wf());
                    } else {
                        assert(pa.at(a, b) == pa0.at(a, b));
                    }
                }
                assert forall|a: int, b: int| 0 <= a < i + 1 && 0 <= b < L implies #[trigger] pa.at(a, b)
                    == self.at(perm@[a] as int, b) by {
                    if a != i as int {
                        assert(pa.at(a, b) == pa0.at(a, b));
                    }
                }
            }
            i = i + 1;
        }
        assert(is_perm_matrix(p, perm@));
        assert(is_permuted(*self, pa, perm@));
        proof {
            assert forall|l2: MatrixPrecise<L, L>, u2: MatrixPrecise<L, L>|
                #[trigger] lup_of(*self, l2, u2) implies is_lu(pa, l2, u2) by {
                let pa2 = choose|pa2: MatrixPrecise<L, L>|
                    #[trigger] is_permuted(*self, pa2, pivot_perm(*self)) && is_lu(pa2, l2, u2);
                lemma_is_lu_ext(pa2, pa, l2, u2);
            }
        }
        match pa.lu() {
            Some(lu) => {
                assert(lup_of(*self, lu.0, lu.1));
                Some((lu.0, lu.1, p, perm))
            },
            None => None,
        }
    }

    ///LUP decomposition: the rows are first reordered by partial pivoting into `P × A`,
    ///which is then decomposed by `lu`. Returns `(L, U, P)`, or `None` where `lu` fails.
    pub fn lup(&self) -> (r: Option<(MatrixPrecise<L, L>, MatrixPrecise<L, L>, MatrixPrecise<L, L>)>)
        requires
            self.wf(),
        ensures
            r matches Some(lup) ==> is_lup(*self, lup.0, lup.1, lup.2) && is_perm_matrix(
                lup.2,
                pivot_perm(*self),
            ) && lup_of(*self, lup.0, lup.1),
            r is None ==> forall|l2: MatrixPrecise<L, L>, u2: MatrixPrecise<L, L>|
                !#[trigger] lup_of(*self, l2, u2),
    {
        match self.lup_with_perm() {
            Some(lup) => Some((lup.0, lup.1, lup.2)),
            None => None,
        }
    }
}

/// `s - a * b`, when the product and the difference fit.
pub open spec fn mul_sub(s: r32, a: r32, b: r32) -> Option<r32> {
    if a.mul_fits(b) && s.sub_fits(a.spec_mul(b)) {
        Some(s.spec_sub(a.spec_mul(b)))
    } else {
        None
    }
}

/// `v` less `a[j] * b[j]` for each `j` in `lo..hi` in increasing order, with exact
/// rational operations, or `None` when a step does not fit.
pub open spec fn sub_range(v: r32, a: Seq<r32>, b: Seq<r32>, lo: int, hi: int) -> Option<r32>
    decreases hi - lo,
{
    if hi <= lo {
        Some(v)
    } else {
        match sub_range(v, a, b, lo, hi - 1) {
            Some(s) => mul_sub(s, a[hi - 1], b[hi - 1]),
            None => None,
        }
    }
}

/// `sub_range` reads only the entries in `lo..hi`.
pub proof fn lemma_sub_range_frame(v: r32, a: Seq<r32>, b: Seq<r32>, b2: Seq<r32>, lo: int, hi: int)
    requires
        forall|j: int| lo <= j < hi ==> b[j] == b2[j],
    ensures
        sub_range(v, a, b, lo, hi) == sub_range(v, a, b2, lo, hi),
    decreases hi - lo,
{
    if hi > lo {
        lemma_sub_range_frame(v, a, b, b2, lo, hi - 1);
    }
}

/// Once `sub_range` fails to fit, longer ranges fail too.
pub proof fn lemma_sub_range_none(v: r32, a: Seq<r32>, b: Seq<r32>, lo: int, k: int, hi: int)
    requires
        sub_range(v, a, b, lo, k) is None,
        lo < k <= hi,
    ensures
        sub_range(v, a, b, lo, hi) is None,
    decreases hi - k,
{
    if k < hi {
        lemma_sub_range_none(v, a, b, lo, k + 1, hi);
    }
}

/// `y` solves `l·y = b` by forward substitution: `y[i]` is `b[i]` less
/// `l[i][j] * y[j]` for `j < i`, the diagonal of `l` being taken as one.
pub open spec fn is_forward<const L: usize>(l: MatrixPrecise<L, L>, b: Seq<r32>, y: Seq<r32>) -> bool {
    forall|i: int| 0 <= i < L ==> #[trigger] sub_range(b[i], l.row_seq(i), y, 0, i) == Some(y[i])
}

/// `x` solves `u·x = y` by back substitution: `x[i]` is `y[i]` less `u[i][j] * x[j]`
/// for `j > i`, divided by the non-zero `u[i][i]`.
pub open spec fn is_backward<const L: usize>(u: MatrixPrecise<L, L>, y: Seq<r32>, x: Seq<r32>) -> bool {
    forall|i: int|
        0 <= i < L ==> match #[trigger] sub_range(y[i], u.row_seq(i), x, i + 1, L as int) {
            Some(v) => v.div_fits(u.at(i, i)) && x[i] == v.spec_div(u.at(i, i)),
            None => false,
        }
}

/// `x` is what LUP substitution gives for `a·x = b`: for a row order `perm` and the LU
/// decomposition `(l, u)` of `a` with its rows in that order, `l·y` equals `b` in that
/// order and `u·x = y`.
pub open spec fn is_lup_solution<const L: usize>(a: MatrixPrecise<L, L>, b: Seq<r32>, x: Seq<r32>) -> bool {
    exists|perm: Seq<usize>, pa: MatrixPrecise<L, L>, l: MatrixPrecise<L, L>, u: MatrixPrecise<L, L>, y: Seq<r32>|
        #![trigger is_permuted(a, pa, perm), is_lu(pa, l, u), is_backward(u, y, x)]
        is_perm(perm, L as int) && is_permuted(a, pa, perm) && is_lu(pa, l, u) && is_forward(
            l,
            Seq::new(L as nat, |i: int| b[perm[i] as int]),
            y,
        ) && is_backward(u, y, x)
}

/// `b` with entry `perm[i]` moved to place `i`.
pub open spec fn permute_seq(b: Seq<r32>, perm: Seq<usize>) -> Seq<r32> {
    Seq::new(perm.len(), |i: int| b[perm[i] as int])
}

/// `y` and `x` are what forward and back substitution through `l` and `u` give for `b`.
pub open spec fn lup_solves<const L: usize>(
    l: MatrixPrecise<L, L>,
    u: MatrixPrecise<L, L>,
    b: Seq<r32>,
    y: Seq<r32>,
    x: Seq<r32>,
) -> bool {
    y.len() == L && x.len() == L && is_forward(l, b, y) && is_backward(u, y, x)
}

/// LUP substitution can solve `a·x = b` with exact `r32` values: the pivoted LU
/// decomposition exists and forward and back substitution through it both succeed.
pub open spec fn lup_solvable<const L: usize>(a: MatrixPrecise<L, L>, b: Seq<r32>) -> bool {
    exists|l: MatrixPrecise<L, L>, u: MatrixPrecise<L, L>, y: Seq<r32>, x: Seq<r32>|
        #![trigger lup_of(a, l, u), lup_solves(l, u, permute_seq(b, pivot_perm(a)), y, x)]
        lup_of(a, l, u) && lup_solves(l, u, permute_seq(b, pivot_perm(a)), y, x)
}

/// `is_forward` reads the matrix only through its components.
proof fn lemma_forward_ext<const L: usize>(l: MatrixPrecise<L, L>, l2: MatrixPrecise<L, L>, b: Seq<r32>, y: Seq<r32>)
    requires
        is_forward(l, b, y),
        forall|r: int, c: int| 0 <= r < L && 0 <= c < L ==> #[trigger] l2.at(r, c) == l.at(r, c),
    ensures
        is_forward(l2, b, y),
{
    assert forall|i: int| 0 <= i < L implies #[trigger] sub_range(b[i], l2.row_seq(i), y, 0, i) == Some(y[i]) by {
        assert(l2.row_seq(i) =~= l.row_seq(i)) by {
            assert forall|c: int| 0 <= c < L implies l2.row_seq(i)[c] == l.row_seq(i)[c] by {
                assert(l2.at(i, c) == l.at(i, c));
            }
        }
        assert(sub_range(b[i], l.row_seq(i), y, 0, i) == Some(y[i]));
    }
}

/// `is_backward` reads the matrix only through its components.
proof fn lemma_backward_ext<const L: usize>(u: MatrixPrecise<L, L>, u2: MatrixPrecise<L, L>, y: Seq<r32>, x: Seq<r32>)
    requires
        is_backward(u, y, x),
        forall|r: int, c: int| 0 <= r < L && 0 <= c < L ==> #[trigger] u2.at(r, c) == u.at(r, c),
    ensures
        is_backward(u2, y, x),
{
    assert forall|i: int| 0 <= i < L implies match #[trigger] sub_range(y[i], u2.row_seq(i), x, i + 1, L as int) {
        Some(v) => v.div_fits(u2.at(i, i)) && x[i] == v.spec_div(u2.at(i, i)),
        None => false,
    } by {
        assert(u2.row_seq(i) =~= u.row_seq(i)) by {
            assert forall|c: int| 0 <= c < L implies u2.row_seq(i)[c] == u.row_seq(i)[c] by {
                assert(u2.at(i, c) == u.at(i, c));
            }
        }
        assert(u2.at(i, i) == u.at(i, i));
        assert(match sub_range(y[i], u.row_seq(i), x, i + 1, L as int) {
            Some(v) => v.div_fits(u.at(i, i)) && x[i] == v.spec_div(u.at(i, i)),
            None => false,
        });
    }
}

/// Forward substitution has one result.
proof fn lemma_forward_unique<const L: usize>(l: MatrixPrecise<L, L>, b: Seq<r32>, y: Seq<r32>, y2: Seq<r32>)
    requires
        y.len() == L,
        y2.len() == L,
        is_forward(l, b, y),
        is_forward(l, b, y2),
    ensures
        y =~= y2,
{
    lemma_forward_unique_upto(l, b, y, y2, L as int);
}

proof fn lemma_forward_unique_upto<const L: usize>(l: MatrixPrecise<L, L>, b: Seq<r32>, y: Seq<r32>, y2: Seq<r32>, n: int)
    requires
        0 <= n <= L,
        y.len() == L,
        y2.len() == L,
        is_forward(l, b, y),
        is_forward(l, b, y2),
    ensures
        forall|k: int| 0 <= k < n ==> y[k] == y2[k],
    decreases n,
{
    if n > 0 {
        lemma_forward_unique_upto(l, b, y, y2, n - 1);
        assert(sub_range(b[n - 1], l.row_seq(n - 1), y, 0, n - 1) == Some(y[n - 1]));
        assert(sub_range(b[n - 1], l.row_seq(n - 1), y2, 0, n - 1) == Some(y2[n - 1]));
        lemma_sub_range_frame(b[n - 1], l.row_seq(n - 1), y, y2, 0, n - 1);
    }
}

/// `s - a * b` with exact operations, when it fits.
fn checked_mul_sub(s: r32, a: r32, b: r32) -> (r: Option<r32>)
    requires
        s.wf(),
        a.wf(),
        b.wf(),
    ensures
        r == mul_sub(s, a, b),
        r matches Some(v) ==> v.wf(),
{
    match a.checked_mul(b) {
        Some(p) => s.checked_sub(p),
        None => None,
    }
}

impl<const L: usize> MatrixPrecise<L, L> {
    /// `v` less `self[i][j] * x[j]` for `j` in `lo..hi`, or `None` when a step does not fit.
    fn row_sub(&self, i: usize, v: r32, x: &[r32; L], lo: usize, hi: usize) -> (r: Option<r32>)
        requires
            self.wf(),
            i < L,
            v.wf(),
            all_wf(x@),
            lo <= hi <= L,
        ensures
            r == sub_range(v, self.row_seq(i as int), x@, lo as int, hi as int),
            r matches Some(w) ==> w.wf(),
    {
        let mut s = v;
        let mut j: usize = lo;
        while j < hi
            invariant
                lo <= j <= hi <= L,
                i < L,
                self.wf(),
                all_wf(x@),
                s.wf(),
                sub_range(v, self.row_seq(i as int), x@, lo as int, j as int) == Some(s),
            decreases hi - j,
        {
            assert(self.at(i as int, j as int).wf());
            assert(x@[j as int].wf());
            match checked_mul_sub(s, self.data[i][j], x[j]) {
                Some(w) => {
                    s = w;
                },
                None => {
                    proof {
                        lemma_sub_range_none(v, self.row_seq(i as int), x@, lo as int, j + 1, hi as int);
                    }
                    return None;
                },
            }
            j = j + 1;
        }
        Some(s)
    }

    ///Forward substitution: solves `L·x = b` for this lower triangular matrix `L` with a
    ///unit diagonal. `None` when an exact intermediate value does not fit.
    pub fn forward_sub(&self, target: VectorPrecise<L>) -> (r: Option<VectorPrecise<L>>)
        requires
            self.wf(),
            target.wf(),
        ensures
            r matches Some(x) ==> x.wf() && is_forward(*self, target.data@, x.data@),
            r is None ==> forall|y: Seq<r32>| y.len() == L ==> !#[trigger] is_forward(*self, target.data@, y),
    {
        proof {
            lemma_zero_wf();
        }
        let z = r32::default();
        let mut out = [z; L];
        let mut i: usize = 0;
        while i < L
            invariant
                i <= L,
                self.wf(),
                target.wf(),
                all_wf(out@),
                forall|k: int| 0 <= k < i ==> #[trigger] sub_range(
                    target.data@[k],
                    self.row_seq(k),
                    out@,
                    0,
                    k,
                ) == Some(out@[k]),
                forall|y: Seq<r32>| y.len() == L && #[trigger] is_forward(*self, target.data@, y) ==> forall|k: int|
                    0 <= k < i ==> y[k] == out@[k],
            decreases L - i,
        {
            assert(target.data@[i as int].wf());
            let v = match self.row_sub(i, target.data[i], &out, 0, i) {
                Some(v) => v,
                None => {
                    proof {
                        assert forall|y: Seq<r32>| y.len() == L implies !#[trigger] is_forward(*self, target.data@, y) by {
                            if is_forward(*self, target.data@, y) {
                                assert(sub_range(target.data@[i as int], self.row_seq(i as int), y, 0, i as int)
                                    == Some(y[i as int]));
                                lemma_sub_range_frame(target.data@[i as int], self.row_seq(i as int), y, out@, 0, i as int);
                            }
                        }
                    }
                    return None;
                },
            };
            let ghost out0 = out@;
            out[i] = v;
            proof {
                assert forall|y: Seq<r32>| y.len() == L && #[trigger] is_forward(*self, target.data@, y) implies forall|k: int|
                    0 <= k < i + 1 ==> y[k] == out@[k] by {
                    assert(sub_range(target.data@[i as int], self.row_seq(i as int), y, 0, i as int)
                        == Some(y[i as int]));
                    lemma_sub_range_frame(target.data@[i as int], self.row_seq(i as int), y, out0, 0, i as int);
                }
                assert forall|k: int| 0 <= k < i + 1 implies #[trigger] sub_range(
                    target.data@[k],
                    self.row_seq(k),
                    out@,
                    0,
                    k,
                ) == Some(out@[k]) by {
                    lemma_sub_range_frame(target.data@[k], self.row_seq(k), out0, out@, 0, k);
                }
            }
            i = i + 1;
        }
        Some(VectorPrecise { data: out })
    }

    ///Back substitution: solves `U·x = b` for this upper triangular matrix `U`. `None`
    ///when a diagonal entry is zero or an exact intermediate value does not fit.
    pub fn back_sub(&self, target: VectorPrecise<L>) -> (r: Option<VectorPrecise<L>>)
        requires
            self.wf(),
            target.wf(),
        ensures
            r matches Some(x) ==> x.wf() && is_backward(*self, target.data@, x.data@),
            r is None ==> forall|x: Seq<r32>| x.len() == L ==> !#[trigger] is_backward(*self, target.data@, x),
    {
        proof {
            lemma_zero_wf();
        }
        let z = r32::default();
        let mut out = [z; L];
        let mut ii: usize = 0;
        while ii < L
            invariant
                ii <= L,
                self.wf(),
                target.wf(),
                all_wf(out@),
                forall|k: int| L - ii <= k < L ==> match #[trigger] sub_range(
                    target.data@[k],
                    self.row_seq(k),
                    out@,
                    k + 1,
                    L as int,
                ) {
                    Some(v) => v.div_fits(self.at(k, k)) && out@[k] == v.spec_div(self.at(k, k)),
                    None => false,
                },
                forall|x: Seq<r32>| x.len() == L && #[trigger] is_backward(*self, target.data@, x) ==> forall|k: int|
                    L - ii <= k < L ==> x[k] == out@[k],
            decreases L - ii,
        {
            let i = L - ii - 1;
            assert(target.data@[i as int].wf());
            let v = match self.row_sub(i, target.data[i], &out, i + 1, L) {
                Some(v) => v,
                None => {
                    proof {
                        assert forall|x: Seq<r32>| x.len() == L implies !#[trigger] is_backward(*self, target.data@, x) by {
                            if is_backward(*self, target.data@, x) {
                                assert(sub_range(target.data@[i as int], self.row_seq(i as int), x, i + 1, L as int) is Some);
                                lemma_sub_range_frame(target.data@[i as int], self.row_seq(i as int), x, out@, i + 1, L as int);
                            }
                        }
                    }
                    return None;
                },
            };
            assert(self.at(i as int, i as int).wf());
            let w = match v.checked_div(self.data[i][i]) {
                Some(w) => w,
                None => {
                    proof {
                        assert forall|x: Seq<r32>| x.len() == L implies !#[trigger] is_backward(*self, target.data@, x) by {
                            if is_backward(*self, target.data@, x) {
                                assert(sub_range(target.data@[i as int], self.row_seq(i as int), x, i + 1, L as int) is Some);
                                lemma_sub_range_frame(target.data@[i as int], self.row_seq(i as int), x, out@, i + 1, L as int);
                            }
                        }
                    }
                    return None;
                },
            };
            let ghost out0 = out@;
            out[i] = w;
            proof {
                assert forall|x: Seq<r32>| x.len() == L && #[trigger] is_backward(*self, target.data@, x) implies forall|k: int|
                    L - (ii + 1) <= k < L ==> x[k] == out@[k] by {
                    assert(sub_range(target.data@[i as int], self.row_seq(i as int), x, i + 1, L as int) is Some);
                    lemma_sub_range_frame(target.data@[i as int], self.row_seq(i as int), x, out0, i + 1, L as int);
                }
                assert forall|k: int| L - (ii + 1) <= k < L implies match #[trigger] sub_range(
                    target.data@[k],
                    self.row_seq(k),
                    out@,
                    k + 1,
                    L as int,
                ) {
                    Some(v) => v.div_fits(self.at(k, k)) && out@[k] == v.spec_div(self.at(k, k)),
                    None => false,
                } by {
                    lemma_sub_range_frame(target.data@[k], self.row_seq(k), out0, out@, k + 1, L as int);
                }
            }
            ii = ii + 1;
        }
        Some(VectorPrecise { data: out })
    }
}


/// The product of the diagonal entries `u[j][j]` for `j < k`, multiplied in order with
/// exact rational operations, or `None` when a product does not fit.
pub open spec fn diag_upto<const L: usize>(u: MatrixPrecise<L, L>, k: int) -> Option<r32>
    decreases k,
{
    if k <= 0 {
        Some(one())
    } else {
        match diag_upto(u, k - 1) {
            Some(s) => if s.mul_fits(u.at(k - 1, k - 1)) {
                Some(s.spec_mul(u.at(k - 1, k - 1)))
            } else {
                None
            },
            None => None,
        }
    }
}

/// `diag_upto` reads only the diagonal entries before `k`.
proof fn lemma_diag_frame<const L: usize>(u: MatrixPrecise<L, L>, u2: MatrixPrecise<L, L>, k: int)
    requires
        0 <= k <= L,
        forall|r: int, c: int| 0 <= r < L && 0 <= c < L ==> #[trigger] u2.at(r, c) == u.at(r, c),
    ensures
        diag_upto(u2, k) == diag_upto(u, k),
    decreases k,
{
    if k > 0 {
        lemma_diag_frame(u, u2, k - 1);
        assert(u2.at(k - 1, k - 1) == u.at(k - 1, k - 1));
    }
}

/// Once a partial diagonal product fails to fit, every longer one fails too.
proof fn lemma_diag_none_extends<const L: usize>(u: MatrixPrecise<L, L>, k: int, m: int)
    requires
        diag_upto(u, k) is None,
        0 < k <= m,
    ensures
        diag_upto(u, m) is None,
    decreases m - k,
{
    if k < m {
        lemma_diag_none_extends(u, k + 1, m);
    }
}

/// The number of pairs `a < k` with `perm[a] > perm[b]`.
pub open spec fn inversions_before(perm: Seq<usize>, b: int, k: int) -> nat
    decreases k,
{
    if k <= 0 {
        0
    } else {
        inversions_before(perm, b, k - 1) + if perm[k - 1] > perm[b] { 1nat } else { 0nat }
    }
}

/// The number of inversions among the first `n` entries: pairs `a < b < n` with
/// `perm[a] > perm[b]`.
pub open spec fn inversions(perm: Seq<usize>, n: int) -> nat
    decreases n,
{
    if n <= 0 {
        0
    } else {
        inversions(perm, n - 1) + inversions_before(perm, n - 1, n - 1)
    }
}

/// The determinant from a diagonal product and a row order: the product, negated when the
/// order is an odd permutation, or `None` when the product or its negation does not fit.
pub open spec fn signed_det(p: Option<r32>, perm: Seq<usize>) -> Option<r32> {
    match p {
        Some(x) => if inversions(perm, perm.len() as int) % 2 == 0 {
            Some(x)
        } else if x.n > i16::MIN {
            Some(x.spec_neg())
        } else {
            None
        },
        None => None,
    }
}

/// The determinant of `a` by LUP decomposition: `None` when there is no decomposition in
/// the pivoting order or a value does not fit.
pub open spec fn lup_det_spec<const L: usize>(a: MatrixPrecise<L, L>) -> Option<r32> {
    if exists|l: MatrixPrecise<L, L>, u: MatrixPrecise<L, L>| #[trigger] lup_of(a, l, u) {
        let (l, u) = choose|l: MatrixPrecise<L, L>, u: MatrixPrecise<L, L>| #[trigger] lup_of(a, l, u);
        signed_det(diag_upto(u, L as int), pivot_perm(a))
    } else {
        None
    }
}

/// The `j`-th unit vector of length `L`.
pub open spec fn unit_seq(n: int, j: int) -> Seq<r32> {
    Seq::new(n as nat, |i: int| if i == j { one() } else { zero() })
}

impl<const L: usize> MatrixPrecise<L, L> {
    ///LUP substitution: solves `A·x = b` for this matrix `A` by permuting `b` as the LUP
    ///decomposition does, then forward and back substitution. `None` where the
    ///decomposition or a substitution fails.
    pub fn lup_sub(&self, target: VectorPrecise<L>) -> (r: Option<VectorPrecise<L>>)
        requires
            self.wf(),
            target.wf(),
        ensures
            r matches Some(x) ==> x.wf() && is_lup_solution(*self, target.data@, x.data@),
            r is None ==> !lup_solvable(*self, target.data@),
    {
        let (l, u, _p, perm) = match self.lup_with_perm() {
            Some(lup) => lup,
            None => return None,
        };
        let ghost pa = choose|pa: MatrixPrecise<L, L>| is_permuted(*self, pa, perm@) && is_lu(pa, l, u);
        let z = r32::default();
        let mut pb = [z; L];
        let mut i: usize = 0;
        while i < L
            invariant
                i <= L,
                is_perm(perm@, L as int),
                target.wf(),
                forall|k: int| 0 <= k < i ==> #[trigger] pb@[k] == target.data@[perm@[k] as int],
            decreases L - i,
        {
            pb[i] = target.data[perm[i]];
            i = i + 1;
        }
        let ghost bseq = Seq::new(L as nat, |k: int| target.data@[perm@[k] as int]);
        assert(pb@ =~= bseq);
        assert forall|k: int| 0 <= k < L implies (#[trigger] pb@[k]).wf() by {
            assert(perm@[k] < L);
        }
        let pbv = VectorPrecise { data: pb };
        assert(bseq == permute_seq(target.data@, pivot_perm(*self)));
        let y = match l.forward_sub(pbv) {
            Some(y) => y,
            None => {
                proof {
                    if lup_solvable(*self, target.data@) {
                        let (l2, u2, y2, x2) = choose|l2: MatrixPrecise<L, L>, u2: MatrixPrecise<L, L>, y2: Seq<r32>, x2: Seq<r32>|
                            lup_of(*self, l2, u2) && lup_solves(l2, u2, bseq, y2, x2);
                        assert(agrees(l, u, l2, u2, L as int, 0, 0));
                        lemma_forward_ext(l2, l, bseq, y2);
                    }
                }
                return None;
            },
        };
        let x = match u.back_sub(y) {
            Some(x) => x,
            None => {
                proof {
                    if lup_solvable(*self, target.data@) {
                        let (l2, u2, y2, x2) = choose|l2: MatrixPrecise<L, L>, u2: MatrixPrecise<L, L>, y2: Seq<r32>, x2: Seq<r32>|
                            lup_of(*self, l2, u2) && lup_solves(l2, u2, bseq, y2, x2);
                        assert(agrees(l, u, l2, u2, L as int, 0, 0));
                        lemma_forward_ext(l2, l, bseq, y2);
                        lemma_forward_unique(l, bseq, y2, y.data@);
                        assert(y2 =~= y.data@);
                        lemma_backward_ext(u2, u, y2, x2);
                    }
                }
                return None;
            },
        };
        assert(is_backward(u, y.data@, x.data@));
        Some(x)
    }

    ///The determinant from the LUP decomposition: the product of the diagonal of `U`,
    ///negated when the pivoting order is an odd permutation. `None` where `lup` fails or a
    ///value does not fit.
    pub fn lup_det(&self) -> (r: Option<r32>)
        requires
            self.wf(),
        ensures
            r == lup_det_spec(*self),
            r matches Some(d) ==> d.wf(),
    {
        let (l, u, _p, perm) = match self.lup_with_perm() {
            Some(t) => t,
            None => {
                assert(lup_det_spec(*self) is None);
                return None;
            },
        };
        proof {
            lemma_zero_wf();
            let (l2, u2) = choose|l2: MatrixPrecise<L, L>, u2: MatrixPrecise<L, L>| #[trigger] lup_of(*self, l2, u2);
            assert(agrees(l, u, l2, u2, L as int, 0, 0));
            lemma_diag_frame(u, u2, L as int);
        }
        let ghost target = lup_det_spec(*self);
        assert(target == signed_det(diag_upto(u, L as int), perm@));
        let mut d = r32::new_raw(1, 1);
        let mut i: usize = 0;
        while i < L
            invariant
                i <= L,
                u.wf(),
                d.wf(),
                diag_upto(u, i as int) == Some(d),
                target == signed_det(diag_upto(u, L as int), perm@),
                target == lup_det_spec(*self),
            decreases L - i,
        {
            assert(u.at(i as int, i as int).wf());
            d = match d.checked_mul(u.data[i][i]) {
                Some(v) => v,
                None => {
                    proof {
                        lemma_diag_none_extends(u, i + 1, L as int);
                        assert(signed_det(diag_upto(u, L as int), perm@) is None);
                        assert(target is None);
                    }
                    return None;
                },
            };
            i = i + 1;
        }
        let mut odd = false;
        let mut b: usize = 0;
        while b < L
            invariant
                b <= L,
                perm@.len() == L,
                odd == (inversions(perm@, b as int) % 2 == 1),
                d.wf(),
                target == signed_det(Some(d), perm@),
                target == lup_det_spec(*self),
            decreases L - b,
        {
            let mut a: usize = 0;
            while a < b
                invariant
                    a <= b < L,
                    perm@.len() == L,
                    odd == ((inversions(perm@, b as int) + inversions_before(perm@, b as int, a as int)) % 2
                        == 1),
                decreases b - a,
            {
                if perm[a] > perm[b] {
                    odd = !odd;
                }
                a = a + 1;
            }
            b = b + 1;
        }
        assert(odd == (inversions(perm@, perm@.len() as int) % 2 == 1));
        if odd {
            match d.checked_neg() {
                Some(v) => {
                    assert(v == d.spec_neg());
                    Some(v)
                },
                None => None,
            }
        } else {
            Some(d)
        }
    }

    ///The inverse by LUP substitution: column `j` solves `A·x = e_j`. `None` when the
    ///determinant from `lup_det` is zero, or a solve fails.
    pub fn lup_inverse(&self) -> (r: Option<MatrixPrecise<L, L>>)
        requires
            self.wf(),
        ensures
            r matches Some(m) ==> m.wf() && forall|j: int|
                0 <= j < L ==> is_lup_solution(*self, unit_seq(L as int, j), #[trigger] m.col_seq(j)),
            r is None ==> (lup_det_spec(*self) matches Some(d) && d.n == 0) || exists|j: int|
                0 <= j < L && !#[trigger] lup_solvable(*self, unit_seq(L as int, j)),
            !(lup_det_spec(*self) matches Some(d) && d.n == 0) && (forall|j: int|
                0 <= j < L ==> #[trigger] lup_solvable(*self, unit_seq(L as int, j))) ==> r is Some,
    {
        if let Some(d) = self.lup_det() {
            if d.n == 0 {
                return None;
            }
        }
        let id = Self::identity();
        proof {
            lemma_zero_wf();
        }
        let mut m = MatrixPrecise::<L, L>::zeros();
        let mut j: usize = 0;
        while j < L
            invariant
                j <= L,
                self.wf(),
                m.wf(),
                is_identity(id),
                id.wf(),
                forall|c: int| 0 <= c < j ==> is_lup_solution(*self, unit_seq(L as int, c), #[trigger] m.col_seq(c)),
            decreases L - j,
        {
            let e = id.row(j);
            assert forall|k: int| 0 <= k < L implies e.data@[k] == unit_seq(L as int, j as int)[k] by {
                assert(e.data@[k] == id.at(j as int, k));
            }
            assert(e.data@ =~= unit_seq(L as int, j as int));
            assert forall|k: int| 0 <= k < L implies (#[trigger] e.data@[k]).wf() by {
                assert(e.data@[k] == id.at(j as int, k));
            }
            let x = match self.lup_sub(e) {
                Some(x) => x,
                None => {
                    assert(!lup_solvable(*self, unit_seq(L as int, j as int)));
                    return None;
                },
            };
            let ghost m0 = m;
            let mut i: usize = 0;
            while i < L
                invariant
                    i <= L,
                    j < L,
                    x.wf(),
                    m.wf(),
                    forall|a: int, b: int| 0 <= a < L && 0 <= b < L && b != j ==> #[trigger] m.at(a, b) == m0.at(a, b),
                    forall|a: int| 0 <= a < i ==> #[trigger] m.at(a, j as int) == x.data@[a],
                decreases L - i,
            {
                assert(x.data@[i as int].wf());
                m.set(i, j, x.data[i]);
                i = i + 1;
            }
            proof {
                assert forall|a: int| 0 <= a < L implies m.col_seq(j as int)[a] == x.data@[a] by {
                    assert(m.at(a, j as int) == x.data@[a]);
                }
                assert(m.col_seq(j as int) =~= x.data@);
                assert forall|c: int| 0 <= c < j + 1 implies is_lup_solution(
                    *self,
                    unit_seq(L as int, c),
                    #[trigger] m.col_seq(c),
                ) by {
                    if c < j {
                        assert forall|a: int| 0 <= a < L implies m.col_seq(c)[a] == m0.col_seq(c)[a] by {
                            assert(m.at(a, c) == m0.at(a, c));
                        }
                        assert(m.col_seq(c) =~= m0.col_seq(c));
                    }
                }
            }
            j = j + 1;
        }
        Some(m)
    }
}


/// Where entry `k` of the minor of a `d0 × d1` row-major sequence, without row `r` and
/// column `c`, comes from.
pub open spec fn minor_src(d1: int, r: int, c: int, k: int) -> int {
    let i = k / (d1 - 1);
    let j = k % (d1 - 1);
    (if i >= r { i + 1 } else { i }) * d1 + (if j >= c { j + 1 } else { j })
}

/// The minor of a `d0 × d1` row-major sequence without row `r` and column `c`, row-major.
pub open spec fn minor_seq(v: Seq<r32>, d0: int, d1: int, r: int, c: int) -> Seq<r32> {
    Seq::new(((d0 - 1) * (d1 - 1)) as nat, |k: int| v[minor_src(d1, r, c, k)])
}

/// The determinant of an `n × n` row-major sequence by cofactor expansion along the first
/// row, with exact operations; `None` when the length is not `n²` or a step does not fit.
pub open spec fn laplace(v: Seq<r32>, n: int) -> Option<r32>
    decreases n, n + 1,
{
    if n < 0 || v.len() != n * n {
        None
    } else if n == 1 {
        Some(v[0])
    } else {
        laplace_sum(v, n, n)
    }
}

/// The first `k` terms of the cofactor expansion of `v` along its first row, with
/// alternating signs.
pub open spec fn laplace_sum(v: Seq<r32>, n: int, k: int) -> Option<r32>
    decreases n, k,
{
    if k <= 0 || n <= 0 {
        Some(zero())
    } else {
        match laplace_sum(v, n, k - 1) {
            Some(s) => match laplace(minor_seq(v, n, n, 0, k - 1), n - 1) {
                Some(m) => if v[k - 1].mul_fits(m) {
                    let t = v[k - 1].spec_mul(m);
                    if (k - 1) % 2 == 0 {
                        if s.add_fits(t) {
                            Some(s.spec_add(t))
                        } else {
                            None
                        }
                    } else {
                        if s.sub_fits(t) {
                            Some(s.spec_sub(t))
                        } else {
                            None
                        }
                    }
                } else {
                    None
                },
                None => None,
            },
            None => None,
        }
    }
}

/// The components of a matrix, row by row.
pub open spec fn flatten<const R: usize, const C: usize>(m: MatrixPrecise<R, C>) -> Seq<r32> {
    Seq::new(((R as int) * (C as int)) as nat, |k: int| m.at(k / C as int, k % C as int))
}

/// `x` with its sign flipped when `i + j` is odd.
pub open spec fn signed_by(x: r32, i: int, j: int) -> r32 {
    if (i + j) % 2 == 0 {
        x
    } else {
        x.spec_neg()
    }
}

/// The signed cofactor `(-1)^(i+j)·x` fits: the sign is `+`, or `x` has a negation.
pub open spec fn cof_entry_ok(x: r32, i: int, j: int) -> bool {
    (i + j) % 2 == 0 || x.n > i16::MIN
}

/// Every cofactor of `a` can be computed exactly: `a` is at least 2 × 2, and each minor's
/// determinant and its signed value fit.
pub open spec fn cofactor_fits<const L: usize>(a: MatrixPrecise<L, L>) -> bool {
    &&& L >= 2
    &&& forall|i: int, j: int|
        0 <= i < L && 0 <= j < L ==> match #[trigger] laplace(
            minor_seq(flatten(a), L as int, L as int, i, j),
            L - 1,
        ) {
            Some(x) => cof_entry_ok(x, i, j),
            None => false,
        }
}

/// Every cofactor of the `dim × dim` row-major sequence `v` can be computed exactly.
pub open spec fn cofactor_vec_fits(v: Seq<r32>, dim: int) -> bool {
    &&& v.len() == dim * dim
    &&& v.len() > 1
    &&& forall|q: int|
        0 <= q < v.len() ==> match #[trigger] laplace(
            minor_seq(v, dim, dim, q / dim, q % dim),
            dim - 1,
        ) {
            Some(x) => cof_entry_ok(x, q / dim, q % dim),
            None => false,
        }
}

/// `adj` is the adjoint of `a`: the transposed cofactor matrix.
pub open spec fn is_adjoint_of<const L: usize>(a: MatrixPrecise<L, L>, adj: MatrixPrecise<L, L>) -> bool {
    exists|cof: MatrixPrecise<L, L>|
        #[trigger] is_cofactor(a, cof) && forall|i: int, j: int|
            0 <= i < L && 0 <= j < L ==> #[trigger] adj.at(i, j) == cof.at(j, i)
}

/// The adjoint route to the inverse goes through with exact `r32` values: every cofactor
/// fits, and for the adjoint, the determinant `d` (first row of `a` times first column of
/// the adjoint) fits and is not zero, `1/d` fits, and every entry of the adjoint times `1/d`
/// fits.
pub open spec fn inverse_fits<const L: usize>(a: MatrixPrecise<L, L>) -> bool {
    &&& cofactor_fits(a)
    &&& forall|adj: MatrixPrecise<L, L>|
        #[trigger] is_adjoint_of(a, adj) ==> match dot_upto(a.row_seq(0), adj.col_seq(0), L as int) {
            Some(d) => {
                &&& d.n != 0
                &&& crate::num::rational::fits32(d.d as int, d.n as int)
                &&& forall|i: int, j: int|
                    0 <= i < L && 0 <= j < L ==> (#[trigger] adj.at(i, j)).mul_fits(
                        r32::of(d.d as int, d.n as int),
                    )
            },
            None => false,
        }
}

/// `cof` is the cofactor matrix of `a`: entry `(i, j)` is `(-1)^(i+j)` times the
/// determinant of the minor without row `i` and column `j`.
pub open spec fn is_cofactor<const L: usize>(a: MatrixPrecise<L, L>, cof: MatrixPrecise<L, L>) -> bool {
    forall|i: int, j: int|
        0 <= i < L && 0 <= j < L ==> match #[trigger] laplace(
            minor_seq(flatten(a), L as int, L as int, i, j),
            L - 1,
        ) {
            Some(x) => cof.at(i, j) == signed_by(x, i, j),
            None => false,
        }
}

proof fn lemma_index_split(k: int, c: int, i: int, j: int)
    requires
        c > 0,
        0 <= j < c,
        k == i * c + j,
    ensures
        k / c == i,
        k % c == j,
{
    vstd::arithmetic::div_mod::lemma_fundamental_div_mod_converse(k, c, i, j);
}

impl<const R: usize, const C: usize> MatrixPrecise<R, C> {
    ///Returns the components row by row.
    pub fn to_data_vec(&self) -> (r: Vec<r32>)
        ensures
            r@ == flatten(*self),
    {
        let mut v: Vec<r32> = Vec::new();
        let mut i: usize = 0;
        while i < R
            invariant
                i <= R,
                v@.len() == i * C,
                forall|k: int| 0 <= k < v@.len() ==> #[trigger] v@[k] == self.at(k / C as int, k % C as int),
            decreases R - i,
        {
            let mut j: usize = 0;
            while j < C
                invariant
                    i < R,
                    j <= C,
                    v@.len() == i * C + j,
                    forall|k: int| 0 <= k < v@.len() ==> #[trigger] v@[k] == self.at(k / C as int, k % C as int),
                decreases C - j,
            {
                proof {
                    lemma_index_split((i * C + j) as int, C as int, i as int, j as int);
                }
                v.push(self.data[i][j]);
                j = j + 1;
            }
            assert(i * C + C == (i + 1) * C) by (nonlinear_arith);
            i = i + 1;
        }
        assert(v@ =~= flatten(*self));
        v
    }

    ///The components of a `dim.0 × dim.1` row-major sequence without row `index.0` and
    ///column `index.1`; empty when a dimension is zero or the index is out of range, and
    ///the sequence itself for a single component.
    pub fn minor_vec(vec: &Vec<r32>, dim: (usize, usize), index: (usize, usize)) -> (r: Vec<r32>)
        requires
            vec@.len() >= dim.0 * dim.1,
        ensures
            dim.0 == 0 || dim.1 == 0 || index.0 >= dim.0 || index.1 >= dim.1 ==> r@.len() == 0,
            !(dim.0 == 0 || dim.1 == 0 || index.0 >= dim.0 || index.1 >= dim.1) && dim.0 == 1 && dim.1
                == 1 ==> r@ == vec@,
            !(dim.0 == 0 || dim.1 == 0 || index.0 >= dim.0 || index.1 >= dim.1) && !(dim.0 == 1
                && dim.1 == 1) ==> r@ == minor_seq(vec@, dim.0 as int, dim.1 as int, index.0 as int, index.1 as int),
    {
        if dim.0 == 0 || dim.1 == 0 || index.0 >= dim.0 || index.1 >= dim.1 {
            return Vec::new();
        } else if dim.0 == 1 && dim.1 == 1 {
            return vec.clone();
        }
        let (d0, d1) = dim;
        let (r, c) = index;
        let ghost target = minor_seq(vec@, d0 as int, d1 as int, r as int, c as int);
        let mut data: Vec<r32> = Vec::new();
        if d1 == 1 {
            assert(target.len() == 0) by (nonlinear_arith)
                requires target.len() == (d0 - 1) * (d1 - 1), d1 == 1;
            assert(data@ =~= target);
            return data;
        }
        let vlen = vec.len();
        let mut row0: usize = 0;
        while row0 < d0
            invariant
                vlen == vec@.len(),
                0 < d0,
                1 < d1,
                r < d0,
                c < d1,
                row0 <= d0,
                vec@.len() >= d0 * d1,
                target == minor_seq(vec@, d0 as int, d1 as int, r as int, c as int),
                data@.len() == (if row0 > r { row0 - 1 } else { row0 as int }) * (d1 - 1),
                forall|k: int| 0 <= k < data@.len() ==> #[trigger] data@[k] == target[k],
            decreases d0 - row0,
        {
            if row0 != r {
                let ghost rr: int = if row0 > r { row0 - 1 } else { row0 as int };
                let mut col0: usize = 0;
                while col0 < d1
                    invariant
                        vlen == vec@.len(),
                        0 < d0,
                        1 < d1,
                        r < d0,
                        c < d1,
                        row0 < d0,
                        row0 != r,
                        col0 <= d1,
                        rr == (if row0 > r { row0 - 1 } else { row0 as int }),
                        vec@.len() >= d0 * d1,
                        target == minor_seq(vec@, d0 as int, d1 as int, r as int, c as int),
                        data@.len() == rr * (d1 - 1) + (if col0 > c { col0 - 1 } else { col0 as int }),
                        forall|k: int| 0 <= k < data@.len() ==> #[trigger] data@[k] == target[k],
                    decreases d1 - col0,
                {
                    if col0 != c {
                        let ghost cc: int = if col0 > c { col0 - 1 } else { col0 as int };
                        assert(row0 * d1 + col0 < d0 * d1) by (nonlinear_arith)
                            requires row0 < d0, col0 < d1;
                        assert(0 <= rr < d0 - 1 && 0 <= cc < d1 - 1);
                        assert(rr * (d1 - 1) + cc < (d0 - 1) * (d1 - 1)) by (nonlinear_arith)
                            requires 0 <= rr < d0 - 1, 0 <= cc < d1 - 1;
                        proof {
                            lemma_index_split(rr * (d1 - 1) + cc, d1 - 1, rr, cc);
                            assert(minor_src(d1 as int, r as int, c as int, rr * (d1 - 1) + cc) == row0
                                * d1 + col0);
                        }
                        let x = vec[row0 * d1 + col0];
                        data.push(x);
                    }
                    col0 = col0 + 1;
                }
                assert(rr * (d1 - 1) + (d1 - 1) == (rr + 1) * (d1 - 1)) by (nonlinear_arith);
            }
            row0 = row0 + 1;
        }
        assert(data@ =~= target);
        data
    }
}


/// Entries of a minor come from inside the full sequence.
proof fn lemma_minor_src_bounds(d0: int, d1: int, r: int, c: int, k: int)
    requires
        d0 > 1,
        d1 > 1,
        0 <= r < d0,
        0 <= c < d1,
        0 <= k < (d0 - 1) * (d1 - 1),
    ensures
        0 <= minor_src(d1, r, c, k) < d0 * d1,
{
    let e = d1 - 1;
    vstd::arithmetic::div_mod::lemma_fundamental_div_mod(k, e);
    let i = k / e;
    let j = k % e;
    assert(0 <= i < d0 - 1) by (nonlinear_arith)
        requires k == e * i + j, 0 <= j < e, 0 <= k < (d0 - 1) * e, e > 0;
    let row = if i >= r { i + 1 } else { i };
    let col = if j >= c { j + 1 } else { j };
    assert(0 <= row * d1 + col < d0 * d1) by (nonlinear_arith)
        requires 0 <= row < d0, 0 <= col < d1;
}

/// Entries of the flattened matrix are its components.
proof fn lemma_flatten_wf<const L: usize>(m: MatrixPrecise<L, L>)
    requires
        m.wf(),
    ensures
        all_wf(flatten(m)),
{
    assert forall|k: int| 0 <= k < flatten(m).len() implies (#[trigger] flatten(m)[k]).wf() by {
        let c = L as int;
        assert(c * c >= 0) by (nonlinear_arith);
        assert(flatten(m).len() == ((L as int) * (L as int)) as nat);
        assert(k < c * c);
        assert(c > 0) by (nonlinear_arith)
            requires k < c * c, k >= 0, c >= 0;
        vstd::arithmetic::div_mod::lemma_fundamental_div_mod(k, c);
        assert(0 <= k / c < c) by (nonlinear_arith)
            requires k == c * (k / c) + k % c, 0 <= k % c < c, 0 <= k < c * c;
        assert(m.at(k / c, k % c).wf());
    }
}

impl<const L: usize> MatrixPrecise<L, L> {
    ///The determinant of a `dim × dim` row-major sequence by cofactor expansion along the
    ///first row. `None` when the length is not `dim²` or a value does not fit.
    pub fn det_vec(vec: &Vec<r32>, dim: usize) -> (r: Option<r32>)
        requires
            all_wf(vec@),
        ensures
            r == laplace(vec@, dim as int),
            r matches Some(x) ==> x.wf(),
        decreases dim,
    {
        let len = vec.len();
        assert((dim as u128) * (dim as u128) <= u128::MAX) by (nonlinear_arith)
            requires dim <= u64::MAX;
        if (len as u128) != (dim as u128) * (dim as u128) {
            return None;
        }
        if dim == 1 {
            assert((dim as u128) * (dim as u128) == 1) by (nonlinear_arith)
                requires dim == 1;
            assert(len == 1);
            assert(vec@[0].wf());
            return Some(vec[0]);
        }
        proof {
            lemma_zero_wf();
        }
        let mut sum = r32::default();
        let mut i: usize = 0;
        while i < dim
            invariant
                i <= dim,
                dim != 1,
                len == vec@.len(),
                len == dim * dim,
                all_wf(vec@),
                sum.wf(),
                laplace_sum(vec@, dim as int, i as int) == Some(sum),
            decreases dim - i,
        {
            assert(dim >= 2);
            assert(i < dim * dim) by (nonlinear_arith)
                requires i < dim, dim >= 2;
            let minor = Self::minor_vec(vec, (dim, dim), (0, i));
            assert forall|k: int| 0 <= k < minor@.len() implies (#[trigger] minor@[k]).wf() by {
                lemma_minor_src_bounds(dim as int, dim as int, 0, i as int, k);
            }
            let ghost mseq = minor_seq(vec@, dim as int, dim as int, 0, i as int);
            let m = match Self::det_vec(&minor, dim - 1) {
                Some(m) => m,
                None => {
                    proof {
                        lemma_laplace_sum_none(vec@, dim as int, i as int + 1, dim as int);
                    }
                    return None;
                },
            };
            assert(vec@[i as int].wf());
            let t = match vec[i].checked_mul(m) {
                Some(t) => t,
                None => {
                    proof {
                        lemma_laplace_sum_none(vec@, dim as int, i as int + 1, dim as int);
                    }
                    return None;
                },
            };
            let next = if i % 2 == 0 {
                sum.checked_add(t)
            } else {
                sum.checked_sub(t)
            };
            sum = match next {
                Some(v) => v,
                None => {
                    proof {
                        lemma_laplace_sum_none(vec@, dim as int, i as int + 1, dim as int);
                    }
                    return None;
                },
            };
            i = i + 1;
        }
        Some(sum)
    }

    ///The determinant by cofactor expansion along the first row; `None` when a value does
    ///not fit.
    pub fn det(&self) -> (r: Option<r32>)
        requires
            self.wf(),
        ensures
            r == laplace(flatten(*self), L as int),
    {
        proof {
            lemma_flatten_wf(*self);
        }
        Self::det_vec(&self.to_data_vec(), L)
    }

    ///The cofactor matrix: entry `(i, j)` is `(-1)^(i+j)` times the determinant of the
    ///minor without row `i` and column `j`. `None` for a matrix smaller than 2 × 2, or when
    ///a value does not fit.
    pub fn cofactor(&self) -> (r: Option<MatrixPrecise<L, L>>)
        requires
            self.wf(),
        ensures
            r is Some <==> cofactor_fits(*self),
            r matches Some(m) ==> m.wf() && is_cofactor(*self, m),
    {
        if L <= 1 {
            return None;
        }
        let v = self.to_data_vec();
        proof {
            lemma_flatten_wf(*self);
            lemma_zero_wf();
        }
        let mut out = MatrixPrecise::<L, L>::zeros();
        let mut row: usize = 0;
        while row < L
            invariant
                1 < L,
                row <= L,
                v@ == flatten(*self),
                all_wf(v@),
                out.wf(),
                forall|i: int, j: int|
                    0 <= i < row && 0 <= j < L ==> match #[trigger] laplace(
                        minor_seq(flatten(*self), L as int, L as int, i, j),
                        L - 1,
                    ) {
                        Some(x) => cof_entry_ok(x, i, j) && out.at(i, j) == signed_by(x, i, j),
                        None => false,
                    },
            decreases L - row,
        {
            let mut col: usize = 0;
            while col < L
                invariant
                    1 < L,
                    row < L,
                    col <= L,
                    v@ == flatten(*self),
                    all_wf(v@),
                    out.wf(),
                    forall|i: int, j: int|
                        0 <= i < L && 0 <= j < L && !(i == row && j >= col) && (i < row || i == row) ==> match #[trigger] laplace(
                            minor_seq(flatten(*self), L as int, L as int, i, j),
                            L - 1,
                        ) {
                            Some(x) => cof_entry_ok(x, i, j) && out.at(i, j) == signed_by(x, i, j),
                            None => false,
                        },
                decreases L - col,
            {
                assert(v@.len() == L * L);
                let minor = Self::minor_vec(&v, (L, L), (row, col));
                assert forall|k: int| 0 <= k < minor@.len() implies (#[trigger] minor@[k]).wf() by {
                    lemma_minor_src_bounds(L as int, L as int, row as int, col as int, k);
                }
                let x = match Self::det_vec(&minor, L - 1) {
                    Some(x) => x,
                    None => {
                        assert(!cofactor_fits(*self)) by {
                            assert(laplace(minor_seq(flatten(*self), L as int, L as int, row as int, col as int), L - 1) is None);
                        }
                        return None;
                    },
                };
                assert(((row + col) % 2 == 0) == ((row % 2 == 0) == (col % 2 == 0)));
                let e = if (row % 2 == 0) == (col % 2 == 0) {
                    x
                } else {
                    match x.checked_neg() {
                        Some(v) => v,
                        None => {
                            assert(!cofactor_fits(*self)) by {
                                assert(laplace(minor_seq(flatten(*self), L as int, L as int, row as int, col as int), L - 1) == Some(x));
                            }
                            return None;
                        },
                    }
                };
                let ghost out0 = out;
                out.set(row, col, e);
                proof {
                    assert forall|i: int, j: int|
                        0 <= i < L && 0 <= j < L && !(i == row && j >= col + 1) && (i < row || i == row) implies match #[trigger] laplace(
                            minor_seq(flatten(*self), L as int, L as int, i, j),
                            L - 1,
                        ) {
                            Some(x) => cof_entry_ok(x, i, j) && out.at(i, j) == signed_by(x, i, j),
                            None => false,
                        } by {
                        if !(i == row && j == col) {
                            assert(out.at(i, j) == out0.at(i, j));
                        }
                    }
                }
                col = col + 1;
            }
            row = row + 1;
        }
        assert(cofactor_fits(*self)) by {
            assert forall|i: int, j: int| 0 <= i < L && 0 <= j < L implies match #[trigger] laplace(
                minor_seq(flatten(*self), L as int, L as int, i, j),
                L - 1,
            ) {
                Some(x) => cof_entry_ok(x, i, j),
                None => false,
            } by {}
        }
        Some(out)
    }

    ///The adjoint: the transposed cofactor matrix. `None` where `cofactor` is.
    pub fn adjoint(&self) -> (r: Option<MatrixPrecise<L, L>>)
        requires
            self.wf(),
        ensures
            r is Some <==> cofactor_fits(*self),
            r matches Some(m) ==> m.wf() && exists|cof: MatrixPrecise<L, L>|
                #[trigger] is_cofactor(*self, cof) && forall|i: int, j: int|
                    0 <= i < L && 0 <= j < L ==> #[trigger] m.at(i, j) == cof.at(j, i),
    {
        match self.cofactor() {
            Some(m) => {
                let t = m.transpose();
                assert forall|i: int, j: int| 0 <= i < L && 0 <= j < L implies (#[trigger] t.at(i, j)).wf() by {
                    assert(t.at(i, j) == m.at(j, i));
                }
                Some(t)
            },
            None => None,
        }
    }

    ///The inverse as the adjoint divided by the determinant, where the determinant is the
    ///first row of this matrix times the first column of the adjoint. `None` for a matrix
    ///smaller than 2 × 2, a zero determinant, or a value that does not fit.
    pub fn inverse(&self) -> (r: Option<MatrixPrecise<L, L>>)
        requires
            self.wf(),
        ensures
            r matches Some(m) ==> exists|adj: MatrixPrecise<L, L>, d: r32|
                #![trigger dot_upto(self.row_seq(0), adj.col_seq(0), L as int), d.n]
                (exists|cof: MatrixPrecise<L, L>|
                    #[trigger] is_cofactor(*self, cof) && forall|i: int, j: int|
                        0 <= i < L && 0 <= j < L ==> #[trigger] adj.at(i, j) == cof.at(j, i))
                    && dot_upto(self.row_seq(0), adj.col_seq(0), L as int) == Some(d) && d.n != 0
                    && forall|i: int, j: int|
                    0 <= i < L && 0 <= j < L ==> #[trigger] m.at(i, j) == adj.at(i, j).spec_mul(
                        r32::of(d.d as int, d.n as int),
                    ),
            inverse_fits(*self) ==> r is Some,
    {
        let adj = match self.adjoint() {
            Some(a) => a,
            None => return None,
        };
        assert(is_adjoint_of(*self, adj));
        let row0 = self.row(0);
        let col0 = adj.col(0);
        assert forall|k: int| 0 <= k < L implies (#[trigger] row0.data@[k]).wf() by {
            assert(row0.data@[k] == self.at(0, k));
        }
        assert forall|k: int| 0 <= k < L implies (#[trigger] col0.data@[k]).wf() by {
            assert(col0.data@[k] == adj.at(k, 0));
        }
        assert(row0.data@ == self.row_seq(0) && col0.data@ == adj.col_seq(0));
        let d = match row0.checked_dot(&col0) {
            Some(d) => d,
            None => {
                assert(!inverse_fits(*self));
                return None;
            },
        };
        if d.n == 0 {
            assert(!inverse_fits(*self));
            return None;
        }
        let rec = match d.reciprocal() {
            Ok(v) => v,
            Err(_) => {
                assert(!inverse_fits(*self));
                return None;
            },
        };
        let mut out = adj;
        let mut i: usize = 0;
        while i < L
            invariant
                i <= L,
                adj.wf(),
                rec.wf(),
                rec == r32::of(d.d as int, d.n as int),
                is_adjoint_of(*self, adj),
                dot_upto(self.row_seq(0), adj.col_seq(0), L as int) == Some(d),
                forall|a: int, b: int| 0 <= a < L && 0 <= b < L && a >= i ==> #[trigger] out.at(a, b) == adj.at(a, b),
                forall|a: int, b: int| 0 <= a < i && 0 <= b < L ==> #[trigger] out.at(a, b) == adj.at(a, b).spec_mul(rec),
                forall|a: int, b: int| 0 <= a < L && 0 <= b < L ==> (#[trigger] out.at(a, b)).wf(),
            decreases L - i,
        {
            let mut j: usize = 0;
            while j < L
                invariant
                    i < L,
                    j <= L,
                    adj.wf(),
                    rec.wf(),
                    rec == r32::of(d.d as int, d.n as int),
                    is_adjoint_of(*self, adj),
                    dot_upto(self.row_seq(0), adj.col_seq(0), L as int) == Some(d),
                    forall|a: int, b: int| 0 <= a < L && 0 <= b < L && (a > i || (a == i && b >= j)) ==> #[trigger] out.at(a, b) == adj.at(a, b),
                    forall|a: int, b: int| 0 <= a < L && 0 <= b < L && (a < i || (a == i && b < j)) ==> #[trigger] out.at(a, b) == adj.at(a, b).spec_mul(rec),
                    forall|a: int, b: int| 0 <= a < L && 0 <= b < L ==> (#[trigger] out.at(a, b)).wf(),
                decreases L - j,
            {
                assert(adj.at(i as int, j as int).wf());
                let e = match adj.data[i][j].checked_mul(rec) {
                    Some(e) => e,
                    None => {
                        assert(!inverse_fits(*self)) by {
                            assert(!adj.at(i as int, j as int).mul_fits(r32::of(d.d as int, d.n as int)));
                        }
                        return None;
                    },
                };
                out.set(i, j, e);
                j = j + 1;
            }
            i = i + 1;
        }
        assert(row0.data@ == self.row_seq(0) && col0.data@ == adj.col_seq(0));
        assert(dot_upto(self.row_seq(0), adj.col_seq(0), L as int) == Some(d) && d.n != 0);
        Some(out)
    }

    ///The cofactors of a `dim × dim` row-major sequence, row-major. `None` when the length
    ///is not `dim²` or is at most one, or when a value does not fit.
    pub fn cofactor_vec(vec: &Vec<r32>, dim: usize) -> (r: Option<Vec<r32>>)
        requires
            all_wf(vec@),
        ensures
            r is Some <==> cofactor_vec_fits(vec@, dim as int),
            r matches Some(w) ==> w@.len() == vec@.len() && dim > 1 && forall|k: int|
                0 <= k < w@.len() ==> match #[trigger] laplace(
                    minor_seq(vec@, dim as int, dim as int, k / dim as int, k % dim as int),
                    dim - 1,
                ) {
                    Some(x) => w@[k] == signed_by(x, k / dim as int, k % dim as int),
                    None => false,
                },
    {
        let len = vec.len();
        assert((dim as u128) * (dim as u128) <= u128::MAX) by (nonlinear_arith)
            requires dim <= u64::MAX;
        if (len as u128) != (dim as u128) * (dim as u128) || len <= 1 {
            assert(!cofactor_vec_fits(vec@, dim as int));
            return None;
        }
        assert(dim > 1) by (nonlinear_arith)
            requires len == dim * dim, len > 1;
        let mut v: Vec<r32> = Vec::new();
        let mut k: usize = 0;
        while k < len
            invariant
                len == vec@.len(),
                len == dim * dim,
                len > 1,
                dim > 1,
                k <= len,
                all_wf(vec@),
                v@.len() == k,
                forall|q: int|
                    0 <= q < k ==> match #[trigger] laplace(
                        minor_seq(vec@, dim as int, dim as int, q / dim as int, q % dim as int),
                        dim - 1,
                    ) {
                        Some(x) => cof_entry_ok(x, q / dim as int, q % dim as int) && v@[q] == signed_by(x, q / dim as int, q % dim as int),
                        None => false,
                    },
            decreases len - k,
        {
            let row = k / dim;
            let col = k % dim;
            assert(row < dim) by (nonlinear_arith)
                requires row == k / dim, k < dim * dim, dim > 0;
            let minor = Self::minor_vec(vec, (dim, dim), (row, col));
            assert forall|q: int| 0 <= q < minor@.len() implies (#[trigger] minor@[q]).wf() by {
                lemma_minor_src_bounds(dim as int, dim as int, row as int, col as int, q);
            }
            let x = match Self::det_vec(&minor, dim - 1) {
                Some(x) => x,
                None => {
                    assert(!cofactor_vec_fits(vec@, dim as int)) by {
                        assert(laplace(minor_seq(vec@, dim as int, dim as int, k as int / dim as int, k as int % dim as int), dim - 1) is None);
                    }
                    return None;
                },
            };
            assert(((row + col) % 2 == 0) == ((row % 2 == 0) == (col % 2 == 0)));
            let e = if (row % 2 == 0) == (col % 2 == 0) {
                x
            } else {
                match x.checked_neg() {
                    Some(v) => v,
                    None => {
                        assert(!cofactor_vec_fits(vec@, dim as int)) by {
                            assert(laplace(minor_seq(vec@, dim as int, dim as int, k as int / dim as int, k as int % dim as int), dim - 1) == Some(x));
                        }
                        return None;
                    },
                }
            };
            let ghost v0 = v@;
            v.push(e);
            assert forall|q: int|
                0 <= q < k + 1 implies match #[trigger] laplace(
                    minor_seq(vec@, dim as int, dim as int, q / dim as int, q % dim as int),
                    dim - 1,
                ) {
                    Some(x) => cof_entry_ok(x, q / dim as int, q % dim as int) && v@[q] == signed_by(x, q / dim as int, q % dim as int),
                    None => false,
                } by {
                if q < k {
                    assert(v@[q] == v0[q]);
                }
            }
            k = k + 1;
        }
        assert(cofactor_vec_fits(vec@, dim as int)) by {
            assert forall|q: int| 0 <= q < vec@.len() implies match #[trigger] laplace(
                minor_seq(vec@, dim as int, dim as int, q / dim as int, q % dim as int),
                dim - 1,
            ) {
                Some(x) => cof_entry_ok(x, q / dim as int, q % dim as int),
                None => false,
            } by {}
        }
        Some(v)
    }
}

/// Once a partial expansion fails to fit, every longer one fails too.
proof fn lemma_laplace_sum_none(v: Seq<r32>, n: int, k: int, m: int)
    requires
        laplace_sum(v, n, k) is None,
        0 < k <= m,
    ensures
        laplace_sum(v, n, m) is None,
    decreases m - k,
{
    if k < m {
        lemma_laplace_sum_none(v, n, k + 1, m);
    }
}


impl<const R: usize, const C: usize> MatrixPrecise<R, C> {
    ///Copies this matrix into one of another size: components within both sizes are kept,
    ///the rest are zero.
    pub fn change_dimensions<const R0: usize, const C0: usize>(&self) -> (r: MatrixPrecise<R0, C0>)
        ensures
            forall|i: int, j: int|
                0 <= i < R0 && 0 <= j < C0 ==> #[trigger] r.at(i, j) == if i < R && j < C {
                    self.at(i, j)
                } else {
                    zero()
                },
    {
        let mut out = MatrixPrecise::<R0, C0>::zeros();
        let mut row: usize = 0;
        while row < R0
            invariant
                row <= R0,
                forall|i: int, j: int|
                    0 <= i < R0 && 0 <= j < C0 ==> #[trigger] out.at(i, j) == if i < row && i < R && j < C {
                        self.at(i, j)
                    } else {
                        zero()
                    },
            decreases R0 - row,
        {
            if row < R {
                let mut col: usize = 0;
                while col < C0
                    invariant
                        row < R0,
                        row < R,
                        col <= C0,
                        forall|i: int, j: int|
                            0 <= i < R0 && 0 <= j < C0 ==> #[trigger] out.at(i, j) == if (i < row || (i
                                == row && j < col)) && i < R && j < C {
                                self.at(i, j)
                            } else {
                                zero()
                            },
                    decreases C0 - col,
                {
                    if col < C {
                        out.set(row, col, self.data[row][col]);
                    }
                    col = col + 1;
                }
            }
            row = row + 1;
        }
        out
    }

    ///The minor without row `row` and column `col`, kept at this size with the last row
    ///and column zero; `None` when a dimension is at most one or the index is out of range.
    pub fn minor(&self, row: usize, col: usize) -> (r: Option<MatrixPrecise<R, C>>)
        ensures
            (R <= 1 || C <= 1 || row >= R || col >= C) <==> r is None,
            r matches Some(m) ==> forall|i: int, j: int|
                0 <= i < R && 0 <= j < C ==> #[trigger] m.at(i, j) == if i < R - 1 && j < C - 1 {
                    self.at(if i >= row { i + 1 } else { i }, if j >= col { j + 1 } else { j })
                } else {
                    zero()
                },
    {
        if R <= 1 || C <= 1 || row >= R || col >= C {
            return None;
        }
        let mut out = MatrixPrecise::<R, C>::zeros();
        let mut i: usize = 0;
        while i < R - 1
            invariant
                1 < R,
                1 < C,
                row < R,
                col < C,
                i <= R - 1,
                forall|a: int, b: int|
                    0 <= a < R && 0 <= b < C ==> #[trigger] out.at(a, b) == if a < i && b < C - 1 {
                        self.at(if a >= row { a + 1 } else { a }, if b >= col { b + 1 } else { b })
                    } else {
                        zero()
                    },
            decreases R - 1 - i,
        {
            let si = if i >= row { i + 1 } else { i };
            let mut j: usize = 0;
            while j < C - 1
                invariant
                    1 < R,
                    1 < C,
                    row < R,
                    col < C,
                    i < R - 1,
                    si == if i >= row { i + 1 } else { i as int },
                    j <= C - 1,
                    forall|a: int, b: int|
                        0 <= a < R && 0 <= b < C ==> #[trigger] out.at(a, b) == if (a < i || (a == i && b
                            < j)) && b < C - 1 {
                            self.at(if a >= row { a + 1 } else { a }, if b >= col { b + 1 } else { b })
                        } else {
                            zero()
                        },
                decreases C - 1 - j,
            {
                let sj = if j >= col { j + 1 } else { j };
                out.set(i, j, self.data[si][sj]);
                j = j + 1;
            }
            i = i + 1;
        }
        Some(out)
    }
}

impl<const R: usize, const C: usize> core::default::Default for MatrixPrecise<R, C> {
    fn default() -> (r: MatrixPrecise<R, C>)
        ensures
            r.is_zero(),
    {
        MatrixPrecise::<R, C>::zeros()
    }
}

impl<const A: usize, const B: usize, const C: usize> vstd::std_specs::ops::MulSpecImpl<MatrixPrecise<B, C>> for MatrixPrecise<A, B> {
    open spec fn obeys_mul_spec() -> bool {
        false
    }

    open spec fn mul_req(self, rhs: MatrixPrecise<B, C>) -> bool {
        self.mul_fits(rhs)
    }

    open spec fn mul_spec(self, rhs: MatrixPrecise<B, C>) -> MatrixPrecise<A, C> {
        arbitrary()
    }
}

impl<const A: usize, const B: usize, const C: usize> core::ops::Mul<MatrixPrecise<B, C>> for MatrixPrecise<A, B> {
    type Output = MatrixPrecise<A, C>;

    fn mul(self, rhs: MatrixPrecise<B, C>) -> (r: MatrixPrecise<A, C>)
        ensures
            self.is_product(rhs, r),
    {
        self.multiply(rhs)
    }
}


/// A partial dot product that fits is canonical.
pub proof fn lemma_dot_wf(x: Seq<r32>, y: Seq<r32>, k: int)
    requires
        forall|j: int| 0 <= j < k ==> (#[trigger] x[j]).wf() && y[j].wf(),
        dot_upto(x, y, k) is Some,
    ensures
        dot_upto(x, y, k).unwrap().wf(),
    decreases k,
{
    lemma_zero_wf();
    if k > 0 {
        lemma_dot_wf(x, y, k - 1);
        let s = dot_upto(x, y, k - 1).unwrap();
        let a = x[k - 1];
        let b = y[k - 1];
        assert(x[k - 1].wf());
        r32::lemma_of_canonical(a.n * b.n, a.d * b.d);
        let t = a.spec_mul(b);
        r32::lemma_of_canonical(s.n * t.d + t.n * s.d, s.d * t.d);
    }
}

/// One of `x[j]` and `y[j]` is zero and the other is canonical.
pub open spec fn zero_term(x: Seq<r32>, y: Seq<r32>, j: int) -> bool {
    (x[j] == zero() && y[j].wf()) || (y[j] == zero() && x[j].wf())
}

/// Terms with a zero factor leave a partial dot product unchanged.
pub proof fn lemma_dot_zero_tail(x: Seq<r32>, y: Seq<r32>, p: int, m: int)
    requires
        0 <= p <= m,
        dot_upto(x, y, p) is Some,
        dot_upto(x, y, p).unwrap().wf(),
        forall|j: int| p <= j < m ==> #[trigger] zero_term(x, y, j),
    ensures
        dot_upto(x, y, m) == dot_upto(x, y, p),
    decreases m - p,
{
    if p < m {
        let s = dot_upto(x, y, p).unwrap();
        assert(zero_term(x, y, p));
        if x[p] == zero() {
            r32::lemma_identities(y[p]);
        } else {
            r32::lemma_identities(x[p]);
        }
        r32::lemma_identities(s);
        assert(dot_upto(x, y, p + 1) == dot_upto(x, y, p));
        lemma_dot_zero_tail(x, y, p + 1, m);
    }
}

/// The factors of a Doolittle decomposition multiply back to the matrix: `L × U == A`,
/// exactly and without overflow.
pub proof fn lemma_lu_product<const L: usize>(
    a: MatrixPrecise<L, L>,
    l: MatrixPrecise<L, L>,
    u: MatrixPrecise<L, L>,
)
    requires
        a.wf(),
        is_lu(a, l, u),
    ensures
        l.mul_fits(u),
        l.is_product(u, a),
{
    lemma_zero_wf();
    assert forall|i: int, k: int| 0 <= i < L && 0 <= k < L implies #[trigger] dot_upto(
        l.row_seq(i),
        u.col_seq(k),
        L as int,
    ) == Some(a.at(i, k)) by {
        let x = l.row_seq(i);
        let y = u.col_seq(k);
        assert forall|j: int| 0 <= j < L implies (#[trigger] x[j]).wf() && y[j].wf() by {
            assert(x[j] == l.at(i, j));
            assert(y[j] == u.at(j, k));
        }
        if i <= k {
            assert(u_eq(a, l, u, i, k));
            let s = dot_upto(x, y, i).unwrap();
            lemma_dot_wf(x, y, i);
            assert(x[i] == l.at(i, i));
            assert(y[i] == u.at(i, k));
            r32::lemma_identities(u.at(i, k));
            r32::lemma_add_sub_cancel(s, a.at(i, k));
            assert(dot_upto(x, y, i + 1) == Some(a.at(i, k)));
            assert forall|j: int| i + 1 <= j < L implies #[trigger] zero_term(x, y, j) by {
                assert(x[j] == l.at(i, j));
                assert(y[j] == u.at(j, k));
                assert(u.at(j, k).wf());
                assert(l.at(i, j) == zero());
            }
            lemma_dot_zero_tail(x, y, i + 1, L as int);
        } else {
            assert(l_eq(a, l, u, k, i));
            let s = dot_upto(x, y, k).unwrap();
            lemma_dot_wf(x, y, k);
            let p = u.at(k, k);
            assert(p.wf());
            let t = a.at(i, k).spec_sub(s);
            r32::lemma_of_canonical(a.at(i, k).n * s.d - s.n * a.at(i, k).d, a.at(i, k).d * s.d);
            r32::lemma_div_mul_cancel(t, p);
            r32::lemma_add_sub_cancel(s, a.at(i, k));
            assert(x[k] == l.at(i, k));
            assert(y[k] == p);
            assert(dot_upto(x, y, k + 1) == Some(a.at(i, k)));
            assert forall|j: int| k + 1 <= j < L implies #[trigger] zero_term(x, y, j) by {
                assert(y[j] == u.at(j, k));
            }
            lemma_dot_zero_tail(x, y, k + 1, L as int);
        }
    }
}


/// The factors of an LUP decomposition satisfy `P × A == L × U`, exactly and without
/// overflow: both products are `A` with its rows reordered.
pub proof fn lemma_lup_product<const L: usize>(
    a: MatrixPrecise<L, L>,
    l: MatrixPrecise<L, L>,
    u: MatrixPrecise<L, L>,
    p: MatrixPrecise<L, L>,
)
    requires
        a.wf(),
        is_lup(a, l, u, p),
    ensures
        exists|pa: MatrixPrecise<L, L>| #[trigger] p.is_product(a, pa) && l.is_product(u, pa),
{
    lemma_zero_wf();
    let (perm, pa) = choose|perm: Seq<usize>, pa: MatrixPrecise<L, L>|
        is_perm(perm, L as int) && is_perm_matrix(p, perm) && is_permuted(a, pa, perm) && is_lu(pa, l, u);
    assert forall|i: int, j: int| 0 <= i < L && 0 <= j < L implies (#[trigger] pa.at(i, j)).wf() by {
        assert(perm[i] < L);
        assert(pa.at(i, j) == a.at(perm[i] as int, j));
    }
    lemma_lu_product(pa, l, u);
    assert forall|i: int, k: int| 0 <= i < L && 0 <= k < L implies #[trigger] dot_upto(
        p.row_seq(i),
        a.col_seq(k),
        L as int,
    ) == Some(pa.at(i, k)) by {
        let x = p.row_seq(i);
        let y = a.col_seq(k);
        let c = perm[i] as int;
        assert(0 <= c < L);
        assert forall|j: int| 0 <= j < L implies (#[trigger] x[j]) == (if j == c { one() } else { zero() }) && y[j].wf() by {
            assert(x[j] == p.at(i, j));
            assert(y[j] == a.at(j, k));
        }
        assert(dot_upto(x, y, 0) == Some(zero()));
        assert forall|j: int| 0 <= j < L && j != c implies #[trigger] zero_term(x, y, j) by {
            assert(x[j] == zero() && y[j].wf());
        }
        lemma_dot_zero_tail(x, y, 0, c);
        r32::lemma_identities(y[c]);
        assert(dot_upto(x, y, c + 1) == Some(y[c]));
        assert(y[c] == a.at(c, k));
        assert(y[c].wf());
        lemma_dot_zero_tail(x, y, c + 1, L as int);
    }
    assert(p.is_product(a, pa));
}

} // verus!
