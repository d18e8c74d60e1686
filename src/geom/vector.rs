//! Vectors of `r32` components with a length fixed at compile time.
use crate::geom::matrix::MatrixPrecise;
use crate::num::rational::{r32, Error};
use crate::num::surd::surd32;
use crate::num::Identity;
use vstd::prelude::*;

verus! {

broadcast use vstd::array::group_array_axioms;

/// The rational zero.
pub open spec fn zero() -> r32 {
    r32 { n: 0, d: 1 }
}

/// The rational one.
pub open spec fn one() -> r32 {
    r32 { n: 1, d: 1 }
}

/// Every element is a canonical rational.
pub open spec fn all_wf(s: Seq<r32>) -> bool {
    forall|i: int| 0 <= i < s.len() ==> (#[trigger] s[i]).wf()
}

/// `s + a * b`, when the product and the sum fit.
pub open spec fn mul_add(s: r32, a: r32, b: r32) -> Option<r32> {
    if a.mul_fits(b) && s.add_fits(a.spec_mul(b)) {
        Some(s.spec_add(a.spec_mul(b)))
    } else {
        None
    }
}

/// The sum of `a[j] * b[j]` for `j < k`, added from the first term on with exact
/// rational operations, or `None` when some step does not fit an `r32`.
pub open spec fn dot_upto(a: Seq<r32>, b: Seq<r32>, k: int) -> Option<r32>
    decreases k,
{
    if k <= 0 {
        Some(zero())
    } else {
        match dot_upto(a, b, k - 1) {
            Some(s) => mul_add(s, a[k - 1], b[k - 1]),
            None => None,
        }
    }
}

/// `dot_upto` reads only the first `k` entries of each sequence.
pub proof fn lemma_dot_upto_prefix(a: Seq<r32>, b: Seq<r32>, a2: Seq<r32>, b2: Seq<r32>, k: int)
    requires
        forall|j: int| 0 <= j < k ==> a[j] == a2[j] && b[j] == b2[j],
    ensures
        dot_upto(a, b, k) == dot_upto(a2, b2, k),
    decreases k,
{
    if k > 0 {
        lemma_dot_upto_prefix(a, b, a2, b2, k - 1);
    }
}

/// The zero rational is canonical.
pub proof fn lemma_zero_wf()
    ensures
        zero().wf(),
        one().wf(),
{
    crate::num::factors::lemma_gcd_zero(1);
    crate::num::factors::lemma_gcd_self(1);
}

/// `s + a * b` with exact operations, when it fits.
pub fn checked_mul_add(s: r32, a: r32, b: r32) -> (r: Option<r32>)
    requires
        s.wf(),
        a.wf(),
        b.wf(),
    ensures
        r == mul_add(s, a, b),
        r matches Some(v) ==> v.wf(),
{
    match a.checked_mul(b) {
        Some(p) => s.checked_add(p),
        None => None,
    }
}

///Vector type using rational components, of length L.
#[derive(Clone, Copy, Debug, PartialEq, Eq, Hash)]
pub struct VectorPrecise<const L: usize> {
    ///Array of r32 components.
    pub data: [r32; L],
}

impl<const L: usize> VectorPrecise<L> {
    /// The components as a sequence.
    pub open spec fn view(&self) -> Seq<r32> {
        self.data@
    }

    /// Every component is canonical.
    pub open spec fn wf(&self) -> bool {
        all_wf(self.data@)
    }

    ///Returns a new vector from an array of components.
    pub fn new(data: [r32; L]) -> (r: VectorPrecise<L>)
        ensures
            r.data == data,
    {
        VectorPrecise { data }
    }

    /// The dot product, or `None` when an intermediate value does not fit.
    pub fn checked_dot(&self, other: &VectorPrecise<L>) -> (r: Option<r32>)
        requires
            self.wf(),
            other.wf(),
        ensures
            r == dot_upto(self.data@, other.data@, L as int),
            r matches Some(v) ==> v.wf(),
    {
        proof {
            lemma_zero_wf();
        }
        let mut s = r32::default();
        let mut i: usize = 0;
        while i < L
            invariant
                i <= L,
                self.data@.len() == L,
                other.data@.len() == L,
                self.wf(),
                other.wf(),
                s.wf(),
                dot_upto(self.data@, other.data@, i as int) == Some(s),
            decreases L - i,
        {
            match checked_mul_add(s, self.data[i], other.data[i]) {
                Some(v) => {
                    s = v;
                },
                None => {
                    proof {
                        lemma_dot_none_extends(self.data@, other.data@, i as int + 1, L as int);
                    }
                    return None;
                },
            }
            i = i + 1;
        }
        Some(s)
    }

    ///Dot product with another vector of the same length; every partial sum must fit.
    pub fn dot(&self, other: VectorPrecise<L>) -> (r: r32)
        requires
            self.wf(),
            other.wf(),
            dot_upto(self.data@, other.data@, L as int).is_some(),
        ensures
            r.wf(),
            Some(r) == dot_upto(self.data@, other.data@, L as int),
    {
        self.checked_dot(&other).unwrap()
    }
}

/// Once a partial dot product fails to fit, every longer one fails too.
pub proof fn lemma_dot_none_extends(a: Seq<r32>, b: Seq<r32>, k: int, m: int)
    requires
        dot_upto(a, b, k) is None,
        0 < k <= m,
    ensures
        dot_upto(a, b, m) is None,
    decreases m - k,
{
    if k < m {
        lemma_dot_none_extends(a, b, k + 1, m);
    }
}


/// The sum of the first `k` entries, added in order with exact operations, or `None`
/// when a partial sum does not fit.
pub open spec fn sum_upto(a: Seq<r32>, k: int) -> Option<r32>
    decreases k,
{
    if k <= 0 {
        Some(zero())
    } else {
        match sum_upto(a, k - 1) {
            Some(s) => if s.add_fits(a[k - 1]) {
                Some(s.spec_add(a[k - 1]))
            } else {
                None
            },
            None => None,
        }
    }
}

impl<const L: usize> VectorPrecise<L> {
    ///Returns the vector as a matrix with one row.
    pub fn as_row(&self) -> (r: MatrixPrecise<1, L>)
        ensures
            forall|j: int| 0 <= j < L ==> #[trigger] r.at(0, j) == self.data@[j],
    {
        MatrixPrecise { data: [self.data] }
    }

    ///Returns the vector as a matrix with one column.
    pub fn as_col(&self) -> (r: MatrixPrecise<L, 1>)
        ensures
            forall|i: int| 0 <= i < L ==> #[trigger] r.at(i, 0) == self.data@[i],
    {
        let z = r32::default();
        let mut columns = [[z]; L];
        let mut i: usize = 0;
        while i < L
            invariant
                i <= L,
                forall|k: int| 0 <= k < i ==> #[trigger] columns@[k]@[0] == self.data@[k],
            decreases L - i,
        {
            columns[i] = [self.data[i]];
            i = i + 1;
        }
        MatrixPrecise { data: columns }
    }

    ///Adds two vectors component by component; every sum must fit.
    pub fn vec_add(&self, other: VectorPrecise<L>) -> (r: VectorPrecise<L>)
        requires
            forall|i: int| 0 <= i < L ==> (#[trigger] self.data@[i]).add_fits(other.data@[i]),
        ensures
            forall|i: int| 0 <= i < L ==> #[trigger] r.data@[i] == self.data@[i].spec_add(other.data@[i]),
    {
        let mut data = self.data;
        let mut i: usize = 0;
        while i < L
            invariant
                i <= L,
                forall|k: int| 0 <= k < L ==> (#[trigger] self.data@[k]).add_fits(other.data@[k]),
                forall|k: int| 0 <= k < i ==> #[trigger] data@[k] == self.data@[k].spec_add(other.data@[k]),
            decreases L - i,
        {
            data[i] = self.data[i].checked_add(other.data[i]).unwrap();
            i = i + 1;
        }
        VectorPrecise { data }
    }

    ///Multiplies two vectors component by component; every product must fit.
    pub fn vec_mul(&self, other: VectorPrecise<L>) -> (r: VectorPrecise<L>)
        requires
            forall|i: int| 0 <= i < L ==> (#[trigger] self.data@[i]).mul_fits(other.data@[i]),
        ensures
            forall|i: int| 0 <= i < L ==> #[trigger] r.data@[i] == self.data@[i].spec_mul(other.data@[i]),
    {
        let mut data = self.data;
        let mut i: usize = 0;
        while i < L
            invariant
                i <= L,
                forall|k: int| 0 <= k < L ==> (#[trigger] self.data@[k]).mul_fits(other.data@[k]),
                forall|k: int| 0 <= k < i ==> #[trigger] data@[k] == self.data@[k].spec_mul(other.data@[k]),
            decreases L - i,
        {
            data[i] = self.data[i].checked_mul(other.data[i]).unwrap();
            i = i + 1;
        }
        VectorPrecise { data }
    }

    ///Multiplies every component by `other`; every product must fit.
    pub fn rational_mul(&self, other: r32) -> (r: VectorPrecise<L>)
        requires
            forall|i: int| 0 <= i < L ==> (#[trigger] self.data@[i]).mul_fits(other),
        ensures
            forall|i: int| 0 <= i < L ==> #[trigger] r.data@[i] == self.data@[i].spec_mul(other),
    {
        let mut data = self.data;
        let mut i: usize = 0;
        while i < L
            invariant
                i <= L,
                forall|k: int| 0 <= k < L ==> (#[trigger] self.data@[k]).mul_fits(other),
                forall|k: int| 0 <= k < i ==> #[trigger] data@[k] == self.data@[k].spec_mul(other),
            decreases L - i,
        {
            data[i] = self.data[i].checked_mul(other).unwrap();
            i = i + 1;
        }
        VectorPrecise { data }
    }

    ///The reciprocal of every component, or `DivideByZero` when a component is zero
    ///(the first such error found scanning from the start), or `Overflow` when a
    ///reciprocal does not fit.
    pub fn recip(&self) -> (r: Result<VectorPrecise<L>, Error>)
        requires
            self.wf(),
        ensures
            r matches Ok(v) ==> forall|i: int|
                0 <= i < L ==> (#[trigger] self.data@[i]).n != 0 && v.data@[i] == r32::of(
                    self.data@[i].d as int,
                    self.data@[i].n as int,
                ),
            r == Err::<VectorPrecise<L>, Error>(Error::DivideByZero) ==> exists|i: int|
                0 <= i < L && (#[trigger] self.data@[i]).n == 0,
            r == Err::<VectorPrecise<L>, Error>(Error::Overflow) ==> exists|i: int|
                0 <= i < L && (#[trigger] self.data@[i]).n != 0 && !crate::num::rational::fits32(
                    self.data@[i].d as int,
                    self.data@[i].n as int,
                ),
            (forall|i: int| 0 <= i < L ==> (#[trigger] self.data@[i]).n != 0 && crate::num::rational::fits32(
                self.data@[i].d as int,
                self.data@[i].n as int,
            )) ==> r is Ok,
            r is Err ==> (r == Err::<VectorPrecise<L>, Error>(Error::DivideByZero) || r == Err::<
                VectorPrecise<L>,
                Error,
            >(Error::Overflow)),
    {
        let mut data = self.data;
        let mut i: usize = 0;
        while i < L
            invariant
                i <= L,
                self.wf(),
                forall|k: int|
                    0 <= k < i ==> (#[trigger] self.data@[k]).n != 0 && data@[k] == r32::of(
                        self.data@[k].d as int,
                        self.data@[k].n as int,
                    ),
            decreases L - i,
        {
            assert(self.data@[i as int].wf());
            data[i] = match self.data[i].reciprocal() {
                Ok(v) => v,
                Err(e) => {
                    return Err(e);
                },
            };
            i = i + 1;
        }
        Ok(VectorPrecise { data })
    }

    ///Returns the sum of the components; every partial sum must fit.
    pub fn sum(&self) -> (r: r32)
        requires
            self.wf(),
            sum_upto(self.data@, L as int).is_some(),
        ensures
            Some(r) == sum_upto(self.data@, L as int),
    {
        proof {
            lemma_zero_wf();
        }
        let mut s = r32::default();
        let mut i: usize = 0;
        while i < L
            invariant
                i <= L,
                self.wf(),
                s.wf(),
                sum_upto(self.data@, L as int).is_some(),
                sum_upto(self.data@, i as int) == Some(s),
            decreases L - i,
        {
            assert(self.data@[i as int].wf());
            match s.checked_add(self.data[i]) {
                Some(v) => {
                    s = v;
                },
                None => {
                    proof {
                        lemma_sum_none_extends(self.data@, i as int + 1, L as int);
                    }
                    return s;
                },
            }
            i = i + 1;
        }
        s
    }

    ///Returns the sum of the squared components, the squared magnitude; every partial
    ///sum must fit.
    pub fn sq_sum(&self) -> (r: r32)
        requires
            self.wf(),
            dot_upto(self.data@, self.data@, L as int).is_some(),
        ensures
            Some(r) == dot_upto(self.data@, self.data@, L as int),
    {
        self.checked_dot(self).unwrap()
    }

    ///Returns the magnitude as a surd, the square root of `sq_sum`, which must not be zero.
    pub fn mag(&self) -> (r: surd32)
        requires
            self.wf(),
            dot_upto(self.data@, self.data@, L as int) matches Some(s) && s.n != 0,
        ensures
            r.wf(),
            dot_upto(self.data@, self.data@, L as int) matches Some(s) && r.represents(
                (r32 { n: if s.n > 0 { 1 as i16 } else { -1 as i16 }, d: s.d }),
                crate::num::factors::abs(s.n as int) * s.d,
            ),
    {
        let s = self.checked_dot(self).unwrap();
        s.surd_sqrt()
    }
}

/// Once a partial sum fails to fit, every longer one fails too.
pub proof fn lemma_sum_none_extends(a: Seq<r32>, k: int, m: int)
    requires
        sum_upto(a, k) is None,
        0 < k <= m,
    ensures
        sum_upto(a, m) is None,
    decreases m - k,
{
    if k < m {
        lemma_sum_none_extends(a, k + 1, m);
    }
}

impl<const L: usize> core::default::Default for VectorPrecise<L> {
    fn default() -> (r: VectorPrecise<L>)
        ensures
            forall|i: int| 0 <= i < L ==> #[trigger] r.data@[i] == zero(),
    {
        let z = r32::default();
        assert(z == zero());
        let data = vstd::array::array_fill_for_copy_types::<r32, L>(z);
        VectorPrecise { data }
    }
}

} // verus!
