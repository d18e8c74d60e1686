//! Surds: a rational coefficient times the square root of a whole number.
use crate::num::factors::{
    abs, lemma_gcd_comm, lemma_gcd_one, lemma_gcd_self, reduced_den, reduced_num, sqfac32,
    sqfac64, square_free, square_part32, square_part64,
};
use crate::num::rational::{r32, r64};
use vstd::arithmetic::div_mod::*;
use vstd::prelude::*;

verus! {

///Surd with 32-bit parts: `coef * sqrt(radicand)` for a rational coefficient and a u32
///radicand. Surds can be multiplied and divided, not added or subtracted.
#[allow(non_camel_case_types)]
#[derive(Clone, Copy, Debug, PartialEq, Eq, Structural, Hash)]
pub struct surd32 {
    ///Rational coefficient.
    pub coef: r32,
    ///Radicand.
    pub radicand: u32,
}

impl surd32 {
    /// A canonical coefficient and a positive radicand.
    pub open spec fn wf(self) -> bool {
        self.coef.wf() && self.radicand > 0
    }

    /// This surd equals `coef * sqrt(radicand)`: for some `s > 0`, its radicand is
    /// `radicand / s²` and its coefficient `coef * s`.
    pub open spec fn represents(self, coef: r32, radicand: int) -> bool {
        exists|s: nat|
            s > 0 && #[trigger] (s * s * self.radicand) == radicand && self.coef == coef.spec_mul_int(
                s as int,
            )
    }

    /// The radicand is square-free, or, only where moving the square part out would overflow
    /// the coefficient, this is `coef * sqrt(radicand)` as given.
    pub open spec fn canonical_from(self, coef: r32, radicand: int) -> bool {
        square_free(self.radicand as nat) || (self.coef == coef && self.radicand == radicand && exists|
            s: nat,
            t: nat,
        | #[trigger] (s * s * t) == radicand && square_free(t) && !coef.mul_int_fits(s as int))
    }

    /// The square, `coef² * radicand`, exactly.
    pub open spec fn spec_squared(self) -> r32 {
        self.coef.spec_mul(self.coef).spec_mul_int(self.radicand as int)
    }

    /// The square fits an `r32`.
    pub open spec fn squared_fits(self) -> bool {
        self.wf() && self.coef.mul_fits(self.coef) && self.coef.spec_mul(self.coef).mul_int_fits(
            self.radicand as int,
        )
    }

    /// The product of two surds fits.
    pub open spec fn mul_fits(self, o: surd32) -> bool {
        self.wf() && o.wf() && self.coef.mul_fits(o.coef) && self.radicand * o.radicand <= u32::MAX
    }

    /// The quotient of two surds fits: `(a/(b·r₂))·sqrt(r₁·r₂)`.
    pub open spec fn div_fits(self, o: surd32) -> bool {
        &&& self.wf()
        &&& o.wf()
        &&& o.coef.mul_int_fits(o.radicand as int)
        &&& self.coef.div_fits(o.coef.spec_mul_int(o.radicand as int))
        &&& self.radicand * o.radicand <= u32::MAX
    }

    ///Returns `coef * sqrt(radicand)` with every square factor moved out of the radicand
    ///into the coefficient, leaving the radicand square-free: first those that `sqfac32`
    ///finds, then any left, by trial division. When the coefficient times the root would not
    ///fit, the surd is returned as given.
    pub fn new(coef: r32, radicand: u32) -> (r: surd32)
        requires
            coef.wf(),
            radicand > 0,
        ensures
            r.wf(),
            r.represents(coef, radicand as int),
            r.canonical_from(coef, radicand as int),
    {
        let factors = sqfac32(radicand);
        let mut s: u32 = 1;
        let mut rest: u32 = radicand;
        let mut i: usize = 0;
        while i < factors.len()
            invariant
                radicand > 0,
                s >= 1,
                rest >= 1,
                s * s * rest == radicand,
                forall|j: int|
                    0 <= j < factors@.len() ==> #[trigger] factors@[j].1 == factors@[j].0
                        * factors@[j].0 && factors@[j].0 > 1,
            decreases factors@.len() - i,
        {
            let (root, sq) = factors[i];
            assert(sq > 0) by (nonlinear_arith)
                requires sq == root * root, root > 1;
            if rest % sq == 0 {
                let q = rest / sq;
                proof {
                    lemma_fundamental_div_mod(rest as int, sq as int);
                }
                assert(q >= 1) by (nonlinear_arith)
                    requires rest == sq * q, rest >= 1, sq > 0;
                assert((s * root) * (s * root) * q == radicand) by (nonlinear_arith)
                    requires s * s * rest == radicand, rest == sq * q, sq == root * root;
                assert(s <= s * root <= radicand) by (nonlinear_arith)
                    requires (s * root) * (s * root) * q == radicand, q >= 1, s >= 1, root > 1;
                s = s * root;
                rest = q;
            }
            i = i + 1;
        }
        assert(s * s * rest == radicand);
        let (s2, rest2) = square_part32(rest);
        assert((s * s2) * (s * s2) * rest2 == radicand) by (nonlinear_arith)
            requires s * s * rest == radicand, s2 * s2 * rest2 == rest;
        assert(1 <= s * s2 <= radicand) by (nonlinear_arith)
            requires (s * s2) * (s * s2) * rest2 == radicand, rest2 >= 1, s >= 1, s2 >= 1;
        let s = s * s2;
        let rest = rest2;
        match coef.checked_mul_int(s as i64) {
            Some(c) => {
                let r = surd32 { coef: c, radicand: rest };
                proof {
                    let sn = s as nat;
                    assert(sn * sn * r.radicand == radicand as int);
                }
                r
            },
            None => {
                proof {
                    r32::lemma_of_self(coef);
                    let r = surd32 { coef, radicand };
                    assert(1nat * 1nat * r.radicand == radicand as int);
                    assert((s as nat) * (s as nat) * (rest as nat) == radicand as int);
                }
                surd32 { coef, radicand }
            },
        }
    }

    ///Returns the coefficient of the surd.
    pub fn coef(&self) -> (r: r32)
        ensures
            r == self.coef,
    {
        self.coef
    }

    ///Returns the radicand of the surd.
    pub fn radicand(&self) -> (r: u32)
        ensures
            r == self.radicand,
    {
        self.radicand
    }

    ///The surd as a rational: the coefficient when the radicand is 1, else `None`.
    pub fn rational(&self) -> (r: Option<r32>)
        ensures
            r == (if self.radicand == 1 { Some(self.coef) } else { None::<r32> }),
    {
        if self.radicand == 1 {
            Some(self.coef)
        } else {
            None
        }
    }

    ///Returns the square of the surd, `coef² * radicand`, which is always rational.
    pub fn squared(&self) -> (r: r32)
        requires
            self.squared_fits(),
        ensures
            r.wf(),
            r == self.spec_squared(),
    {
        let c2 = self.coef.checked_mul(self.coef).unwrap();
        c2.checked_mul_int(self.radicand as i64).unwrap()
    }

    /// The product of two surds.
    pub fn checked_surd_mul(self, o: surd32) -> (r: surd32)
        requires
            self.mul_fits(o),
        ensures
            r.wf(),
            r.represents(self.coef.spec_mul(o.coef), self.radicand * o.radicand),
            r.canonical_from(self.coef.spec_mul(o.coef), self.radicand * o.radicand),
    {
        let c = self.coef.checked_mul(o.coef).unwrap();
        assert(self.radicand * o.radicand > 0) by (nonlinear_arith)
            requires self.radicand > 0, o.radicand > 0;
        surd32::new(c, self.radicand * o.radicand)
    }

    /// The quotient of two surds, `(a/(b·r₂))·sqrt(r₁·r₂)`.
    pub fn checked_surd_div(self, o: surd32) -> (r: surd32)
        requires
            self.div_fits(o),
        ensures
            r.wf(),
            r.represents(
                self.coef.spec_div(o.coef.spec_mul_int(o.radicand as int)),
                self.radicand * o.radicand,
            ),
            r.canonical_from(
                self.coef.spec_div(o.coef.spec_mul_int(o.radicand as int)),
                self.radicand * o.radicand,
            ),
    {
        let t = o.coef.checked_mul_int(o.radicand as i64).unwrap();
        let c = self.coef.checked_div(t).unwrap();
        assert(self.radicand * o.radicand > 0) by (nonlinear_arith)
            requires self.radicand > 0, o.radicand > 0;
        surd32::new(c, self.radicand * o.radicand)
    }

    /// The surd with its coefficient scaled by `k`.
    pub fn checked_scale(self, k: i64) -> (r: surd32)
        requires
            self.wf(),
            i32::MIN <= k <= u32::MAX,
            self.coef.mul_int_fits(k as int),
        ensures
            r.wf(),
            r.represents(self.coef.spec_mul_int(k as int), self.radicand as int),
            r.canonical_from(self.coef.spec_mul_int(k as int), self.radicand as int),
    {
        let c = self.coef.checked_mul_int(k).unwrap();
        surd32::new(c, self.radicand)
    }

    /// The surd with its coefficient divided by `k`.
    pub fn checked_shrink(self, k: i64) -> (r: surd32)
        requires
            self.wf(),
            i32::MIN <= k <= u32::MAX,
            self.coef.div_int_fits(k as int),
        ensures
            r.wf(),
            r.represents(self.coef.spec_div_int(k as int), self.radicand as int),
            r.canonical_from(self.coef.spec_div_int(k as int), self.radicand as int),
    {
        let c = self.coef.checked_div_int(k).unwrap();
        surd32::new(c, self.radicand)
    }

    /// The coefficient and radicand `1` and `k` square to `k`.
    pub proof fn lemma_squared_unit(k: u32)
        requires
            k > 0,
            k <= i16::MAX,
        ensures
            (surd32 { coef: r32 { n: 1, d: 1 }, radicand: k }).spec_squared() == (r32 {
                n: k as i16,
                d: 1,
            }),
    {
        let one = r32 { n: 1, d: 1 };
        lemma_gcd_self(1);
        r32::lemma_of_self(one);
        assert(one.spec_mul(one) == r32::of(1, 1));
        assert(one.spec_mul(one) == one);
        lemma_gcd_comm(k as nat, 1);
        lemma_gcd_one(k as nat);
        assert(abs(k as int) == k as nat);
        assert(reduced_num(k as int, 1) == (k as nat / 1) as int);
        assert(reduced_den(k as int, 1) == (1nat / 1) as int);
    }
}

impl r32 {
    ///Returns the square root of the value as a surd, `sign/d * sqrt(|n|·d)`.
    pub fn surd_sqrt(&self) -> (r: surd32)
        requires
            self.wf(),
            self.n != 0,
        ensures
            r.wf(),
            r.represents(
                (r32 { n: if self.n > 0 { 1 as i16 } else { -1 as i16 }, d: self.d }),
                abs(self.n as int) * self.d,
            ),
            r.canonical_from(
                (r32 { n: if self.n > 0 { 1 as i16 } else { -1 as i16 }, d: self.d }),
                abs(self.n as int) * self.d,
            ),
    {
        let sign: i16 = if self.n > 0 { 1 } else { -1 };
        let an: u32 = if self.n > 0 { self.n as u32 } else { (-(self.n as i32)) as u32 };
        proof {
            lemma_gcd_comm(1, self.d as nat);
            lemma_gcd_one(self.d as nat);
            assert(abs(sign as int) == 1);
        }
        let c = r32::new_raw(sign, self.d);
        assert(an * self.d > 0 && an * self.d <= u32::MAX) by (nonlinear_arith)
            requires 0 < an <= i16::MAX as int + 1, 0 < self.d <= u16::MAX;
        surd32::new(c, an * self.d as u32)
    }
}

impl crate::num::Sqroot for r32 {
    type Output = surd32;

    open spec fn sqroot_req(&self) -> bool {
        self.wf() && self.n != 0
    }

    fn sqroot(&self) -> (r: surd32)
        ensures
            r.wf(),
            r.represents(
                (r32 { n: if self.n > 0 { 1 as i16 } else { -1 as i16 }, d: self.d }),
                abs(self.n as int) * self.d,
            ),
            r.canonical_from(
                (r32 { n: if self.n > 0 { 1 as i16 } else { -1 as i16 }, d: self.d }),
                abs(self.n as int) * self.d,
            ),
    {
        self.surd_sqrt()
    }
}

impl vstd::std_specs::ops::MulSpecImpl<surd32> for surd32 {
    open spec fn obeys_mul_spec() -> bool {
        false
    }

    open spec fn mul_req(self, rhs: surd32) -> bool {
        self.mul_fits(rhs)
    }

    open spec fn mul_spec(self, rhs: surd32) -> surd32 {
        arbitrary()
    }
}

impl core::ops::Mul<surd32> for surd32 {
    type Output = surd32;

    fn mul(self, rhs: surd32) -> (r: surd32)
        ensures
            r.wf() && r.represents(self.coef.spec_mul(rhs.coef), self.radicand * rhs.radicand) && r.canonical_from(self.coef.spec_mul(rhs.coef), self.radicand * rhs.radicand),
    {
        self.checked_surd_mul(rhs)
    }
}

impl vstd::std_specs::ops::MulSpecImpl<&surd32> for surd32 {
    open spec fn obeys_mul_spec() -> bool {
        false
    }

    open spec fn mul_req(self, rhs: &surd32) -> bool {
        self.mul_fits((*rhs))
    }

    open spec fn mul_spec(self, rhs: &surd32) -> surd32 {
        arbitrary()
    }
}

impl core::ops::Mul<&surd32> for surd32 {
    type Output = surd32;

    fn mul(self, rhs: &surd32) -> (r: surd32)
        ensures
            r.wf() && r.represents(self.coef.spec_mul((*rhs).coef), self.radicand * (*rhs).radicand) && r.canonical_from(self.coef.spec_mul((*rhs).coef), self.radicand * (*rhs).radicand),
    {
        self.checked_surd_mul((*rhs))
    }
}

impl vstd::std_specs::ops::MulSpecImpl<surd32> for &surd32 {
    open spec fn obeys_mul_spec() -> bool {
        false
    }

    open spec fn mul_req(self, rhs: surd32) -> bool {
        (*self).mul_fits(rhs)
    }

    open spec fn mul_spec(self, rhs: surd32) -> surd32 {
        arbitrary()
    }
}

impl core::ops::Mul<surd32> for &surd32 {
    type Output = surd32;

    fn mul(self, rhs: surd32) -> (r: surd32)
        ensures
            r.wf() && r.represents((*self).coef.spec_mul(rhs.coef), (*self).radicand * rhs.radicand) && r.canonical_from((*self).coef.spec_mul(rhs.coef), (*self).radicand * rhs.radicand),
    {
        (*self).checked_surd_mul(rhs)
    }
}

impl vstd::std_specs::ops::MulSpecImpl<&surd32> for &surd32 {
    open spec fn obeys_mul_spec() -> bool {
        false
    }

    open spec fn mul_req(self, rhs: &surd32) -> bool {
        (*self).mul_fits((*rhs))
    }

    open spec fn mul_spec(self, rhs: &surd32) -> surd32 {
        arbitrary()
    }
}

impl core::ops::Mul<&surd32> for &surd32 {
    type Output = surd32;

    fn mul(self, rhs: &surd32) -> (r: surd32)
        ensures
            r.wf() && r.represents((*self).coef.spec_mul((*rhs).coef), (*self).radicand * (*rhs).radicand) && r.canonical_from((*self).coef.spec_mul((*rhs).coef), (*self).radicand * (*rhs).radicand),
    {
        (*self).checked_surd_mul((*rhs))
    }
}

impl core::ops::MulAssign<surd32> for surd32 {
    fn mul_assign(&mut self, rhs: surd32)
        requires
            old(self).mul_fits(rhs),
        ensures
            final(self).wf(),
    {
        let v = self.checked_surd_mul(rhs);
        *self = v;
    }
}

impl core::ops::MulAssign<&surd32> for surd32 {
    fn mul_assign(&mut self, rhs: &surd32)
        requires
            old(self).mul_fits((*rhs)),
        ensures
            final(self).wf(),
    {
        let v = self.checked_surd_mul((*rhs));
        *self = v;
    }
}

impl vstd::std_specs::ops::DivSpecImpl<surd32> for surd32 {
    open spec fn obeys_div_spec() -> bool {
        false
    }

    open spec fn div_req(self, rhs: surd32) -> bool {
        self.div_fits(rhs)
    }

    open spec fn div_spec(self, rhs: surd32) -> surd32 {
        arbitrary()
    }
}

impl core::ops::Div<surd32> for surd32 {
    type Output = surd32;

    fn div(self, rhs: surd32) -> (r: surd32)
        ensures
            r.wf() && r.represents(self.coef.spec_div(rhs.coef.spec_mul_int(rhs.radicand as int)), self.radicand * rhs.radicand) && r.canonical_from(self.coef.spec_div(rhs.coef.spec_mul_int(rhs.radicand as int)), self.radicand * rhs.radicand),
    {
        self.checked_surd_div(rhs)
    }
}

impl vstd::std_specs::ops::DivSpecImpl<&surd32> for surd32 {
    open spec fn obeys_div_spec() -> bool {
        false
    }

    open spec fn div_req(self, rhs: &surd32) -> bool {
        self.div_fits((*rhs))
    }

    open spec fn div_spec(self, rhs: &surd32) -> surd32 {
        arbitrary()
    }
}

impl core::ops::Div<&surd32> for surd32 {
    type Output = surd32;

    fn div(self, rhs: &surd32) -> (r: surd32)
        ensures
            r.wf() && r.represents(self.coef.spec_div((*rhs).coef.spec_mul_int((*rhs).radicand as int)), self.radicand * (*rhs).radicand) && r.canonical_from(self.coef.spec_div((*rhs).coef.spec_mul_int((*rhs).radicand as int)), self.radicand * (*rhs).radicand),
    {
        self.checked_surd_div((*rhs))
    }
}

impl vstd::std_specs::ops::DivSpecImpl<surd32> for &surd32 {
    open spec fn obeys_div_spec() -> bool {
        false
    }

    open spec fn div_req(self, rhs: surd32) -> bool {
        (*self).div_fits(rhs)
    }

    open spec fn div_spec(self, rhs: surd32) -> surd32 {
        arbitrary()
    }
}

impl core::ops::Div<surd32> for &surd32 {
    type Output = surd32;

    fn div(self, rhs: surd32) -> (r: surd32)
        ensures
            r.wf() && r.represents((*self).coef.spec_div(rhs.coef.spec_mul_int(rhs.radicand as int)), (*self).radicand * rhs.radicand) && r.canonical_from((*self).coef.spec_div(rhs.coef.spec_mul_int(rhs.radicand as int)), (*self).radicand * rhs.radicand),
    {
        (*self).checked_surd_div(rhs)
    }
}

impl vstd::std_specs::ops::DivSpecImpl<&surd32> for &surd32 {
    open spec fn obeys_div_spec() -> bool {
        false
    }

    open spec fn div_req(self, rhs: &surd32) -> bool {
        (*self).div_fits((*rhs))
    }

    open spec fn div_spec(self, rhs: &surd32) -> surd32 {
        arbitrary()
    }
}

impl core::ops::Div<&surd32> for &surd32 {
    type Output = surd32;

    fn div(self, rhs: &surd32) -> (r: surd32)
        ensures
            r.wf() && r.represents((*self).coef.spec_div((*rhs).coef.spec_mul_int((*rhs).radicand as int)), (*self).radicand * (*rhs).radicand) && r.canonical_from((*self).coef.spec_div((*rhs).coef.spec_mul_int((*rhs).radicand as int)), (*self).radicand * (*rhs).radicand),
    {
        (*self).checked_surd_div((*rhs))
    }
}

impl core::ops::DivAssign<surd32> for surd32 {
    fn div_assign(&mut self, rhs: surd32)
        requires
            old(self).div_fits(rhs),
        ensures
            final(self).wf(),
    {
        let v = self.checked_surd_div(rhs);
        *self = v;
    }
}

impl core::ops::DivAssign<&surd32> for surd32 {
    fn div_assign(&mut self, rhs: &surd32)
        requires
            old(self).div_fits((*rhs)),
        ensures
            final(self).wf(),
    {
        let v = self.checked_surd_div((*rhs));
        *self = v;
    }
}

impl vstd::std_specs::ops::MulSpecImpl<i32> for surd32 {
    open spec fn obeys_mul_spec() -> bool {
        false
    }

    open spec fn mul_req(self, rhs: i32) -> bool {
        self.wf() && self.coef.mul_int_fits(rhs as int)
    }

    open spec fn mul_spec(self, rhs: i32) -> surd32 {
        arbitrary()
    }
}

impl core::ops::Mul<i32> for surd32 {
    type Output = surd32;

    fn mul(self, rhs: i32) -> (r: surd32)
        ensures
            r.wf() && r.represents(self.coef.spec_mul_int(rhs as int), self.radicand as int) && r.canonical_from(self.coef.spec_mul_int(rhs as int), self.radicand as int),
    {
        self.checked_scale(rhs as i64)
    }
}

impl vstd::std_specs::ops::MulSpecImpl<&i32> for surd32 {
    open spec fn obeys_mul_spec() -> bool {
        false
    }

    open spec fn mul_req(self, rhs: &i32) -> bool {
        self.wf() && self.coef.mul_int_fits((*rhs) as int)
    }

    open spec fn mul_spec(self, rhs: &i32) -> surd32 {
        arbitrary()
    }
}

impl core::ops::Mul<&i32> for surd32 {
    type Output = surd32;

    fn mul(self, rhs: &i32) -> (r: surd32)
        ensures
            r.wf() && r.represents(self.coef.spec_mul_int((*rhs) as int), self.radicand as int) && r.canonical_from(self.coef.spec_mul_int((*rhs) as int), self.radicand as int),
    {
        self.checked_scale((*rhs) as i64)
    }
}

impl vstd::std_specs::ops::MulSpecImpl<i32> for &surd32 {
    open spec fn obeys_mul_spec() -> bool {
        false
    }

    open spec fn mul_req(self, rhs: i32) -> bool {
        (*self).wf() && (*self).coef.mul_int_fits(rhs as int)
    }

    open spec fn mul_spec(self, rhs: i32) -> surd32 {
        arbitrary()
    }
}

impl core::ops::Mul<i32> for &surd32 {
    type Output = surd32;

    fn mul(self, rhs: i32) -> (r: surd32)
        ensures
            r.wf() && r.represents((*self).coef.spec_mul_int(rhs as int), (*self).radicand as int) && r.canonical_from((*self).coef.spec_mul_int(rhs as int), (*self).radicand as int),
    {
        (*self).checked_scale(rhs as i64)
    }
}

impl vstd::std_specs::ops::MulSpecImpl<&i32> for &surd32 {
    open spec fn obeys_mul_spec() -> bool {
        false
    }

    open spec fn mul_req(self, rhs: &i32) -> bool {
        (*self).wf() && (*self).coef.mul_int_fits((*rhs) as int)
    }

    open spec fn mul_spec(self, rhs: &i32) -> surd32 {
        arbitrary()
    }
}

impl core::ops::Mul<&i32> for &surd32 {
    type Output = surd32;

    fn mul(self, rhs: &i32) -> (r: surd32)
        ensures
            r.wf() && r.represents((*self).coef.spec_mul_int((*rhs) as int), (*self).radicand as int) && r.canonical_from((*self).coef.spec_mul_int((*rhs) as int), (*self).radicand as int),
    {
        (*self).checked_scale((*rhs) as i64)
    }
}

impl core::ops::MulAssign<i32> for surd32 {
    fn mul_assign(&mut self, rhs: i32)
        requires
            old(self).wf(),
            old(self).coef.mul_int_fits(rhs as int),
        ensures
            final(self).wf(),
            final(self).represents(old(self).coef.spec_mul_int(rhs as int), old(self).radicand as int),
            final(self).canonical_from(old(self).coef.spec_mul_int(rhs as int), old(self).radicand as int),
    {
        let v = self.checked_scale(rhs as i64);
        *self = v;
    }
}

impl core::ops::MulAssign<&i32> for surd32 {
    fn mul_assign(&mut self, rhs: &i32)
        requires
            old(self).wf(),
            old(self).coef.mul_int_fits((*rhs) as int),
        ensures
            final(self).wf(),
            final(self).represents(old(self).coef.spec_mul_int((*rhs) as int), old(self).radicand as int),
            final(self).canonical_from(old(self).coef.spec_mul_int((*rhs) as int), old(self).radicand as int),
    {
        let v = self.checked_scale((*rhs) as i64);
        *self = v;
    }
}

impl vstd::std_specs::ops::DivSpecImpl<i32> for surd32 {
    open spec fn obeys_div_spec() -> bool {
        false
    }

    open spec fn div_req(self, rhs: i32) -> bool {
        self.wf() && self.coef.div_int_fits(rhs as int)
    }

    open spec fn div_spec(self, rhs: i32) -> surd32 {
        arbitrary()
    }
}

impl core::ops::Div<i32> for surd32 {
    type Output = surd32;

    fn div(self, rhs: i32) -> (r: surd32)
        ensures
            r.wf() && r.represents(self.coef.spec_div_int(rhs as int), self.radicand as int) && r.canonical_from(self.coef.spec_div_int(rhs as int), self.radicand as int),
    {
        self.checked_shrink(rhs as i64)
    }
}

impl vstd::std_specs::ops::DivSpecImpl<&i32> for surd32 {
    open spec fn obeys_div_spec() -> bool {
        false
    }

    open spec fn div_req(self, rhs: &i32) -> bool {
        self.wf() && self.coef.div_int_fits((*rhs) as int)
    }

    open spec fn div_spec(self, rhs: &i32) -> surd32 {
        arbitrary()
    }
}

impl core::ops::Div<&i32> for surd32 {
    type Output = surd32;

    fn div(self, rhs: &i32) -> (r: surd32)
        ensures
            r.wf() && r.represents(self.coef.spec_div_int((*rhs) as int), self.radicand as int) && r.canonical_from(self.coef.spec_div_int((*rhs) as int), self.radicand as int),
    {
        self.checked_shrink((*rhs) as i64)
    }
}

impl vstd::std_specs::ops::DivSpecImpl<i32> for &surd32 {
    open spec fn obeys_div_spec() -> bool {
        false
    }

    open spec fn div_req(self, rhs: i32) -> bool {
        (*self).wf() && (*self).coef.div_int_fits(rhs as int)
    }

    open spec fn div_spec(self, rhs: i32) -> surd32 {
        arbitrary()
    }
}

impl core::ops::Div<i32> for &surd32 {
    type Output = surd32;

    fn div(self, rhs: i32) -> (r: surd32)
        ensures
            r.wf() && r.represents((*self).coef.spec_div_int(rhs as int), (*self).radicand as int) && r.canonical_from((*self).coef.spec_div_int(rhs as int), (*self).radicand as int),
    {
        (*self).checked_shrink(rhs as i64)
    }
}

impl vstd::std_specs::ops::DivSpecImpl<&i32> for &surd32 {
    open spec fn obeys_div_spec() -> bool {
        false
    }

    open spec fn div_req(self, rhs: &i32) -> bool {
        (*self).wf() && (*self).coef.div_int_fits((*rhs) as int)
    }

    open spec fn div_spec(self, rhs: &i32) -> surd32 {
        arbitrary()
    }
}

impl core::ops::Div<&i32> for &surd32 {
    type Output = surd32;

    fn div(self, rhs: &i32) -> (r: surd32)
        ensures
            r.wf() && r.represents((*self).coef.spec_div_int((*rhs) as int), (*self).radicand as int) && r.canonical_from((*self).coef.spec_div_int((*rhs) as int), (*self).radicand as int),
    {
        (*self).checked_shrink((*rhs) as i64)
    }
}

impl core::ops::DivAssign<i32> for surd32 {
    fn div_assign(&mut self, rhs: i32)
        requires
            old(self).wf(),
            old(self).coef.div_int_fits(rhs as int),
        ensures
            final(self).wf(),
            final(self).represents(old(self).coef.spec_div_int(rhs as int), old(self).radicand as int),
            final(self).canonical_from(old(self).coef.spec_div_int(rhs as int), old(self).radicand as int),
    {
        let v = self.checked_shrink(rhs as i64);
        *self = v;
    }
}

impl core::ops::DivAssign<&i32> for surd32 {
    fn div_assign(&mut self, rhs: &i32)
        requires
            old(self).wf(),
            old(self).coef.div_int_fits((*rhs) as int),
        ensures
            final(self).wf(),
            final(self).represents(old(self).coef.spec_div_int((*rhs) as int), old(self).radicand as int),
            final(self).canonical_from(old(self).coef.spec_div_int((*rhs) as int), old(self).radicand as int),
    {
        let v = self.checked_shrink((*rhs) as i64);
        *self = v;
    }
}

impl vstd::std_specs::ops::MulSpecImpl<u32> for surd32 {
    open spec fn obeys_mul_spec() -> bool {
        false
    }

    open spec fn mul_req(self, rhs: u32) -> bool {
        self.wf() && self.coef.mul_int_fits(rhs as int)
    }

    open spec fn mul_spec(self, rhs: u32) -> surd32 {
        arbitrary()
    }
}

impl core::ops::Mul<u32> for surd32 {
    type Output = surd32;

    fn mul(self, rhs: u32) -> (r: surd32)
        ensures
            r.wf() && r.represents(self.coef.spec_mul_int(rhs as int), self.radicand as int) && r.canonical_from(self.coef.spec_mul_int(rhs as int), self.radicand as int),
    {
        self.checked_scale(rhs as i64)
    }
}

impl vstd::std_specs::ops::MulSpecImpl<&u32> for surd32 {
    open spec fn obeys_mul_spec() -> bool {
        false
    }

    open spec fn mul_req(self, rhs: &u32) -> bool {
        self.wf() && self.coef.mul_int_fits((*rhs) as int)
    }

    open spec fn mul_spec(self, rhs: &u32) -> surd32 {
        arbitrary()
    }
}

impl core::ops::Mul<&u32> for surd32 {
    type Output = surd32;

    fn mul(self, rhs: &u32) -> (r: surd32)
        ensures
            r.wf() && r.represents(self.coef.spec_mul_int((*rhs) as int), self.radicand as int) && r.canonical_from(self.coef.spec_mul_int((*rhs) as int), self.radicand as int),
    {
        self.checked_scale((*rhs) as i64)
    }
}

impl vstd::std_specs::ops::MulSpecImpl<u32> for &surd32 {
    open spec fn obeys_mul_spec() -> bool {
        false
    }

    open spec fn mul_req(self, rhs: u32) -> bool {
        (*self).wf() && (*self).coef.mul_int_fits(rhs as int)
    }

    open spec fn mul_spec(self, rhs: u32) -> surd32 {
        arbitrary()
    }
}

impl core::ops::Mul<u32> for &surd32 {
    type Output = surd32;

    fn mul(self, rhs: u32) -> (r: surd32)
        ensures
            r.wf() && r.represents((*self).coef.spec_mul_int(rhs as int), (*self).radicand as int) && r.canonical_from((*self).coef.spec_mul_int(rhs as int), (*self).radicand as int),
    {
        (*self).checked_scale(rhs as i64)
    }
}

impl vstd::std_specs::ops::MulSpecImpl<&u32> for &surd32 {
    open spec fn obeys_mul_spec() -> bool {
        false
    }

    open spec fn mul_req(self, rhs: &u32) -> bool {
        (*self).wf() && (*self).coef.mul_int_fits((*rhs) as int)
    }

    open spec fn mul_spec(self, rhs: &u32) -> surd32 {
        arbitrary()
    }
}

impl core::ops::Mul<&u32> for &surd32 {
    type Output = surd32;

    fn mul(self, rhs: &u32) -> (r: surd32)
        ensures
            r.wf() && r.represents((*self).coef.spec_mul_int((*rhs) as int), (*self).radicand as int) && r.canonical_from((*self).coef.spec_mul_int((*rhs) as int), (*self).radicand as int),
    {
        (*self).checked_scale((*rhs) as i64)
    }
}

impl core::ops::MulAssign<u32> for surd32 {
    fn mul_assign(&mut self, rhs: u32)
        requires
            old(self).wf(),
            old(self).coef.mul_int_fits(rhs as int),
        ensures
            final(self).wf(),
            final(self).represents(old(self).coef.spec_mul_int(rhs as int), old(self).radicand as int),
            final(self).canonical_from(old(self).coef.spec_mul_int(rhs as int), old(self).radicand as int),
    {
        let v = self.checked_scale(rhs as i64);
        *self = v;
    }
}

impl core::ops::MulAssign<&u32> for surd32 {
    fn mul_assign(&mut self, rhs: &u32)
        requires
            old(self).wf(),
            old(self).coef.mul_int_fits((*rhs) as int),
        ensures
            final(self).wf(),
            final(self).represents(old(self).coef.spec_mul_int((*rhs) as int), old(self).radicand as int),
            final(self).canonical_from(old(self).coef.spec_mul_int((*rhs) as int), old(self).radicand as int),
    {
        let v = self.checked_scale((*rhs) as i64);
        *self = v;
    }
}

impl vstd::std_specs::ops::DivSpecImpl<u32> for surd32 {
    open spec fn obeys_div_spec() -> bool {
        false
    }

    open spec fn div_req(self, rhs: u32) -> bool {
        self.wf() && self.coef.div_int_fits(rhs as int)
    }

    open spec fn div_spec(self, rhs: u32) -> surd32 {
        arbitrary()
    }
}

impl core::ops::Div<u32> for surd32 {
    type Output = surd32;

    fn div(self, rhs: u32) -> (r: surd32)
        ensures
            r.wf() && r.represents(self.coef.spec_div_int(rhs as int), self.radicand as int) && r.canonical_from(self.coef.spec_div_int(rhs as int), self.radicand as int),
    {
        self.checked_shrink(rhs as i64)
    }
}

impl vstd::std_specs::ops::DivSpecImpl<&u32> for surd32 {
    open spec fn obeys_div_spec() -> bool {
        false
    }

    open spec fn div_req(self, rhs: &u32) -> bool {
        self.wf() && self.coef.div_int_fits((*rhs) as int)
    }

    open spec fn div_spec(self, rhs: &u32) -> surd32 {
        arbitrary()
    }
}

impl core::ops::Div<&u32> for surd32 {
    type Output = surd32;

    fn div(self, rhs: &u32) -> (r: surd32)
        ensures
            r.wf() && r.represents(self.coef.spec_div_int((*rhs) as int), self.radicand as int) && r.canonical_from(self.coef.spec_div_int((*rhs) as int), self.radicand as int),
    {
        self.checked_shrink((*rhs) as i64)
    }
}

impl vstd::std_specs::ops::DivSpecImpl<u32> for &surd32 {
    open spec fn obeys_div_spec() -> bool {
        false
    }

    open spec fn div_req(self, rhs: u32) -> bool {
        (*self).wf() && (*self).coef.div_int_fits(rhs as int)
    }

    open spec fn div_spec(self, rhs: u32) -> surd32 {
        arbitrary()
    }
}

impl core::ops::Div<u32> for &surd32 {
    type Output = surd32;

    fn div(self, rhs: u32) -> (r: surd32)
        ensures
            r.wf() && r.represents((*self).coef.spec_div_int(rhs as int), (*self).radicand as int) && r.canonical_from((*self).coef.spec_div_int(rhs as int), (*self).radicand as int),
    {
        (*self).checked_shrink(rhs as i64)
    }
}

impl vstd::std_specs::ops::DivSpecImpl<&u32> for &surd32 {
    open spec fn obeys_div_spec() -> bool {
        false
    }

    open spec fn div_req(self, rhs: &u32) -> bool {
        (*self).wf() && (*self).coef.div_int_fits((*rhs) as int)
    }

    open spec fn div_spec(self, rhs: &u32) -> surd32 {
        arbitrary()
    }
}

impl core::ops::Div<&u32> for &surd32 {
    type Output = surd32;

    fn div(self, rhs: &u32) -> (r: surd32)
        ensures
            r.wf() && r.represents((*self).coef.spec_div_int((*rhs) as int), (*self).radicand as int) && r.canonical_from((*self).coef.spec_div_int((*rhs) as int), (*self).radicand as int),
    {
        (*self).checked_shrink((*rhs) as i64)
    }
}

impl core::ops::DivAssign<u32> for surd32 {
    fn div_assign(&mut self, rhs: u32)
        requires
            old(self).wf(),
            old(self).coef.div_int_fits(rhs as int),
        ensures
            final(self).wf(),
            final(self).represents(old(self).coef.spec_div_int(rhs as int), old(self).radicand as int),
            final(self).canonical_from(old(self).coef.spec_div_int(rhs as int), old(self).radicand as int),
    {
        let v = self.checked_shrink(rhs as i64);
        *self = v;
    }
}

impl core::ops::DivAssign<&u32> for surd32 {
    fn div_assign(&mut self, rhs: &u32)
        requires
            old(self).wf(),
            old(self).coef.div_int_fits((*rhs) as int),
        ensures
            final(self).wf(),
            final(self).represents(old(self).coef.spec_div_int((*rhs) as int), old(self).radicand as int),
            final(self).canonical_from(old(self).coef.spec_div_int((*rhs) as int), old(self).radicand as int),
    {
        let v = self.checked_shrink((*rhs) as i64);
        *self = v;
    }
}

impl vstd::std_specs::ops::NegSpecImpl for surd32 {
    open spec fn obeys_neg_spec() -> bool {
        true
    }

    open spec fn neg_req(self) -> bool {
        self.wf() && self.coef.n > i16::MIN
    }

    open spec fn neg_spec(self) -> surd32 {
        surd32 { coef: self.coef.spec_neg(), radicand: self.radicand }
    }
}

impl core::ops::Neg for surd32 {
    type Output = surd32;

    fn neg(self) -> (r: surd32) {
        surd32 { coef: self.coef.neg(), radicand: self.radicand }
    }
}


///Surd with 64-bit parts: `coef * sqrt(radicand)` for a rational coefficient and a u64
///radicand. Surds can be multiplied and divided, not added or subtracted.
#[allow(non_camel_case_types)]
#[derive(Clone, Copy, Debug, PartialEq, Eq, Structural, Hash)]
pub struct surd64 {
    ///Rational coefficient.
    pub coef: r64,
    ///Radicand.
    pub radicand: u64,
}

impl surd64 {
    /// A canonical coefficient and a positive radicand.
    pub open spec fn wf(self) -> bool {
        self.coef.wf() && self.radicand > 0
    }

    /// This surd equals `coef * sqrt(radicand)`: for some `s > 0`, its radicand is
    /// `radicand / s²` and its coefficient `coef * s`.
    pub open spec fn represents(self, coef: r64, radicand: int) -> bool {
        exists|s: nat|
            s > 0 && #[trigger] (s * s * self.radicand) == radicand && self.coef == coef.spec_mul_int(
                s as int,
            )
    }

    /// The radicand is square-free, or, only where moving the square part out would overflow
    /// the coefficient, this is `coef * sqrt(radicand)` as given.
    pub open spec fn canonical_from(self, coef: r64, radicand: int) -> bool {
        square_free(self.radicand as nat) || (self.coef == coef && self.radicand == radicand && exists|
            s: nat,
            t: nat,
        | #[trigger] (s * s * t) == radicand && square_free(t) && !coef.mul_int_fits(s as int))
    }

    /// The square, `coef² * radicand`, exactly.
    pub open spec fn spec_squared(self) -> r64 {
        self.coef.spec_mul(self.coef).spec_mul_int(self.radicand as int)
    }

    /// The square fits an `r64`.
    pub open spec fn squared_fits(self) -> bool {
        self.wf() && self.coef.mul_fits(self.coef) && self.coef.spec_mul(self.coef).mul_int_fits(
            self.radicand as int,
        )
    }

    /// The product of two surds fits.
    pub open spec fn mul_fits(self, o: surd64) -> bool {
        self.wf() && o.wf() && self.coef.mul_fits(o.coef) && self.radicand * o.radicand <= u64::MAX
    }

    /// The quotient of two surds fits: `(a/(b·r₂))·sqrt(r₁·r₂)`.
    pub open spec fn div_fits(self, o: surd64) -> bool {
        &&& self.wf()
        &&& o.wf()
        &&& o.coef.mul_int_fits(o.radicand as int)
        &&& self.coef.div_fits(o.coef.spec_mul_int(o.radicand as int))
        &&& self.radicand * o.radicand <= u64::MAX
    }

    ///Returns `coef * sqrt(radicand)` with every square factor moved out of the radicand
    ///into the coefficient, leaving the radicand square-free: first those that `sqfac64`
    ///finds, then any left, by trial division. When the coefficient times the root would not
    ///fit, the surd is returned as given.
    pub fn new(coef: r64, radicand: u64) -> (r: surd64)
        requires
            coef.wf(),
            radicand > 0,
        ensures
            r.wf(),
            r.represents(coef, radicand as int),
            r.canonical_from(coef, radicand as int),
    {
        let factors = sqfac64(radicand);
        let mut s: u64 = 1;
        let mut rest: u64 = radicand;
        let mut i: usize = 0;
        while i < factors.len()
            invariant
                radicand > 0,
                s >= 1,
                rest >= 1,
                s * s * rest == radicand,
                forall|j: int|
                    0 <= j < factors@.len() ==> #[trigger] factors@[j].1 == factors@[j].0
                        * factors@[j].0 && factors@[j].0 > 1,
            decreases factors@.len() - i,
        {
            let (root, sq) = factors[i];
            assert(sq > 0) by (nonlinear_arith)
                requires sq == root * root, root > 1;
            if rest % sq == 0 {
                let q = rest / sq;
                proof {
                    lemma_fundamental_div_mod(rest as int, sq as int);
                }
                assert(q >= 1) by (nonlinear_arith)
                    requires rest == sq * q, rest >= 1, sq > 0;
                assert((s * root) * (s * root) * q == radicand) by (nonlinear_arith)
                    requires s * s * rest == radicand, rest == sq * q, sq == root * root;
                assert(s <= s * root <= radicand) by (nonlinear_arith)
                    requires (s * root) * (s * root) * q == radicand, q >= 1, s >= 1, root > 1;
                s = s * root;
                rest = q;
            }
            i = i + 1;
        }
        assert(s * s * rest == radicand);
        let (s2, rest2) = square_part64(rest);
        assert((s * s2) * (s * s2) * rest2 == radicand) by (nonlinear_arith)
            requires s * s * rest == radicand, s2 * s2 * rest2 == rest;
        assert(1 <= s * s2 <= radicand) by (nonlinear_arith)
            requires (s * s2) * (s * s2) * rest2 == radicand, rest2 >= 1, s >= 1, s2 >= 1;
        let s = s * s2;
        let rest = rest2;
        match coef.checked_mul_int(s as i128) {
            Some(c) => {
                let r = surd64 { coef: c, radicand: rest };
                proof {
                    let sn = s as nat;
                    assert(sn * sn * r.radicand == radicand as int);
                }
                r
            },
            None => {
                proof {
                    r64::lemma_of_self(coef);
                    let r = surd64 { coef, radicand };
                    assert(1nat * 1nat * r.radicand == radicand as int);
                    assert((s as nat) * (s as nat) * (rest as nat) == radicand as int);
                }
                surd64 { coef, radicand }
            },
        }
    }

    ///Returns the coefficient of the surd.
    pub fn coef(&self) -> (r: r64)
        ensures
            r == self.coef,
    {
        self.coef
    }

    ///Returns the radicand of the surd.
    pub fn radicand(&self) -> (r: u64)
        ensures
            r == self.radicand,
    {
        self.radicand
    }

    ///The surd as a rational: the coefficient when the radicand is 1, else `None`.
    pub fn rational(&self) -> (r: Option<r64>)
        ensures
            r == (if self.radicand == 1 { Some(self.coef) } else { None::<r64> }),
    {
        if self.radicand == 1 {
            Some(self.coef)
        } else {
            None
        }
    }

    ///Returns the square of the surd, `coef² * radicand`, which is always rational.
    pub fn squared(&self) -> (r: r64)
        requires
            self.squared_fits(),
        ensures
            r.wf(),
            r == self.spec_squared(),
    {
        let c2 = self.coef.checked_mul(self.coef).unwrap();
        c2.checked_mul_int(self.radicand as i128).unwrap()
    }

    /// The product of two surds.
    pub fn checked_surd_mul(self, o: surd64) -> (r: surd64)
        requires
            self.mul_fits(o),
        ensures
            r.wf(),
            r.represents(self.coef.spec_mul(o.coef), self.radicand * o.radicand),
            r.canonical_from(self.coef.spec_mul(o.coef), self.radicand * o.radicand),
    {
        let c = self.coef.checked_mul(o.coef).unwrap();
        assert(self.radicand * o.radicand > 0) by (nonlinear_arith)
            requires self.radicand > 0, o.radicand > 0;
        surd64::new(c, self.radicand * o.radicand)
    }

    /// The quotient of two surds, `(a/(b·r₂))·sqrt(r₁·r₂)`.
    pub fn checked_surd_div(self, o: surd64) -> (r: surd64)
        requires
            self.div_fits(o),
        ensures
            r.wf(),
            r.represents(
                self.coef.spec_div(o.coef.spec_mul_int(o.radicand as int)),
                self.radicand * o.radicand,
            ),
            r.canonical_from(
                self.coef.spec_div(o.coef.spec_mul_int(o.radicand as int)),
                self.radicand * o.radicand,
            ),
    {
        let t = o.coef.checked_mul_int(o.radicand as i128).unwrap();
        let c = self.coef.checked_div(t).unwrap();
        assert(self.radicand * o.radicand > 0) by (nonlinear_arith)
            requires self.radicand > 0, o.radicand > 0;
        surd64::new(c, self.radicand * o.radicand)
    }

    /// The surd with its coefficient scaled by `k`.
    pub fn checked_scale(self, k: i128) -> (r: surd64)
        requires
            self.wf(),
            i64::MIN <= k <= u64::MAX,
            self.coef.mul_int_fits(k as int),
        ensures
            r.wf(),
            r.represents(self.coef.spec_mul_int(k as int), self.radicand as int),
            r.canonical_from(self.coef.spec_mul_int(k as int), self.radicand as int),
    {
        let c = self.coef.checked_mul_int(k).unwrap();
        surd64::new(c, self.radicand)
    }

    /// The surd with its coefficient divided by `k`.
    pub fn checked_shrink(self, k: i128) -> (r: surd64)
        requires
            self.wf(),
            i64::MIN <= k <= u64::MAX,
            self.coef.div_int_fits(k as int),
        ensures
            r.wf(),
            r.represents(self.coef.spec_div_int(k as int), self.radicand as int),
            r.canonical_from(self.coef.spec_div_int(k as int), self.radicand as int),
    {
        let c = self.coef.checked_div_int(k).unwrap();
        surd64::new(c, self.radicand)
    }

    /// The coefficient and radicand `1` and `k` square to `k`.
    pub proof fn lemma_squared_unit(k: u64)
        requires
            k > 0,
            k <= i32::MAX,
        ensures
            (surd64 { coef: r64 { n: 1, d: 1 }, radicand: k }).spec_squared() == (r64 {
                n: k as i32,
                d: 1,
            }),
    {
        let one = r64 { n: 1, d: 1 };
        lemma_gcd_self(1);
        r64::lemma_of_self(one);
        assert(one.spec_mul(one) == r64::of(1, 1));
        assert(one.spec_mul(one) == one);
        lemma_gcd_comm(k as nat, 1);
        lemma_gcd_one(k as nat);
        assert(abs(k as int) == k as nat);
        assert(reduced_num(k as int, 1) == (k as nat / 1) as int);
        assert(reduced_den(k as int, 1) == (1nat / 1) as int);
    }
}

impl r64 {
    ///Returns the square root of the value as a surd, `sign/d * sqrt(|n|·d)`.
    pub fn surd_sqrt(&self) -> (r: surd64)
        requires
            self.wf(),
            self.n != 0,
        ensures
            r.wf(),
            r.represents(
                (r64 { n: if self.n > 0 { 1 as i32 } else { -1 as i32 }, d: self.d }),
                abs(self.n as int) * self.d,
            ),
            r.canonical_from(
                (r64 { n: if self.n > 0 { 1 as i32 } else { -1 as i32 }, d: self.d }),
                abs(self.n as int) * self.d,
            ),
    {
        let sign: i32 = if self.n > 0 { 1 } else { -1 };
        let an: u64 = if self.n > 0 { self.n as u64 } else { (-(self.n as i64)) as u64 };
        proof {
            lemma_gcd_comm(1, self.d as nat);
            lemma_gcd_one(self.d as nat);
            assert(abs(sign as int) == 1);
        }
        let c = r64::new_raw(sign, self.d);
        assert(an * self.d > 0 && an * self.d <= u64::MAX) by (nonlinear_arith)
            requires 0 < an <= i32::MAX as int + 1, 0 < self.d <= u32::MAX;
        surd64::new(c, an * self.d as u64)
    }
}

impl crate::num::Sqroot for r64 {
    type Output = surd64;

    open spec fn sqroot_req(&self) -> bool {
        self.wf() && self.n != 0
    }

    fn sqroot(&self) -> (r: surd64)
        ensures
            r.wf(),
            r.represents(
                (r64 { n: if self.n > 0 { 1 as i32 } else { -1 as i32 }, d: self.d }),
                abs(self.n as int) * self.d,
            ),
            r.canonical_from(
                (r64 { n: if self.n > 0 { 1 as i32 } else { -1 as i32 }, d: self.d }),
                abs(self.n as int) * self.d,
            ),
    {
        self.surd_sqrt()
    }
}

impl vstd::std_specs::ops::MulSpecImpl<surd64> for surd64 {
    open spec fn obeys_mul_spec() -> bool {
        false
    }

    open spec fn mul_req(self, rhs: surd64) -> bool {
        self.mul_fits(rhs)
    }

    open spec fn mul_spec(self, rhs: surd64) -> surd64 {
        arbitrary()
    }
}

impl core::ops::Mul<surd64> for surd64 {
    type Output = surd64;

    fn mul(self, rhs: surd64) -> (r: surd64)
        ensures
            r.wf() && r.represents(self.coef.spec_mul(rhs.coef), self.radicand * rhs.radicand) && r.canonical_from(self.coef.spec_mul(rhs.coef), self.radicand * rhs.radicand),
    {
        self.checked_surd_mul(rhs)
    }
}

impl vstd::std_specs::ops::MulSpecImpl<&surd64> for surd64 {
    open spec fn obeys_mul_spec() -> bool {
        false
    }

    open spec fn mul_req(self, rhs: &surd64) -> bool {
        self.mul_fits((*rhs))
    }

    open spec fn mul_spec(self, rhs: &surd64) -> surd64 {
        arbitrary()
    }
}

impl core::ops::Mul<&surd64> for surd64 {
    type Output = surd64;

    fn mul(self, rhs: &surd64) -> (r: surd64)
        ensures
            r.wf() && r.represents(self.coef.spec_mul((*rhs).coef), self.radicand * (*rhs).radicand) && r.canonical_from(self.coef.spec_mul((*rhs).coef), self.radicand * (*rhs).radicand),
    {
        self.checked_surd_mul((*rhs))
    }
}

impl vstd::std_specs::ops::MulSpecImpl<surd64> for &surd64 {
    open spec fn obeys_mul_spec() -> bool {
        false
    }

    open spec fn mul_req(self, rhs: surd64) -> bool {
        (*self).mul_fits(rhs)
    }

    open spec fn mul_spec(self, rhs: surd64) -> surd64 {
        arbitrary()
    }
}

impl core::ops::Mul<surd64> for &surd64 {
    type Output = surd64;

    fn mul(self, rhs: surd64) -> (r: surd64)
        ensures
            r.wf() && r.represents((*self).coef.spec_mul(rhs.coef), (*self).radicand * rhs.radicand) && r.canonical_from((*self).coef.spec_mul(rhs.coef), (*self).radicand * rhs.radicand),
    {
        (*self).checked_surd_mul(rhs)
    }
}

impl vstd::std_specs::ops::MulSpecImpl<&surd64> for &surd64 {
    open spec fn obeys_mul_spec() -> bool {
        false
    }

    open spec fn mul_req(self, rhs: &surd64) -> bool {
        (*self).mul_fits((*rhs))
    }

    open spec fn mul_spec(self, rhs: &surd64) -> surd64 {
        arbitrary()
    }
}

impl core::ops::Mul<&surd64> for &surd64 {
    type Output = surd64;

    fn mul(self, rhs: &surd64) -> (r: surd64)
        ensures
            r.wf() && r.represents((*self).coef.spec_mul((*rhs).coef), (*self).radicand * (*rhs).radicand) && r.canonical_from((*self).coef.spec_mul((*rhs).coef), (*self).radicand * (*rhs).radicand),
    {
        (*self).checked_surd_mul((*rhs))
    }
}

impl core::ops::MulAssign<surd64> for surd64 {
    fn mul_assign(&mut self, rhs: surd64)
        requires
            old(self).mul_fits(rhs),
        ensures
            final(self).wf(),
    {
        let v = self.checked_surd_mul(rhs);
        *self = v;
    }
}

impl core::ops::MulAssign<&surd64> for surd64 {
    fn mul_assign(&mut self, rhs: &surd64)
        requires
            old(self).mul_fits((*rhs)),
        ensures
            final(self).wf(),
    {
        let v = self.checked_surd_mul((*rhs));
        *self = v;
    }
}

impl vstd::std_specs::ops::DivSpecImpl<surd64> for surd64 {
    open spec fn obeys_div_spec() -> bool {
        false
    }

    open spec fn div_req(self, rhs: surd64) -> bool {
        self.div_fits(rhs)
    }

    open spec fn div_spec(self, rhs: surd64) -> surd64 {
        arbitrary()
    }
}

impl core::ops::Div<surd64> for surd64 {
    type Output = surd64;

    fn div(self, rhs: surd64) -> (r: surd64)
        ensures
            r.wf() && r.represents(self.coef.spec_div(rhs.coef.spec_mul_int(rhs.radicand as int)), self.radicand * rhs.radicand) && r.canonical_from(self.coef.spec_div(rhs.coef.spec_mul_int(rhs.radicand as int)), self.radicand * rhs.radicand),
    {
        self.checked_surd_div(rhs)
    }
}

impl vstd::std_specs::ops::DivSpecImpl<&surd64> for surd64 {
    open spec fn obeys_div_spec() -> bool {
        false
    }

    open spec fn div_req(self, rhs: &surd64) -> bool {
        self.div_fits((*rhs))
    }

    open spec fn div_spec(self, rhs: &surd64) -> surd64 {
        arbitrary()
    }
}

impl core::ops::Div<&surd64> for surd64 {
    type Output = surd64;

    fn div(self, rhs: &surd64) -> (r: surd64)
        ensures
            r.wf() && r.represents(self.coef.spec_div((*rhs).coef.spec_mul_int((*rhs).radicand as int)), self.radicand * (*rhs).radicand) && r.canonical_from(self.coef.spec_div((*rhs).coef.spec_mul_int((*rhs).radicand as int)), self.radicand * (*rhs).radicand),
    {
        self.checked_surd_div((*rhs))
    }
}

impl vstd::std_specs::ops::DivSpecImpl<surd64> for &surd64 {
    open spec fn obeys_div_spec() -> bool {
        false
    }

    open spec fn div_req(self, rhs: surd64) -> bool {
        (*self).div_fits(rhs)
    }

    open spec fn div_spec(self, rhs: surd64) -> surd64 {
        arbitrary()
    }
}

impl core::ops::Div<surd64> for &surd64 {
    type Output = surd64;

    fn div(self, rhs: surd64) -> (r: surd64)
        ensures
            r.wf() && r.represents((*self).coef.spec_div(rhs.coef.spec_mul_int(rhs.radicand as int)), (*self).radicand * rhs.radicand) && r.canonical_from((*self).coef.spec_div(rhs.coef.spec_mul_int(rhs.radicand as int)), (*self).radicand * rhs.radicand),
    {
        (*self).checked_surd_div(rhs)
    }
}

impl vstd::std_specs::ops::DivSpecImpl<&surd64> for &surd64 {
    open spec fn obeys_div_spec() -> bool {
        false
    }

    open spec fn div_req(self, rhs: &surd64) -> bool {
        (*self).div_fits((*rhs))
    }

    open spec fn div_spec(self, rhs: &surd64) -> surd64 {
        arbitrary()
    }
}

impl core::ops::Div<&surd64> for &surd64 {
    type Output = surd64;

    fn div(self, rhs: &surd64) -> (r: surd64)
        ensures
            r.wf() && r.represents((*self).coef.spec_div((*rhs).coef.spec_mul_int((*rhs).radicand as int)), (*self).radicand * (*rhs).radicand) && r.canonical_from((*self).coef.spec_div((*rhs).coef.spec_mul_int((*rhs).radicand as int)), (*self).radicand * (*rhs).radicand),
    {
        (*self).checked_surd_div((*rhs))
    }
}

impl core::ops::DivAssign<surd64> for surd64 {
    fn div_assign(&mut self, rhs: surd64)
        requires
            old(self).div_fits(rhs),
        ensures
            final(self).wf(),
    {
        let v = self.checked_surd_div(rhs);
        *self = v;
    }
}

impl core::ops::DivAssign<&surd64> for surd64 {
    fn div_assign(&mut self, rhs: &surd64)
        requires
            old(self).div_fits((*rhs)),
        ensures
            final(self).wf(),
    {
        let v = self.checked_surd_div((*rhs));
        *self = v;
    }
}

impl vstd::std_specs::ops::MulSpecImpl<i64> for surd64 {
    open spec fn obeys_mul_spec() -> bool {
        false
    }

    open spec fn mul_req(self, rhs: i64) -> bool {
        self.wf() && self.coef.mul_int_fits(rhs as int)
    }

    open spec fn mul_spec(self, rhs: i64) -> surd64 {
        arbitrary()
    }
}

impl core::ops::Mul<i64> for surd64 {
    type Output = surd64;

    fn mul(self, rhs: i64) -> (r: surd64)
        ensures
            r.wf() && r.represents(self.coef.spec_mul_int(rhs as int), self.radicand as int) && r.canonical_from(self.coef.spec_mul_int(rhs as int), self.radicand as int),
    {
        self.checked_scale(rhs as i128)
    }
}

impl vstd::std_specs::ops::MulSpecImpl<&i64> for surd64 {
    open spec fn obeys_mul_spec() -> bool {
        false
    }

    open spec fn mul_req(self, rhs: &i64) -> bool {
        self.wf() && self.coef.mul_int_fits((*rhs) as int)
    }

    open spec fn mul_spec(self, rhs: &i64) -> surd64 {
        arbitrary()
    }
}

impl core::ops::Mul<&i64> for surd64 {
    type Output = surd64;

    fn mul(self, rhs: &i64) -> (r: surd64)
        ensures
            r.wf() && r.represents(self.coef.spec_mul_int((*rhs) as int), self.radicand as int) && r.canonical_from(self.coef.spec_mul_int((*rhs) as int), self.radicand as int),
    {
        self.checked_scale((*rhs) as i128)
    }
}

impl vstd::std_specs::ops::MulSpecImpl<i64> for &surd64 {
    open spec fn obeys_mul_spec() -> bool {
        false
    }

    open spec fn mul_req(self, rhs: i64) -> bool {
        (*self).wf() && (*self).coef.mul_int_fits(rhs as int)
    }

    open spec fn mul_spec(self, rhs: i64) -> surd64 {
        arbitrary()
    }
}

impl core::ops::Mul<i64> for &surd64 {
    type Output = surd64;

    fn mul(self, rhs: i64) -> (r: surd64)
        ensures
            r.wf() && r.represents((*self).coef.spec_mul_int(rhs as int), (*self).radicand as int) && r.canonical_from((*self).coef.spec_mul_int(rhs as int), (*self).radicand as int),
    {
        (*self).checked_scale(rhs as i128)
    }
}

impl vstd::std_specs::ops::MulSpecImpl<&i64> for &surd64 {
    open spec fn obeys_mul_spec() -> bool {
        false
    }

    open spec fn mul_req(self, rhs: &i64) -> bool {
        (*self).wf() && (*self).coef.mul_int_fits((*rhs) as int)
    }

    open spec fn mul_spec(self, rhs: &i64) -> surd64 {
        arbitrary()
    }
}

impl core::ops::Mul<&i64> for &surd64 {
    type Output = surd64;

    fn mul(self, rhs: &i64) -> (r: surd64)
        ensures
            r.wf() && r.represents((*self).coef.spec_mul_int((*rhs) as int), (*self).radicand as int) && r.canonical_from((*self).coef.spec_mul_int((*rhs) as int), (*self).radicand as int),
    {
        (*self).checked_scale((*rhs) as i128)
    }
}

impl core::ops::MulAssign<i64> for surd64 {
    fn mul_assign(&mut self, rhs: i64)
        requires
            old(self).wf(),
            old(self).coef.mul_int_fits(rhs as int),
        ensures
            final(self).wf(),
            final(self).represents(old(self).coef.spec_mul_int(rhs as int), old(self).radicand as int),
            final(self).canonical_from(old(self).coef.spec_mul_int(rhs as int), old(self).radicand as int),
    {
        let v = self.checked_scale(rhs as i128);
        *self = v;
    }
}

impl core::ops::MulAssign<&i64> for surd64 {
    fn mul_assign(&mut self, rhs: &i64)
        requires
            old(self).wf(),
            old(self).coef.mul_int_fits((*rhs) as int),
        ensures
            final(self).wf(),
            final(self).represents(old(self).coef.spec_mul_int((*rhs) as int), old(self).radicand as int),
            final(self).canonical_from(old(self).coef.spec_mul_int((*rhs) as int), old(self).radicand as int),
    {
        let v = self.checked_scale((*rhs) as i128);
        *self = v;
    }
}

impl vstd::std_specs::ops::DivSpecImpl<i64> for surd64 {
    open spec fn obeys_div_spec() -> bool {
        false
    }

    open spec fn div_req(self, rhs: i64) -> bool {
        self.wf() && self.coef.div_int_fits(rhs as int)
    }

    open spec fn div_spec(self, rhs: i64) -> surd64 {
        arbitrary()
    }
}

impl core::ops::Div<i64> for surd64 {
    type Output = surd64;

    fn div(self, rhs: i64) -> (r: surd64)
        ensures
            r.wf() && r.represents(self.coef.spec_div_int(rhs as int), self.radicand as int) && r.canonical_from(self.coef.spec_div_int(rhs as int), self.radicand as int),
    {
        self.checked_shrink(rhs as i128)
    }
}

impl vstd::std_specs::ops::DivSpecImpl<&i64> for surd64 {
    open spec fn obeys_div_spec() -> bool {
        false
    }

    open spec fn div_req(self, rhs: &i64) -> bool {
        self.wf() && self.coef.div_int_fits((*rhs) as int)
    }

    open spec fn div_spec(self, rhs: &i64) -> surd64 {
        arbitrary()
    }
}

impl core::ops::Div<&i64> for surd64 {
    type Output = surd64;

    fn div(self, rhs: &i64) -> (r: surd64)
        ensures
            r.wf() && r.represents(self.coef.spec_div_int((*rhs) as int), self.radicand as int) && r.canonical_from(self.coef.spec_div_int((*rhs) as int), self.radicand as int),
    {
        self.checked_shrink((*rhs) as i128)
    }
}

impl vstd::std_specs::ops::DivSpecImpl<i64> for &surd64 {
    open spec fn obeys_div_spec() -> bool {
        false
    }

    open spec fn div_req(self, rhs: i64) -> bool {
        (*self).wf() && (*self).coef.div_int_fits(rhs as int)
    }

    open spec fn div_spec(self, rhs: i64) -> surd64 {
        arbitrary()
    }
}

impl core::ops::Div<i64> for &surd64 {
    type Output = surd64;

    fn div(self, rhs: i64) -> (r: surd64)
        ensures
            r.wf() && r.represents((*self).coef.spec_div_int(rhs as int), (*self).radicand as int) && r.canonical_from((*self).coef.spec_div_int(rhs as int), (*self).radicand as int),
    {
        (*self).checked_shrink(rhs as i128)
    }
}

impl vstd::std_specs::ops::DivSpecImpl<&i64> for &surd64 {
    open spec fn obeys_div_spec() -> bool {
        false
    }

    open spec fn div_req(self, rhs: &i64) -> bool {
        (*self).wf() && (*self).coef.div_int_fits((*rhs) as int)
    }

    open spec fn div_spec(self, rhs: &i64) -> surd64 {
        arbitrary()
    }
}

impl core::ops::Div<&i64> for &surd64 {
    type Output = surd64;

    fn div(self, rhs: &i64) -> (r: surd64)
        ensures
            r.wf() && r.represents((*self).coef.spec_div_int((*rhs) as int), (*self).radicand as int) && r.canonical_from((*self).coef.spec_div_int((*rhs) as int), (*self).radicand as int),
    {
        (*self).checked_shrink((*rhs) as i128)
    }
}

impl core::ops::DivAssign<i64> for surd64 {
    fn div_assign(&mut self, rhs: i64)
        requires
            old(self).wf(),
            old(self).coef.div_int_fits(rhs as int),
        ensures
            final(self).wf(),
            final(self).represents(old(self).coef.spec_div_int(rhs as int), old(self).radicand as int),
            final(self).canonical_from(old(self).coef.spec_div_int(rhs as int), old(self).radicand as int),
    {
        let v = self.checked_shrink(rhs as i128);
        *self = v;
    }
}

impl core::ops::DivAssign<&i64> for surd64 {
    fn div_assign(&mut self, rhs: &i64)
        requires
            old(self).wf(),
            old(self).coef.div_int_fits((*rhs) as int),
        ensures
            final(self).wf(),
            final(self).represents(old(self).coef.spec_div_int((*rhs) as int), old(self).radicand as int),
            final(self).canonical_from(old(self).coef.spec_div_int((*rhs) as int), old(self).radicand as int),
    {
        let v = self.checked_shrink((*rhs) as i128);
        *self = v;
    }
}

impl vstd::std_specs::ops::MulSpecImpl<u64> for surd64 {
    open spec fn obeys_mul_spec() -> bool {
        false
    }

    open spec fn mul_req(self, rhs: u64) -> bool {
        self.wf() && self.coef.mul_int_fits(rhs as int)
    }

    open spec fn mul_spec(self, rhs: u64) -> surd64 {
        arbitrary()
    }
}

impl core::ops::Mul<u64> for surd64 {
    type Output = surd64;

    fn mul(self, rhs: u64) -> (r: surd64)
        ensures
            r.wf() && r.represents(self.coef.spec_mul_int(rhs as int), self.radicand as int) && r.canonical_from(self.coef.spec_mul_int(rhs as int), self.radicand as int),
    {
        self.checked_scale(rhs as i128)
    }
}

impl vstd::std_specs::ops::MulSpecImpl<&u64> for surd64 {
    open spec fn obeys_mul_spec() -> bool {
        false
    }

    open spec fn mul_req(self, rhs: &u64) -> bool {
        self.wf() && self.coef.mul_int_fits((*rhs) as int)
    }

    open spec fn mul_spec(self, rhs: &u64) -> surd64 {
        arbitrary()
    }
}

impl core::ops::Mul<&u64> for surd64 {
    type Output = surd64;

    fn mul(self, rhs: &u64) -> (r: surd64)
        ensures
            r.wf() && r.represents(self.coef.spec_mul_int((*rhs) as int), self.radicand as int) && r.canonical_from(self.coef.spec_mul_int((*rhs) as int), self.radicand as int),
    {
        self.checked_scale((*rhs) as i128)
    }
}

impl vstd::std_specs::ops::MulSpecImpl<u64> for &surd64 {
    open spec fn obeys_mul_spec() -> bool {
        false
    }

    open spec fn mul_req(self, rhs: u64) -> bool {
        (*self).wf() && (*self).coef.mul_int_fits(rhs as int)
    }

    open spec fn mul_spec(self, rhs: u64) -> surd64 {
        arbitrary()
    }
}

impl core::ops::Mul<u64> for &surd64 {
    type Output = surd64;

    fn mul(self, rhs: u64) -> (r: surd64)
        ensures
            r.wf() && r.represents((*self).coef.spec_mul_int(rhs as int), (*self).radicand as int) && r.canonical_from((*self).coef.spec_mul_int(rhs as int), (*self).radicand as int),
    {
        (*self).checked_scale(rhs as i128)
    }
}

impl vstd::std_specs::ops::MulSpecImpl<&u64> for &surd64 {
    open spec fn obeys_mul_spec() -> bool {
        false
    }

    open spec fn mul_req(self, rhs: &u64) -> bool {
        (*self).wf() && (*self).coef.mul_int_fits((*rhs) as int)
    }

    open spec fn mul_spec(self, rhs: &u64) -> surd64 {
        arbitrary()
    }
}

impl core::ops::Mul<&u64> for &surd64 {
    type Output = surd64;

    fn mul(self, rhs: &u64) -> (r: surd64)
        ensures
            r.wf() && r.represents((*self).coef.spec_mul_int((*rhs) as int), (*self).radicand as int) && r.canonical_from((*self).coef.spec_mul_int((*rhs) as int), (*self).radicand as int),
    {
        (*self).checked_scale((*rhs) as i128)
    }
}

impl core::ops::MulAssign<u64> for surd64 {
    fn mul_assign(&mut self, rhs: u64)
        requires
            old(self).wf(),
            old(self).coef.mul_int_fits(rhs as int),
        ensures
            final(self).wf(),
            final(self).represents(old(self).coef.spec_mul_int(rhs as int), old(self).radicand as int),
            final(self).canonical_from(old(self).coef.spec_mul_int(rhs as int), old(self).radicand as int),
    {
        let v = self.checked_scale(rhs as i128);
        *self = v;
    }
}

impl core::ops::MulAssign<&u64> for surd64 {
    fn mul_assign(&mut self, rhs: &u64)
        requires
            old(self).wf(),
            old(self).coef.mul_int_fits((*rhs) as int),
        ensures
            final(self).wf(),
            final(self).represents(old(self).coef.spec_mul_int((*rhs) as int), old(self).radicand as int),
            final(self).canonical_from(old(self).coef.spec_mul_int((*rhs) as int), old(self).radicand as int),
    {
        let v = self.checked_scale((*rhs) as i128);
        *self = v;
    }
}

impl vstd::std_specs::ops::DivSpecImpl<u64> for surd64 {
    open spec fn obeys_div_spec() -> bool {
        false
    }

    open spec fn div_req(self, rhs: u64) -> bool {
        self.wf() && self.coef.div_int_fits(rhs as int)
    }

    open spec fn div_spec(self, rhs: u64) -> surd64 {
        arbitrary()
    }
}

impl core::ops::Div<u64> for surd64 {
    type Output = surd64;

    fn div(self, rhs: u64) -> (r: surd64)
        ensures
            r.wf() && r.represents(self.coef.spec_div_int(rhs as int), self.radicand as int) && r.canonical_from(self.coef.spec_div_int(rhs as int), self.radicand as int),
    {
        self.checked_shrink(rhs as i128)
    }
}

impl vstd::std_specs::ops::DivSpecImpl<&u64> for surd64 {
    open spec fn obeys_div_spec() -> bool {
        false
    }

    open spec fn div_req(self, rhs: &u64) -> bool {
        self.wf() && self.coef.div_int_fits((*rhs) as int)
    }

    open spec fn div_spec(self, rhs: &u64) -> surd64 {
        arbitrary()
    }
}

impl core::ops::Div<&u64> for surd64 {
    type Output = surd64;

    fn div(self, rhs: &u64) -> (r: surd64)
        ensures
            r.wf() && r.represents(self.coef.spec_div_int((*rhs) as int), self.radicand as int) && r.canonical_from(self.coef.spec_div_int((*rhs) as int), self.radicand as int),
    {
        self.checked_shrink((*rhs) as i128)
    }
}

impl vstd::std_specs::ops::DivSpecImpl<u64> for &surd64 {
    open spec fn obeys_div_spec() -> bool {
        false
    }

    open spec fn div_req(self, rhs: u64) -> bool {
        (*self).wf() && (*self).coef.div_int_fits(rhs as int)
    }

    open spec fn div_spec(self, rhs: u64) -> surd64 {
        arbitrary()
    }
}

impl core::ops::Div<u64> for &surd64 {
    type Output = surd64;

    fn div(self, rhs: u64) -> (r: surd64)
        ensures
            r.wf() && r.represents((*self).coef.spec_div_int(rhs as int), (*self).radicand as int) && r.canonical_from((*self).coef.spec_div_int(rhs as int), (*self).radicand as int),
    {
        (*self).checked_shrink(rhs as i128)
    }
}

impl vstd::std_specs::ops::DivSpecImpl<&u64> for &surd64 {
    open spec fn obeys_div_spec() -> bool {
        false
    }

    open spec fn div_req(self, rhs: &u64) -> bool {
        (*self).wf() && (*self).coef.div_int_fits((*rhs) as int)
    }

    open spec fn div_spec(self, rhs: &u64) -> surd64 {
        arbitrary()
    }
}

impl core::ops::Div<&u64> for &surd64 {
    type Output = surd64;

    fn div(self, rhs: &u64) -> (r: surd64)
        ensures
            r.wf() && r.represents((*self).coef.spec_div_int((*rhs) as int), (*self).radicand as int) && r.canonical_from((*self).coef.spec_div_int((*rhs) as int), (*self).radicand as int),
    {
        (*self).checked_shrink((*rhs) as i128)
    }
}

impl core::ops::DivAssign<u64> for surd64 {
    fn div_assign(&mut self, rhs: u64)
        requires
            old(self).wf(),
            old(self).coef.div_int_fits(rhs as int),
        ensures
            final(self).wf(),
            final(self).represents(old(self).coef.spec_div_int(rhs as int), old(self).radicand as int),
            final(self).canonical_from(old(self).coef.spec_div_int(rhs as int), old(self).radicand as int),
    {
        let v = self.checked_shrink(rhs as i128);
        *self = v;
    }
}

impl core::ops::DivAssign<&u64> for surd64 {
    fn div_assign(&mut self, rhs: &u64)
        requires
            old(self).wf(),
            old(self).coef.div_int_fits((*rhs) as int),
        ensures
            final(self).wf(),
            final(self).represents(old(self).coef.spec_div_int((*rhs) as int), old(self).radicand as int),
            final(self).canonical_from(old(self).coef.spec_div_int((*rhs) as int), old(self).radicand as int),
    {
        let v = self.checked_shrink((*rhs) as i128);
        *self = v;
    }
}

impl vstd::std_specs::ops::NegSpecImpl for surd64 {
    open spec fn obeys_neg_spec() -> bool {
        true
    }

    open spec fn neg_req(self) -> bool {
        self.wf() && self.coef.n > i32::MIN
    }

    open spec fn neg_spec(self) -> surd64 {
        surd64 { coef: self.coef.spec_neg(), radicand: self.radicand }
    }
}

impl core::ops::Neg for surd64 {
    type Output = surd64;

    fn neg(self) -> (r: surd64) {
        surd64 { coef: self.coef.neg(), radicand: self.radicand }
    }
}

} // verus!
