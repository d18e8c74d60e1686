//! Exact fractions with fixed-width terms, kept in lowest terms.
use crate::num::factors::{
    abs, gcd128, gcd64, lcm32, lcm64, lemma_canonical_unique, lemma_gcd_comm, lemma_gcd_self, lemma_reduced_value, lemma_gcd_reduced, lemma_gcd_zero, lemma_reduced_coprime,
    lemma_reduced_scale, reduced_den, reduced_num, spec_gcd,
};
use vstd::arithmetic::div_mod::*;
use vstd::prelude::*;
use vstd::string::*;

verus! {

/// Why a rational could not be made.
#[derive(Clone, Copy, Debug, PartialEq, Eq, Structural)]
pub enum Error {
    /// The text is not a decimal number.
    ParseInt,
    /// A zero denominator.
    DivideByZero,
    /// The exact result does not fit the type's terms.
    Overflow,
}


/// The order of two integers.
pub open spec fn cmp_ints(a: int, b: int) -> core::cmp::Ordering {
    if a < b {
        core::cmp::Ordering::Less
    } else if a > b {
        core::cmp::Ordering::Greater
    } else {
        core::cmp::Ordering::Equal
    }
}

/// `v` with the sign given by `sign` (true for non-negative).
pub open spec fn signed(sign: bool, v: nat) -> int {
    if sign {
        v as int
    } else {
        -(v as int)
    }
}

/// Ten to the power `k`.
pub open spec fn pow10(k: nat) -> nat
    decreases k,
{
    if k == 0 {
        1
    } else {
        10 * pow10((k - 1) as nat)
    }
}

/// Every byte is an ASCII decimal digit.
pub open spec fn is_digits(s: Seq<u8>) -> bool {
    forall|i: int| 0 <= i < s.len() ==> 48 <= #[trigger] s[i] <= 57
}

/// The number that a string of decimal digits spells.
pub open spec fn digits_value(s: Seq<u8>) -> nat
    decreases s.len(),
{
    if s.len() == 0 {
        0
    } else {
        digits_value(s.drop_last()) * 10 + (s.last() - 48) as nat
    }
}

/// A non-empty string of decimal digits whose value is at most `max`.
pub open spec fn decimal_ok(s: Seq<u8>, max: nat) -> bool {
    s.len() > 0 && is_digits(s) && digits_value(s) <= max
}

proof fn lemma_pow10_pos(k: nat)
    ensures
        pow10(k) > 0,
    decreases k,
{
    if k > 0 {
        lemma_pow10_pos((k - 1) as nat);
    }
}

proof fn lemma_pow10_mono(j: nat, k: nat)
    requires
        j <= k,
    ensures
        pow10(j) <= pow10(k),
    decreases k,
{
    if j < k {
        lemma_pow10_mono(j, (k - 1) as nat);
        lemma_pow10_pos((k - 1) as nat);
    }
}

proof fn lemma_digits_prefix(s: Seq<u8>, i: int)
    requires
        is_digits(s),
        0 <= i <= s.len(),
    ensures
        digits_value(s.subrange(0, i)) <= digits_value(s),
    decreases s.len() - i,
{
    if i < s.len() {
        lemma_digits_prefix(s, i + 1);
        assert(s.subrange(0, i + 1).drop_last() =~= s.subrange(0, i));
    } else {
        assert(s.subrange(0, i) =~= s);
    }
}

/// Ten to the power `k`, for `k` at most 19.
fn pow10_exec(k: usize) -> (r: u64)
    requires
        k <= 19,
    ensures
        r == pow10(k as nat),
{
    let mut r: u64 = 1;
    let mut i: usize = 0;
    while i < k
        invariant
            i <= k <= 19,
            r == pow10(i as nat),
        decreases k - i,
    {
        proof {
            lemma_pow10_mono(i as nat, 18);
            reveal_with_fuel(pow10, 19);
        }
        r = r * 10;
        i = i + 1;
    }
    r
}

/// Extends the value `acc` of the digits `pre` by the digits of `s`, while it
/// stays at most `max`.
fn push_digits(acc: u64, Ghost(pre): Ghost<Seq<u8>>, s: &[u8], max: u64) -> (r: Option<u64>)
    requires
        max <= u32::MAX,
        acc <= max,
        acc == digits_value(pre),
        is_digits(pre),
    ensures
        r.is_some() == (is_digits(pre + s@) && digits_value(pre + s@) <= max),
        r matches Some(v) ==> v == digits_value(pre + s@),
{
    let ghost t = pre + s@;
    let mut acc = acc;
    let mut i: usize = 0;
    assert(t.subrange(0, pre.len() as int) =~= pre);
    while i < s.len()
        invariant
            t == pre + s@,
            i <= s.len(),
            acc == digits_value(t.subrange(0, pre.len() + i)),
            acc <= max <= u32::MAX,
            is_digits(t.subrange(0, pre.len() + i)),
        decreases s.len() - i,
    {
        let c = s[i];
        let ghost k = pre.len() + i;
        assert(c == t[k]);
        assert(t.subrange(0, k + 1).drop_last() =~= t.subrange(0, k));
        if c < 48 || c > 57 {
            return None;
        }
        acc = acc * 10 + (c - 48) as u64;
        i = i + 1;
        assert(is_digits(t.subrange(0, k + 1)));
        if acc > max {
            proof {
                if is_digits(t) {
                    lemma_digits_prefix(t, k + 1);
                }
            }
            return None;
        }
    }
    assert(t.subrange(0, pre.len() + i) =~= t);
    Some(acc)
}

/// The value of the digits of `a` followed by those of `b`, when they are all
/// digits, not all empty, and the value is at most `max`.
fn parse_digits(a: &[u8], b: &[u8], max: u64) -> (r: Option<u64>)
    requires
        max <= u32::MAX,
    ensures
        r.is_some() == decimal_ok(a@ + b@, max as nat),
        r matches Some(v) ==> v == digits_value(a@ + b@),
{
    if a.len() == 0 && b.len() == 0 {
        return None;
    }
    assert(Seq::<u8>::empty() + a@ =~= a@);
    let v = match push_digits(0, Ghost(Seq::empty()), a, max) {
        Some(v) => v,
        None => {
            proof {
                if is_digits(a@ + b@) {
                    assert(a@ =~= (a@ + b@).subrange(0, a@.len() as int));
                    lemma_digits_prefix(a@ + b@, a@.len() as int);
                }
            }
            return None;
        },
    };
    push_digits(v, Ghost(a@), b, max)
}

/// The index of the first `.` at or after `i`, or the length when there is none.
pub open spec fn dot_index(s: Seq<u8>, i: int) -> int
    decreases s.len() - i,
{
    if i >= s.len() {
        s.len() as int
    } else if s[i] == 46 {
        i
    } else {
        dot_index(s, i + 1)
    }
}

proof fn lemma_dot_index(s: Seq<u8>, i: int)
    requires
        0 <= i <= s.len(),
    ensures
        i <= dot_index(s, i) <= s.len(),
        dot_index(s, i) < s.len() ==> s[dot_index(s, i)] == 46,
        forall|j: int| i <= j < dot_index(s, i) ==> s[j] != 46,
    decreases s.len() - i,
{
    if i < s.len() && s[i] != 46 {
        lemma_dot_index(s, i + 1);
    }
}

/// Splits `[-]int[.dec]` into the digits before the point, those after it, and whether
/// a leading `-` was there.
fn split_decimal(s: &[u8]) -> (r: (Vec<u8>, Vec<u8>, bool))
    ensures
        ({
            let neg = s@.len() > 0 && s@[0] == 45;
            let body = if neg { s@.subrange(1, s@.len() as int) } else { s@ };
            let k = dot_index(body, 0);
            &&& r.2 == neg
            &&& r.0@ == body.subrange(0, k)
            &&& r.1@ == (if k < body.len() { body.subrange(k + 1, body.len() as int) } else { Seq::<u8>::empty() })
        }),
{
    let neg = s.len() > 0 && s[0] == 45;
    let start: usize = if neg { 1 } else { 0 };
    let ghost body = if neg { s@.subrange(1, s@.len() as int) } else { s@ };
    proof {
        lemma_dot_index(body, 0);
    }
    let mut a: Vec<u8> = Vec::new();
    let mut i: usize = start;
    while i < s.len() && s[i] != 46
        invariant
            start <= i <= s@.len(),
            body == s@.subrange(start as int, s@.len() as int),
            a@ == s@.subrange(start as int, i as int),
            forall|j: int| start <= j < i ==> s@[j] != 46,
        decreases s@.len() - i,
    {
        a.push(s[i]);
        i = i + 1;
        assert(a@ =~= s@.subrange(start as int, i as int));
    }
    let ghost k = (i - start) as int;
    proof {
        assert forall|j: int| 0 <= j < k implies body[j] != 46 by {
            assert(body[j] == s@[j + start]);
        }
        if i < s@.len() {
            assert(body[k] == 46);
        }
        lemma_dot_index_at(body, k);
    }
    let mut b: Vec<u8> = Vec::new();
    if i < s.len() {
        let mut j: usize = i + 1;
        while j < s.len()
            invariant
                i < j <= s@.len(),
                b@ == s@.subrange(i + 1, j as int),
            decreases s@.len() - j,
        {
            b.push(s[j]);
            j = j + 1;
            assert(b@ =~= s@.subrange(i + 1, j as int));
        }
        assert(b@ =~= body.subrange(k + 1, body.len() as int));
    }
    assert(a@ =~= body.subrange(0, k));
    (a, b, neg)
}

/// When no `.` comes before `k` and one is at `k` (or `k` is the end), that is the first.
proof fn lemma_dot_index_at(s: Seq<u8>, k: int)
    requires
        0 <= k <= s.len(),
        forall|j: int| 0 <= j < k ==> s[j] != 46,
        k < s.len() ==> s[k] == 46,
    ensures
        dot_index(s, 0) == k,
{
    lemma_dot_index_from(s, 0, k);
}

proof fn lemma_dot_index_from(s: Seq<u8>, i: int, k: int)
    requires
        0 <= i <= k <= s.len(),
        forall|j: int| i <= j < k ==> s[j] != 46,
        k < s.len() ==> s[k] == 46,
    ensures
        dot_index(s, i) == k,
    decreases k - i,
{
    if i < k {
        lemma_dot_index_from(s, i + 1, k);
    }
}

/// The decimal digit `d` as a character.
pub open spec fn digit_char(d: nat) -> char {
    seq!['0', '1', '2', '3', '4', '5', '6', '7', '8', '9'][d as int]
}

/// The decimal digits of `n`, with no leading zeros.
pub open spec fn nat_text(n: nat) -> Seq<char>
    decreases n,
{
    if n < 10 {
        seq![digit_char(n)]
    } else {
        nat_text(n / 10).push(digit_char(n % 10))
    }
}

/// The decimal text of `n`, with a leading `-` when it is negative.
pub open spec fn int_text(n: int) -> Seq<char> {
    if n < 0 {
        seq!['-'] + nat_text((-n) as nat)
    } else {
        nat_text(n as nat)
    }
}

/// The decimal digit `d` as text.
fn digit_str(d: u64) -> (r: &'static str)
    requires
        d < 10,
    ensures
        r@ == seq![digit_char(d as nat)],
{
    if d == 0 {
        proof { reveal_strlit("0"); }
        "0"
    } else if d == 1 {
        proof { reveal_strlit("1"); }
        "1"
    } else if d == 2 {
        proof { reveal_strlit("2"); }
        "2"
    } else if d == 3 {
        proof { reveal_strlit("3"); }
        "3"
    } else if d == 4 {
        proof { reveal_strlit("4"); }
        "4"
    } else if d == 5 {
        proof { reveal_strlit("5"); }
        "5"
    } else if d == 6 {
        proof { reveal_strlit("6"); }
        "6"
    } else if d == 7 {
        proof { reveal_strlit("7"); }
        "7"
    } else if d == 8 {
        proof { reveal_strlit("8"); }
        "8"
    } else {
        proof { reveal_strlit("9"); }
        "9"
    }
}

/// Appends the decimal digits of `v` to `s`.
fn push_nat(s: &mut String, v: u64)
    ensures
        final(s)@ == old(s)@ + nat_text(v as nat),
    decreases v,
{
    if v >= 10 {
        push_nat(s, v / 10);
    }
    let ghost mid = s@;
    s.append(digit_str(v % 10));
    proof {
        if v >= 10 {
            assert(s@ =~= old(s)@ + nat_text((v / 10) as nat).push(digit_char((v % 10) as nat)));
        } else {
            assert(s@ =~= old(s)@ + seq![digit_char(v as nat)]);
        }
    }
}

/// The fraction `n/d` as text: the numerator with its sign, `/`, and the denominator.
fn ratio_text(n: i64, d: u64) -> (r: String)
    ensures
        r@ == int_text(n as int) + seq!['/'] + nat_text(d as nat),
{
    let mut s = String::new();
    if n < 0 {
        proof { reveal_strlit("-"); }
        s.append("-");
        push_nat(&mut s, (-(n as i128)) as u64);
    } else {
        push_nat(&mut s, n as u64);
    }
    proof { reveal_strlit("/"); }
    s.append("/");
    push_nat(&mut s, d);
    assert(s@ =~= int_text(n as int) + seq!['/'] + nat_text(d as nat));
    s
}

/// `n/d` in lowest terms fits an `r32`.
pub open spec fn fits32(n: int, d: int) -> bool {
    &&& d != 0
    &&& i16::MIN <= reduced_num(n, d) <= i16::MAX
    &&& reduced_den(n, d) <= u16::MAX
}

///Rational number with a 16-bit signed numerator and a 16-bit unsigned denominator.
#[allow(non_camel_case_types)]
#[derive(Clone, Copy, Debug, PartialEq, Eq, Structural, Hash)]
pub struct r32 {
    /// Numerator, carrying the sign.
    pub n: i16,
    /// Denominator, always positive.
    pub d: u16,
}

impl r32 {
    /// Lowest terms: a positive denominator coprime to the numerator.
    pub open spec fn wf(self) -> bool {
        &&& self.d > 0
        &&& spec_gcd(abs(self.n as int), self.d as nat) == 1
    }

    /// The numerator.
    pub open spec fn num(self) -> int {
        self.n as int
    }

    /// The denominator.
    pub open spec fn den(self) -> int {
        self.d as int
    }

    /// This is `n/d` in lowest terms.
    pub open spec fn is_of(self, n: int, d: int) -> bool {
        self.n == reduced_num(n, d) && self.d == reduced_den(n, d)
    }

    /// `n/d` in lowest terms, as an `r32` (meaningful where it fits).
    pub open spec fn of(n: int, d: int) -> r32 {
        r32 { n: reduced_num(n, d) as i16, d: reduced_den(n, d) as u16 }
    }

    /// The exact sum.
    pub open spec fn spec_add(self, o: r32) -> r32 {
        r32::of(self.n * o.d + o.n * self.d, self.d * o.d)
    }

    /// The exact difference.
    pub open spec fn spec_sub(self, o: r32) -> r32 {
        r32::of(self.n * o.d - o.n * self.d, self.d * o.d)
    }

    /// The exact product.
    pub open spec fn spec_mul(self, o: r32) -> r32 {
        r32::of(self.n * o.n, self.d * o.d)
    }

    /// The exact quotient.
    pub open spec fn spec_div(self, o: r32) -> r32 {
        r32::of(self.n * o.d, self.d * o.n)
    }

    /// The sum fits.
    pub open spec fn add_fits(self, o: r32) -> bool {
        self.wf() && o.wf() && fits32(self.n * o.d + o.n * self.d, self.d * o.d)
    }

    /// The difference fits.
    pub open spec fn sub_fits(self, o: r32) -> bool {
        self.wf() && o.wf() && fits32(self.n * o.d - o.n * self.d, self.d * o.d)
    }

    /// The product fits.
    pub open spec fn mul_fits(self, o: r32) -> bool {
        self.wf() && o.wf() && fits32(self.n * o.n, self.d * o.d)
    }

    /// The divisor is not zero and the quotient fits.
    pub open spec fn div_fits(self, o: r32) -> bool {
        self.wf() && o.wf() && o.n != 0 && fits32(self.n * o.d, self.d * o.n)
    }

    /// `n/d` in lowest terms, when it fits.
    fn from_wide(n: i64, d: i64) -> (r: Option<r32>)
        requires
            d != 0,
            n > i64::MIN,
            d > i64::MIN,
        ensures
            r.is_some() == fits32(n as int, d as int),
            r matches Some(q) ==> q.wf() && q.is_of(n as int, d as int),
    {
        let an: u64 = if n < 0 { (-n) as u64 } else { n as u64 };
        let ad: u64 = if d < 0 { (-d) as u64 } else { d as u64 };
        proof {
            lemma_gcd_reduced(an as nat, ad as nat);
            lemma_reduced_coprime(n as int, d as int);
        }
        let g = gcd64(an, ad);
        let qn = an / g;
        let qd = ad / g;
        if qn > i16::MAX as u64 + 1 || qd > u16::MAX as u64 {
            return None;
        }
        let w: i64 = if (n < 0) != (d < 0) { -(qn as i64) } else { qn as i64 };
        if w > i16::MAX as i64 {
            return None;
        }
        Some(r32 { n: w as i16, d: qd as u16 })
    }

    ///Returns the numerator (top half of the fraction) of the r32.
    pub fn numerator(&self) -> (r: i16)
        ensures
            r == self.n,
    {
        self.n
    }

    ///Returns the denominator (bottom half of the fraction) of the r32.
    pub fn denominator(&self) -> (r: u16)
        ensures
            r == self.d,
    {
        self.d
    }

    ///Returns the signum of the numerator
    pub fn signum(&self) -> (r: i16)
        ensures
            r == (if self.n > 0 { 1int } else if self.n < 0 { -1int } else { 0int }),
    {
        if self.n > 0 {
            1
        } else if self.n < 0 {
            -1
        } else {
            0
        }
    }

    ///Checks if positive
    pub fn is_positive(&self) -> (r: bool)
        ensures
            r == (self.n > 0),
    {
        self.n > 0
    }

    ///Returns a new r32 from a numerator and denominator already in lowest terms.
    pub fn new_raw(n: i16, d: u16) -> (r: r32)
        requires
            (r32 { n, d }).wf(),
        ensures
            r.n == n,
            r.d == d,
            r.wf(),
    {
        r32 { n, d }
    }

    ///Returns `numerator/denominator` in lowest terms; the denominator must not be zero
    ///and the result must fit.
    pub fn new_unchecked(numerator: i16, denominator: i16) -> (r: r32)
        requires
            fits32(numerator as int, denominator as int),
        ensures
            r.wf(),
            r.is_of(numerator as int, denominator as int),
    {
        Self::from_wide(numerator as i64, denominator as i64).unwrap()
    }

    ///Returns `numerator/denominator` in lowest terms, or the reason it cannot be made.
    pub fn new(numerator: i16, denominator: i16) -> (r: Result<r32, Error>)
        ensures
            denominator == 0 ==> r == Err::<r32, Error>(Error::DivideByZero),
            denominator != 0 && !fits32(numerator as int, denominator as int) ==> r == Err::<
                r32,
                Error,
            >(Error::Overflow),
            fits32(numerator as int, denominator as int) ==> (r matches Ok(q) && q.wf() && q.is_of(
                numerator as int,
                denominator as int,
            )),
    {
        if denominator == 0 {
            return Err(Error::DivideByZero);
        }
        match Self::from_wide(numerator as i64, denominator as i64) {
            Some(q) => Ok(q),
            None => Err(Error::Overflow),
        }
    }

    /// The sum, when it fits.
    pub fn checked_add(self, other: r32) -> (r: Option<r32>)
        requires
            self.wf(),
            other.wf(),
        ensures
            r.is_some() == fits32(self.n * other.d + other.n * self.d, self.d * other.d),
            r matches Some(q) ==> q.wf() && q.is_of(
                self.n * other.d + other.n * self.d,
                self.d * other.d,
            ) && q == self.spec_add(other),
    {
        let (d1, d2) = (self.d, other.d);
        proof {
            lemma_gcd_reduced(d1 as nat, d2 as nat);
        }
        let ghost k = spec_gcd(d1 as nat, d2 as nat) as int;
        let ghost p = d1 as int / k;
        let ghost q = d2 as int / k;
        assert(d1 * d2 == k * (k * p * q)) by (nonlinear_arith)
            requires d1 == k * p, d2 == k * q;
        assert(d1 as int * d2 as int <= u32::MAX) by (nonlinear_arith)
            requires d1 <= u16::MAX, d2 <= u16::MAX;
        let l = lcm32(d1 as u32, d2 as u32);
        assert(l == k * p * q) by {
            lemma_div_multiples_vanish(k * p * q, k);
        }
        assert(l as int / d1 as int == q && l as int / d2 as int == p) by {
            assert(l == (k * p) * q) by (nonlinear_arith)
                requires l == k * p * q;
            assert(l == (k * q) * p) by (nonlinear_arith)
                requires l == k * p * q;
            assert(k * p > 0 && k * q > 0) by (nonlinear_arith)
                requires k * p == d1, k * q == d2, d1 > 0, d2 > 0;
            lemma_div_multiples_vanish(q, k * p);
            lemma_div_multiples_vanish(p, k * q);
        }
        assert(0 < q <= d2 && 0 < p <= d1) by (nonlinear_arith)
            requires d1 == k * p, d2 == k * q, k > 0, d1 > 0, d2 > 0;
        assert(0 < l <= u32::MAX);
        assert(i32::MIN < self.n * q < i32::MAX && i32::MIN < other.n * p < i32::MAX)
            by (nonlinear_arith)
            requires
                i16::MIN <= self.n <= i16::MAX,
                i16::MIN <= other.n <= i16::MAX,
                0 < q <= u16::MAX,
                0 < p <= u16::MAX;
        let a = self.n as i64 * (l / d1 as u32) as i64;
        let b = other.n as i64 * (l / d2 as u32) as i64;
        proof {
            assert(self.n * other.d + other.n * self.d == k * (a + b)) by (nonlinear_arith)
                requires a == self.n * q, b == other.n * p, d1 == k * p, d2 == k * q,
                    d1 == self.d, d2 == other.d;
            assert(self.d * other.d == k * l) by (nonlinear_arith)
                requires d1 * d2 == k * (k * p * q), l == k * p * q, d1 == self.d, d2 == other.d;
            lemma_reduced_scale(k, a + b, l as int);
        }
        Self::from_wide(a + b, l as i64)
    }

    /// The product, when it fits.
    pub fn checked_mul(self, other: r32) -> (r: Option<r32>)
        requires
            self.wf(),
            other.wf(),
        ensures
            r.is_some() == fits32(self.n * other.n, self.d * other.d),
            r matches Some(q) ==> q.wf() && q == self.spec_mul(other),
    {
        assert(self.d * other.d > 0) by (nonlinear_arith)
            requires self.d > 0, other.d > 0;
        assert(i32::MIN < self.n * other.n < i32::MAX) by (nonlinear_arith)
            requires
                i16::MIN <= self.n <= i16::MAX,
                i16::MIN <= other.n <= i16::MAX;
        assert(self.d * other.d <= u32::MAX) by (nonlinear_arith)
            requires self.d <= u16::MAX, other.d <= u16::MAX;
        Self::from_wide(self.n as i64 * other.n as i64, self.d as i64 * other.d as i64)
    }
}


impl r32 {
    /// The difference, when it fits.
    pub fn checked_sub(self, other: r32) -> (r: Option<r32>)
        requires
            self.wf(),
            other.wf(),
        ensures
            r.is_some() == fits32(self.n * other.d - other.n * self.d, self.d * other.d),
            r matches Some(q) ==> q.wf() && q == self.spec_sub(other),
    {
        assert(i32::MIN <= self.n * other.d <= i32::MAX && i32::MIN <= other.n * self.d <= i32::MAX)
            by (nonlinear_arith)
            requires
                i16::MIN <= self.n <= i16::MAX,
                i16::MIN <= other.n <= i16::MAX,
                0 <= self.d <= u16::MAX,
                0 <= other.d <= u16::MAX;
        assert(self.d * other.d <= u32::MAX && self.d * other.d > 0) by (nonlinear_arith)
            requires 0 < self.d <= u16::MAX, 0 < other.d <= u16::MAX;
        Self::from_wide(
            self.n as i64 * other.d as i64 - other.n as i64 * self.d as i64,
            self.d as i64 * other.d as i64,
        )
    }

    /// The quotient, when the divisor is not zero and the quotient fits.
    pub fn checked_div(self, other: r32) -> (r: Option<r32>)
        requires
            self.wf(),
            other.wf(),
        ensures
            r.is_some() == (other.n != 0 && fits32(self.n * other.d, self.d * other.n)),
            r matches Some(q) ==> q.wf() && q == self.spec_div(other),
    {
        if other.n == 0 {
            return None;
        }
        assert(i32::MIN < self.n * other.d < i32::MAX && i32::MIN < self.d * other.n < i32::MAX)
            by (nonlinear_arith)
            requires
                i16::MIN <= self.n <= i16::MAX,
                i16::MIN <= other.n <= i16::MAX,
                0 <= self.d <= u16::MAX,
                0 <= other.d <= u16::MAX;
        assert(self.d * other.n != 0) by (nonlinear_arith)
            requires self.d > 0, other.n != 0;
        Self::from_wide(self.n as i64 * other.d as i64, self.d as i64 * other.n as i64)
    }

    /// The negation; the smallest numerator has none.
    pub fn neg(self) -> (r: r32)
        requires
            self.wf(),
            self.n > i16::MIN,
        ensures
            r.wf(),
            r.n == -self.n,
            r.d == self.d,
    {
        assert(abs(-self.n) == abs(self.n as int));
        r32 { n: -self.n, d: self.d }
    }

    ///Returns `1/self`, or `DivideByZero` for zero and `Overflow` when it does not fit.
    pub fn reciprocal(&self) -> (r: Result<r32, Error>)
        requires
            self.wf(),
        ensures
            self.n == 0 ==> r == Err::<r32, Error>(Error::DivideByZero),
            self.n != 0 && !fits32(self.d as int, self.n as int) ==> r == Err::<r32, Error>(
                Error::Overflow,
            ),
            self.n != 0 && fits32(self.d as int, self.n as int) ==> (r matches Ok(q) && q.wf()
                && q == r32::of(self.d as int, self.n as int)),
    {
        if self.n == 0 {
            return Err(Error::DivideByZero);
        }
        match Self::from_wide(self.d as i64, self.n as i64) {
            Some(q) => Ok(q),
            None => Err(Error::Overflow),
        }
    }
}


impl r32 {
    /// `k * self`, exact.
    pub open spec fn spec_mul_int(self, k: int) -> r32 {
        r32::of(self.n * k, self.d as int)
    }

    /// `self / k`, exact.
    pub open spec fn spec_div_int(self, k: int) -> r32 {
        r32::of(self.n as int, self.d * k)
    }

    /// `k / self`, exact.
    pub open spec fn spec_int_div(self, k: int) -> r32 {
        r32::of(k * self.d, self.n as int)
    }

    /// `k * self` fits.
    pub open spec fn mul_int_fits(self, k: int) -> bool {
        self.wf() && fits32(self.n * k, self.d as int)
    }

    /// `k` is not zero and `self / k` fits.
    pub open spec fn div_int_fits(self, k: int) -> bool {
        self.wf() && k != 0 && fits32(self.n as int, self.d * k)
    }

    /// `self` is not zero and `k / self` fits.
    pub open spec fn int_div_fits(self, k: int) -> bool {
        self.wf() && self.n != 0 && fits32(k * self.d, self.n as int)
    }

    /// `self * k`, when it fits.
    pub fn checked_mul_int(self, k: i64) -> (r: Option<r32>)
        requires
            self.wf(),
            i32::MIN <= k <= u32::MAX,
        ensures
            r.is_some() == fits32(self.n * k, self.d as int),
            r matches Some(q) ==> q.wf() && q == self.spec_mul_int(k as int),
    {
        assert(i64::MIN < self.n * k < i64::MAX) by (nonlinear_arith)
            requires
                i16::MIN <= self.n <= i16::MAX,
                i32::MIN <= k <= u32::MAX;
        Self::from_wide(self.n as i64 * k, self.d as i64)
    }

    /// `self / k`, when `k` is not zero and the quotient fits.
    pub fn checked_div_int(self, k: i64) -> (r: Option<r32>)
        requires
            self.wf(),
            i32::MIN <= k <= u32::MAX,
        ensures
            r.is_some() == (k != 0 && fits32(self.n as int, self.d * k)),
            r matches Some(q) ==> q.wf() && q == self.spec_div_int(k as int),
    {
        if k == 0 {
            return None;
        }
        assert(i64::MIN < self.d * k < i64::MAX) by (nonlinear_arith)
            requires
                0 < self.d <= u16::MAX,
                i32::MIN <= k <= u32::MAX;
        assert(self.d * k != 0) by (nonlinear_arith)
            requires self.d > 0, k != 0;
        Self::from_wide(self.n as i64, self.d as i64 * k)
    }

    /// `k / self`, when `self` is not zero and the quotient fits.
    pub fn checked_int_div(self, k: i64) -> (r: Option<r32>)
        requires
            self.wf(),
            i32::MIN <= k <= u32::MAX,
        ensures
            r.is_some() == (self.n != 0 && fits32(k * self.d, self.n as int)),
            r matches Some(q) ==> q.wf() && q == self.spec_int_div(k as int),
    {
        if self.n == 0 {
            return None;
        }
        assert(i64::MIN < k * self.d < i64::MAX) by (nonlinear_arith)
            requires
                0 < self.d <= u16::MAX,
                i32::MIN <= k <= u32::MAX;
        Self::from_wide(k * self.d as i64, self.n as i64)
    }

    /// The absolute value, or `None` for the smallest numerator, whose absolute value
    /// does not fit.
    pub fn abs(&self) -> (r: Option<r32>)
        requires
            self.wf(),
        ensures
            r is None <==> self.n == i16::MIN,
            r matches Some(q) ==> q.wf() && q.n == abs(self.n as int) && q.d == self.d,
    {
        if self.n == i16::MIN {
            None
        } else if self.n < 0 {
            Some(self.neg())
        } else {
            Some(*self)
        }
    }

    /// The negation, or `None` for the smallest numerator, whose negation does not fit.
    pub fn checked_neg(&self) -> (r: Option<r32>)
        requires
            self.wf(),
        ensures
            r is None <==> self.n == i16::MIN,
            r matches Some(q) ==> q.wf() && q.n == -self.n && q.d == self.d,
    {
        if self.n == i16::MIN {
            None
        } else {
            Some(self.neg())
        }
    }

    /// Compares the magnitudes of the two values.
    pub fn compare_abs(&self, other: &r32) -> (r: core::cmp::Ordering)
        ensures
            r == cmp_ints(abs(self.n as int) * other.d, abs(other.n as int) * self.d),
    {
        proof {
            lemma_cross_fits32(*self, *other);
            assert(abs(self.n as int) * other.d <= i32::MAX + 1 && abs(other.n as int) * self.d
                <= i32::MAX + 1) by (nonlinear_arith)
                requires
                    abs(self.n as int) <= i16::MAX + 1,
                    abs(other.n as int) <= i16::MAX + 1,
                    self.d <= u16::MAX,
                    other.d <= u16::MAX;
        }
        let an: i64 = if self.n < 0 { -(self.n as i64) } else { self.n as i64 };
        let bn: i64 = if other.n < 0 { -(other.n as i64) } else { other.n as i64 };
        let a = an * other.d as i64;
        let b = bn * self.d as i64;
        if a < b {
            core::cmp::Ordering::Less
        } else if a > b {
            core::cmp::Ordering::Greater
        } else {
            core::cmp::Ordering::Equal
        }
    }

    /// Compares the two values: the sign of `self - other`.
    pub fn compare(&self, other: &r32) -> (r: core::cmp::Ordering)
        ensures
            r == cmp_ints(self.n * other.d, other.n * self.d),
    {
        proof {
            lemma_cross_fits32(*self, *other);
        }
        let a = self.n as i32 * other.d as i32;
        let b = other.n as i32 * self.d as i32;
        if a < b {
            core::cmp::Ordering::Less
        } else if a > b {
            core::cmp::Ordering::Greater
        } else {
            core::cmp::Ordering::Equal
        }
    }

    /// What `int_dec` gives for the digit strings `a` (before the point) and `b` (after it).
    pub open spec fn decimal_result(sign: bool, a: Seq<u8>, b: Seq<u8>) -> Result<r32, Error> {
        if !decimal_ok(a + b, i16::MAX as nat) {
            Err(Error::ParseInt)
        } else if b.len() > 4 {
            Err(Error::Overflow)
        } else {
            Ok(r32::of(signed(sign, digits_value(a + b)), pow10(b.len()) as int))
        }
    }

    /// `int_dec` on byte strings.
    fn int_dec_bytes(sign: bool, a: &[u8], b: &[u8]) -> (r: Result<r32, Error>)
        ensures
            r == r32::decimal_result(sign, a@, b@),
            r matches Ok(q) ==> q.wf(),
    {
        let v = match parse_digits(a, b, i16::MAX as u64) {
            Some(v) => v,
            None => return Err(Error::ParseInt),
        };
        if b.len() > 4 {
            return Err(Error::Overflow);
        }
        let den = pow10_exec(b.len());
        proof {
            lemma_pow10_pos(b@.len());
            lemma_pow10_mono(b@.len(), 4);
            reveal_with_fuel(pow10, 10);
        }
        let n: i64 = if sign { v as i64 } else { -(v as i64) };
        proof {
            lemma_reduced_coprime(n as int, den as int);
        }
        match Self::from_wide(n as i64, den as i64) {
            Some(q) => Ok(q),
            None => Err(Error::Overflow),
        }
    }

    ///Tries to return a new r32 from a sign (true for non-negative) and the digits before
    ///and after the decimal point.
    pub fn int_dec(sign: bool, integer: &str, dec: &str) -> (r: Result<r32, Error>)
        ensures
            r == r32::decimal_result(sign, integer.spec_bytes(), dec.spec_bytes()),
            r matches Ok(q) ==> q.wf(),
    {
        Self::int_dec_bytes(sign, integer.as_bytes(), dec.as_bytes())
    }

    /// What `parse` gives for the text `s`: an optional `-`, digits, and optionally a `.`
    /// followed by more digits.
    pub open spec fn parse_result(s: Seq<u8>) -> Result<r32, Error> {
        let neg = s.len() > 0 && s[0] == 45;
        let body = if neg { s.subrange(1, s.len() as int) } else { s };
        let k = dot_index(body, 0);
        let int_part = body.subrange(0, k);
        let dec_part = if k < body.len() { body.subrange(k + 1, body.len() as int) } else { Seq::empty() };
        r32::decimal_result(!neg, int_part, dec_part)
    }

    ///Parses `[-]digits[.digits]` into the exact fraction, with a power of ten as the
    ///denominator before reduction.
    pub fn parse(s: &str) -> (r: Result<r32, Error>)
        ensures
            r == r32::parse_result(s.spec_bytes()),
            r matches Ok(q) ==> q.wf(),
    {
        let bytes = s.as_bytes();
        let (int_part, dec_part, neg) = split_decimal(bytes);
        Self::int_dec_bytes(!neg, int_part.as_slice(), dec_part.as_slice())
    }

    ///The fraction as text: the numerator, `/`, and the denominator, as in `-3/10`.
    pub fn to_string(&self) -> (r: String)
        ensures
            r@ == int_text(self.n as int) + seq!['/'] + nat_text(self.d as nat),
    {
        ratio_text(self.n as i64, self.d as u64)
    }
}

impl core::str::FromStr for r32 {
    type Err = Error;

    fn from_str(s: &str) -> Result<r32, Error> {
        r32::parse(s)
    }
}

/// Cross products of two `r32` terms fit an `i32`.
proof fn lemma_cross_fits32(a: r32, b: r32)
    ensures
        i32::MIN <= a.n * b.d <= i32::MAX,
        i32::MIN <= b.n * a.d <= i32::MAX,
{
    assert(i32::MIN <= a.n * b.d <= i32::MAX && i32::MIN <= b.n * a.d <= i32::MAX)
        by (nonlinear_arith)
        requires
            i16::MIN <= a.n <= i16::MAX,
            i16::MIN <= b.n <= i16::MAX,
            0 <= a.d <= u16::MAX,
            0 <= b.d <= u16::MAX;
}

impl core::default::Default for r32 {
    fn default() -> (r: r32)
        ensures
            r.wf() && r.n == 0 && r.d == 1,
    {
        proof {
            lemma_gcd_zero(1);
        }
        r32 { n: 0, d: 1 }
    }
}

impl crate::num::Identity for r32 {
    open spec fn spec_identity() -> r32 {
        r32 { n: 1, d: 1 }
    }

    fn identity() -> (r: r32) {
        proof {
            lemma_gcd_self(1);
        }
        r32 { n: 1, d: 1 }
    }
}

impl crate::num::Absolute for r32 {
    type Output = r32;

    fn absolute(&self) -> (r: r32)
        ensures
            self.wf() && self.n > i16::MIN ==> r.wf() && r.n == abs(self.n as int) && r.d == self.d,
    {
        if self.n < 0 && self.n > i16::MIN {
            r32 { n: -self.n, d: self.d }
        } else {
            *self
        }
    }
}

impl vstd::std_specs::cmp::PartialOrdSpecImpl for r32 {
    open spec fn obeys_partial_cmp_spec() -> bool {
        true
    }

    open spec fn partial_cmp_spec(&self, other: &r32) -> Option<core::cmp::Ordering> {
        Some(cmp_ints(self.n * other.d, other.n * self.d))
    }
}

impl core::cmp::PartialOrd for r32 {
    fn partial_cmp(&self, other: &r32) -> (r: Option<core::cmp::Ordering>) {
        proof {
            lemma_cross_fits32(*self, *other);
        }
        let a = self.n as i32 * other.d as i32;
        let b = other.n as i32 * self.d as i32;
        if a < b {
            Some(core::cmp::Ordering::Less)
        } else if a > b {
            Some(core::cmp::Ordering::Greater)
        } else {
            Some(core::cmp::Ordering::Equal)
        }
    }
}

impl r32 {
    /// The exact negation.
    pub open spec fn spec_neg(self) -> r32 {
        r32 { n: (-self.n) as i16, d: self.d }
    }

    /// Every fraction that fits has a canonical form: a positive denominator
    /// coprime to the numerator.
    pub proof fn lemma_of_canonical(n: int, d: int)
        requires
            fits32(n, d),
        ensures
            r32::of(n, d).wf(),
            r32::of(n, d).is_of(n, d),
    {
        lemma_reduced_coprime(n, d);
    }

    /// Addition is commutative.
    pub proof fn lemma_add_commutative(a: r32, b: r32)
        ensures
            a.spec_add(b) == b.spec_add(a),
    {
        assert(a.n * b.d + b.n * a.d == b.n * a.d + a.n * b.d && a.d * b.d == b.d * a.d)
            by (nonlinear_arith);
    }

    /// Multiplication is commutative.
    pub proof fn lemma_mul_commutative(a: r32, b: r32)
        ensures
            a.spec_mul(b) == b.spec_mul(a),
    {
        assert(a.n * b.n == b.n * a.n && a.d * b.d == b.d * a.d) by (nonlinear_arith);
    }

    /// A value plus its negation is zero.
    pub proof fn lemma_add_neg(a: r32)
        requires
            a.wf(),
            a.n > i16::MIN,
        ensures
            a.spec_add(a.spec_neg()) == (r32 { n: 0, d: 1 }),
    {
        assert(a.n * a.d + (-a.n) * a.d == 0) by (nonlinear_arith);
        assert(a.d * a.d != 0) by (nonlinear_arith)
            requires a.d > 0;
        lemma_reduced_coprime(0, a.d * a.d);
    }

    /// A non-zero value times its reciprocal is one.
    pub proof fn lemma_mul_reciprocal(a: r32)
        requires
            a.wf(),
            a.n != 0,
            fits32(a.d as int, a.n as int),
        ensures
            a.spec_mul(r32::of(a.d as int, a.n as int)) == (r32 { n: 1, d: 1 }),
    {
        lemma_gcd_comm(abs(a.n as int), a.d as nat);
        let an = abs(a.n as int) as int;
        assert(an / 1 == an && (a.d as int) / 1 == a.d) by {
            lemma_div_basics(an);
            lemma_div_basics(a.d as int);
        }
        let rn = reduced_num(a.d as int, a.n as int);
        let rd = reduced_den(a.d as int, a.n as int);
        assert(abs(a.d as int) == a.d as nat);
        assert(spec_gcd(abs(a.d as int), abs(a.n as int)) == 1);
        assert(rd == (abs(a.n as int) / 1) as int);
        assert(rd == an);
        assert((abs(a.d as int) / 1) as int == a.d);
        assert(rn == (if a.n < 0 { -(a.d as int) } else { a.d as int }));
        assert(a.n * rn == an * a.d) by (nonlinear_arith)
            requires
                a.n != 0,
                a.n < 0 ==> rn == -a.d && an == -a.n,
                a.n > 0 ==> rn == a.d && an == a.n;
        assert(an * a.d > 0) by (nonlinear_arith)
            requires an > 0, a.d > 0;
        assert(a.d * rd == an * a.d) by (nonlinear_arith)
            requires rd == an;
        lemma_gcd_self((an * a.d) as nat);
        lemma_div_basics(an * a.d);
    }
}

impl r32 {
    /// A canonical value is its own lowest terms.
    pub proof fn lemma_of_self(a: r32)
        requires
            a.wf(),
        ensures
            r32::of(a.n as int, a.d as int) == a,
            a.spec_mul_int(1) == a,
    {
        assert(abs(a.d as int) == a.d as nat);
        assert(reduced_den(a.n as int, a.d as int) == (a.d as nat / 1) as int);
        assert(reduced_num(a.n as int, a.d as int) == (if a.n < 0 { -((abs(a.n as int) / 1) as int) } else { (abs(a.n as int) / 1) as int }));
        assert(a.n * 1 == a.n);
    }
}

impl r32 {
    /// A canonical value is the lowest terms of every fraction of the same value.
    pub proof fn lemma_eq_by_value(x: r32, n: int, d: int)
        requires
            x.wf(),
            d != 0,
            x.n * d == n * x.d,
        ensures
            fits32(n, d),
            r32::of(n, d) == x,
    {
        lemma_reduced_coprime(n, d);
        lemma_reduced_value(n, d);
        let rn = reduced_num(n, d);
        let rd = reduced_den(n, d);
        assert(rn * x.d == x.n * rd) by (nonlinear_arith)
            requires x.n * d == n * x.d, rn * d == n * rd, d != 0;
        lemma_canonical_unique(rn, rd, x.n as int, x.d as int);
    }

    /// Adding what `a - s` leaves gives `a` back.
    pub proof fn lemma_add_sub_cancel(s: r32, a: r32)
        requires
            s.wf(),
            a.wf(),
            a.sub_fits(s),
        ensures
            a.spec_sub(s).wf(),
            s.add_fits(a.spec_sub(s)),
            s.spec_add(a.spec_sub(s)) == a,
    {
        let t = a.spec_sub(s);
        r32::lemma_of_canonical(a.n * s.d - s.n * a.d, a.d * s.d);
        assert(a.d * s.d != 0) by (nonlinear_arith)
            requires a.d > 0, s.d > 0;
        lemma_reduced_value(a.n * s.d - s.n * a.d, a.d * s.d);
        assert(t.n * (a.d * s.d) == (a.n * s.d - s.n * a.d) * t.d);
        let x = s.n * t.d + t.n * s.d;
        let y = s.d * t.d;
        assert(x * a.d * s.d == a.n * y * s.d) by (nonlinear_arith)
            requires t.n * (a.d * s.d) == (a.n * s.d - s.n * a.d) * t.d, x == s.n * t.d + t.n * s.d, y
                == s.d * t.d;
        assert(x * a.d == a.n * y) by (nonlinear_arith)
            requires x * a.d * s.d == a.n * y * s.d, s.d > 0;
        assert(y != 0) by (nonlinear_arith)
            requires y == s.d * t.d, s.d > 0, t.d > 0;
        r32::lemma_eq_by_value(a, x, y);
    }

    /// Multiplying `x / p` by `p` gives `x` back.
    pub proof fn lemma_div_mul_cancel(x: r32, p: r32)
        requires
            x.wf(),
            p.wf(),
            x.div_fits(p),
        ensures
            x.spec_div(p).wf(),
            x.spec_div(p).mul_fits(p),
            x.spec_div(p).spec_mul(p) == x,
    {
        let q = x.spec_div(p);
        assert(x.d * p.n != 0) by (nonlinear_arith)
            requires x.d > 0, p.n != 0;
        r32::lemma_of_canonical(x.n * p.d, x.d * p.n);
        lemma_reduced_value(x.n * p.d, x.d * p.n);
        assert(q.n * (x.d * p.n) == (x.n * p.d) * q.d);
        assert(q.n * p.n * x.d == x.n * (q.d * p.d)) by (nonlinear_arith)
            requires q.n * (x.d * p.n) == (x.n * p.d) * q.d;
        assert(q.d * p.d != 0) by (nonlinear_arith)
            requires q.d > 0, p.d > 0;
        r32::lemma_eq_by_value(x, q.n * p.n, q.d * p.d);
    }

    /// Zero times anything, and anything times zero, is zero; one times `x` is `x`; and
    /// `x` plus zero, or zero plus `x`, is `x`.
    pub proof fn lemma_identities(x: r32)
        requires
            x.wf(),
        ensures
            (r32 { n: 0, d: 1 }).mul_fits(x),
            (r32 { n: 0, d: 1 }).spec_mul(x) == (r32 { n: 0, d: 1 }),
            x.mul_fits(r32 { n: 0, d: 1 }),
            x.spec_mul(r32 { n: 0, d: 1 }) == (r32 { n: 0, d: 1 }),
            (r32 { n: 1, d: 1 }).mul_fits(x),
            (r32 { n: 1, d: 1 }).spec_mul(x) == x,
            x.add_fits(r32 { n: 0, d: 1 }),
            x.spec_add(r32 { n: 0, d: 1 }) == x,
            (r32 { n: 0, d: 1 }).add_fits(x),
            (r32 { n: 0, d: 1 }).spec_add(x) == x,
    {
        let z = r32 { n: 0, d: 1 };
        let o = r32 { n: 1, d: 1 };
        lemma_gcd_zero(1);
        lemma_gcd_self(1);
        assert(z.wf() && o.wf());
        r32::lemma_eq_by_value(z, 0 * x.n, 1 * x.d);
        r32::lemma_eq_by_value(z, x.n * 0, x.d * 1);
        r32::lemma_eq_by_value(x, 1 * x.n, 1 * x.d);
        r32::lemma_eq_by_value(x, x.n * 1 + 0 * x.d, x.d * 1);
        r32::lemma_eq_by_value(x, 0 * x.d + x.n * 1, 1 * x.d);
    }
}

impl vstd::std_specs::ops::AddSpecImpl<r32> for r32 {
    open spec fn obeys_add_spec() -> bool {
        true
    }

    open spec fn add_req(self, rhs: r32) -> bool {
        self.add_fits(rhs)
    }

    open spec fn add_spec(self, rhs: r32) -> r32 {
        self.spec_add(rhs)
    }
}

impl core::ops::Add<r32> for r32 {
    type Output = r32;

    fn add(self, rhs: r32) -> (r: r32) {
        self.checked_add(rhs).unwrap()
    }
}

impl vstd::std_specs::ops::AddSpecImpl<&r32> for r32 {
    open spec fn obeys_add_spec() -> bool {
        true
    }

    open spec fn add_req(self, rhs: &r32) -> bool {
        self.add_fits((*rhs))
    }

    open spec fn add_spec(self, rhs: &r32) -> r32 {
        self.spec_add((*rhs))
    }
}

impl core::ops::Add<&r32> for r32 {
    type Output = r32;

    fn add(self, rhs: &r32) -> (r: r32) {
        self.checked_add((*rhs)).unwrap()
    }
}

impl vstd::std_specs::ops::AddSpecImpl<r32> for &r32 {
    open spec fn obeys_add_spec() -> bool {
        true
    }

    open spec fn add_req(self, rhs: r32) -> bool {
        (*self).add_fits(rhs)
    }

    open spec fn add_spec(self, rhs: r32) -> r32 {
        (*self).spec_add(rhs)
    }
}

impl core::ops::Add<r32> for &r32 {
    type Output = r32;

    fn add(self, rhs: r32) -> (r: r32) {
        (*self).checked_add(rhs).unwrap()
    }
}

impl vstd::std_specs::ops::AddSpecImpl<&r32> for &r32 {
    open spec fn obeys_add_spec() -> bool {
        true
    }

    open spec fn add_req(self, rhs: &r32) -> bool {
        (*self).add_fits((*rhs))
    }

    open spec fn add_spec(self, rhs: &r32) -> r32 {
        (*self).spec_add((*rhs))
    }
}

impl core::ops::Add<&r32> for &r32 {
    type Output = r32;

    fn add(self, rhs: &r32) -> (r: r32) {
        (*self).checked_add((*rhs)).unwrap()
    }
}

impl core::ops::AddAssign<r32> for r32 {
    fn add_assign(&mut self, rhs: r32)
        requires
            old(self).add_fits(rhs),
        ensures
            *final(self) == old(self).spec_add(rhs),
    {
        let v = self.checked_add(rhs).unwrap();
        *self = v;
    }
}

impl core::ops::AddAssign<&r32> for r32 {
    fn add_assign(&mut self, rhs: &r32)
        requires
            old(self).add_fits((*rhs)),
        ensures
            *final(self) == old(self).spec_add((*rhs)),
    {
        let v = self.checked_add((*rhs)).unwrap();
        *self = v;
    }
}

impl vstd::std_specs::ops::SubSpecImpl<r32> for r32 {
    open spec fn obeys_sub_spec() -> bool {
        true
    }

    open spec fn sub_req(self, rhs: r32) -> bool {
        self.sub_fits(rhs)
    }

    open spec fn sub_spec(self, rhs: r32) -> r32 {
        self.spec_sub(rhs)
    }
}

impl core::ops::Sub<r32> for r32 {
    type Output = r32;

    fn sub(self, rhs: r32) -> (r: r32) {
        self.checked_sub(rhs).unwrap()
    }
}

impl vstd::std_specs::ops::SubSpecImpl<&r32> for r32 {
    open spec fn obeys_sub_spec() -> bool {
        true
    }

    open spec fn sub_req(self, rhs: &r32) -> bool {
        self.sub_fits((*rhs))
    }

    open spec fn sub_spec(self, rhs: &r32) -> r32 {
        self.spec_sub((*rhs))
    }
}

impl core::ops::Sub<&r32> for r32 {
    type Output = r32;

    fn sub(self, rhs: &r32) -> (r: r32) {
        self.checked_sub((*rhs)).unwrap()
    }
}

impl vstd::std_specs::ops::SubSpecImpl<r32> for &r32 {
    open spec fn obeys_sub_spec() -> bool {
        true
    }

    open spec fn sub_req(self, rhs: r32) -> bool {
        (*self).sub_fits(rhs)
    }

    open spec fn sub_spec(self, rhs: r32) -> r32 {
        (*self).spec_sub(rhs)
    }
}

impl core::ops::Sub<r32> for &r32 {
    type Output = r32;

    fn sub(self, rhs: r32) -> (r: r32) {
        (*self).checked_sub(rhs).unwrap()
    }
}

impl vstd::std_specs::ops::SubSpecImpl<&r32> for &r32 {
    open spec fn obeys_sub_spec() -> bool {
        true
    }

    open spec fn sub_req(self, rhs: &r32) -> bool {
        (*self).sub_fits((*rhs))
    }

    open spec fn sub_spec(self, rhs: &r32) -> r32 {
        (*self).spec_sub((*rhs))
    }
}

impl core::ops::Sub<&r32> for &r32 {
    type Output = r32;

    fn sub(self, rhs: &r32) -> (r: r32) {
        (*self).checked_sub((*rhs)).unwrap()
    }
}

impl core::ops::SubAssign<r32> for r32 {
    fn sub_assign(&mut self, rhs: r32)
        requires
            old(self).sub_fits(rhs),
        ensures
            *final(self) == old(self).spec_sub(rhs),
    {
        let v = self.checked_sub(rhs).unwrap();
        *self = v;
    }
}

impl core::ops::SubAssign<&r32> for r32 {
    fn sub_assign(&mut self, rhs: &r32)
        requires
            old(self).sub_fits((*rhs)),
        ensures
            *final(self) == old(self).spec_sub((*rhs)),
    {
        let v = self.checked_sub((*rhs)).unwrap();
        *self = v;
    }
}

impl vstd::std_specs::ops::MulSpecImpl<r32> for r32 {
    open spec fn obeys_mul_spec() -> bool {
        true
    }

    open spec fn mul_req(self, rhs: r32) -> bool {
        self.mul_fits(rhs)
    }

    open spec fn mul_spec(self, rhs: r32) -> r32 {
        self.spec_mul(rhs)
    }
}

impl core::ops::Mul<r32> for r32 {
    type Output = r32;

    fn mul(self, rhs: r32) -> (r: r32) {
        self.checked_mul(rhs).unwrap()
    }
}

impl vstd::std_specs::ops::MulSpecImpl<&r32> for r32 {
    open spec fn obeys_mul_spec() -> bool {
        true
    }

    open spec fn mul_req(self, rhs: &r32) -> bool {
        self.mul_fits((*rhs))
    }

    open spec fn mul_spec(self, rhs: &r32) -> r32 {
        self.spec_mul((*rhs))
    }
}

impl core::ops::Mul<&r32> for r32 {
    type Output = r32;

    fn mul(self, rhs: &r32) -> (r: r32) {
        self.checked_mul((*rhs)).unwrap()
    }
}

impl vstd::std_specs::ops::MulSpecImpl<r32> for &r32 {
    open spec fn obeys_mul_spec() -> bool {
        true
    }

    open spec fn mul_req(self, rhs: r32) -> bool {
        (*self).mul_fits(rhs)
    }

    open spec fn mul_spec(self, rhs: r32) -> r32 {
        (*self).spec_mul(rhs)
    }
}

impl core::ops::Mul<r32> for &r32 {
    type Output = r32;

    fn mul(self, rhs: r32) -> (r: r32) {
        (*self).checked_mul(rhs).unwrap()
    }
}

impl vstd::std_specs::ops::MulSpecImpl<&r32> for &r32 {
    open spec fn obeys_mul_spec() -> bool {
        true
    }

    open spec fn mul_req(self, rhs: &r32) -> bool {
        (*self).mul_fits((*rhs))
    }

    open spec fn mul_spec(self, rhs: &r32) -> r32 {
        (*self).spec_mul((*rhs))
    }
}

impl core::ops::Mul<&r32> for &r32 {
    type Output = r32;

    fn mul(self, rhs: &r32) -> (r: r32) {
        (*self).checked_mul((*rhs)).unwrap()
    }
}

impl core::ops::MulAssign<r32> for r32 {
    fn mul_assign(&mut self, rhs: r32)
        requires
            old(self).mul_fits(rhs),
        ensures
            *final(self) == old(self).spec_mul(rhs),
    {
        let v = self.checked_mul(rhs).unwrap();
        *self = v;
    }
}

impl core::ops::MulAssign<&r32> for r32 {
    fn mul_assign(&mut self, rhs: &r32)
        requires
            old(self).mul_fits((*rhs)),
        ensures
            *final(self) == old(self).spec_mul((*rhs)),
    {
        let v = self.checked_mul((*rhs)).unwrap();
        *self = v;
    }
}

impl vstd::std_specs::ops::DivSpecImpl<r32> for r32 {
    open spec fn obeys_div_spec() -> bool {
        true
    }

    open spec fn div_req(self, rhs: r32) -> bool {
        self.div_fits(rhs)
    }

    open spec fn div_spec(self, rhs: r32) -> r32 {
        self.spec_div(rhs)
    }
}

impl core::ops::Div<r32> for r32 {
    type Output = r32;

    fn div(self, rhs: r32) -> (r: r32) {
        self.checked_div(rhs).unwrap()
    }
}

impl vstd::std_specs::ops::DivSpecImpl<&r32> for r32 {
    open spec fn obeys_div_spec() -> bool {
        true
    }

    open spec fn div_req(self, rhs: &r32) -> bool {
        self.div_fits((*rhs))
    }

    open spec fn div_spec(self, rhs: &r32) -> r32 {
        self.spec_div((*rhs))
    }
}

impl core::ops::Div<&r32> for r32 {
    type Output = r32;

    fn div(self, rhs: &r32) -> (r: r32) {
        self.checked_div((*rhs)).unwrap()
    }
}

impl vstd::std_specs::ops::DivSpecImpl<r32> for &r32 {
    open spec fn obeys_div_spec() -> bool {
        true
    }

    open spec fn div_req(self, rhs: r32) -> bool {
        (*self).div_fits(rhs)
    }

    open spec fn div_spec(self, rhs: r32) -> r32 {
        (*self).spec_div(rhs)
    }
}

impl core::ops::Div<r32> for &r32 {
    type Output = r32;

    fn div(self, rhs: r32) -> (r: r32) {
        (*self).checked_div(rhs).unwrap()
    }
}

impl vstd::std_specs::ops::DivSpecImpl<&r32> for &r32 {
    open spec fn obeys_div_spec() -> bool {
        true
    }

    open spec fn div_req(self, rhs: &r32) -> bool {
        (*self).div_fits((*rhs))
    }

    open spec fn div_spec(self, rhs: &r32) -> r32 {
        (*self).spec_div((*rhs))
    }
}

impl core::ops::Div<&r32> for &r32 {
    type Output = r32;

    fn div(self, rhs: &r32) -> (r: r32) {
        (*self).checked_div((*rhs)).unwrap()
    }
}

impl core::ops::DivAssign<r32> for r32 {
    fn div_assign(&mut self, rhs: r32)
        requires
            old(self).div_fits(rhs),
        ensures
            *final(self) == old(self).spec_div(rhs),
    {
        let v = self.checked_div(rhs).unwrap();
        *self = v;
    }
}

impl core::ops::DivAssign<&r32> for r32 {
    fn div_assign(&mut self, rhs: &r32)
        requires
            old(self).div_fits((*rhs)),
        ensures
            *final(self) == old(self).spec_div((*rhs)),
    {
        let v = self.checked_div((*rhs)).unwrap();
        *self = v;
    }
}

impl vstd::std_specs::ops::MulSpecImpl<i32> for r32 {
    open spec fn obeys_mul_spec() -> bool {
        true
    }

    open spec fn mul_req(self, rhs: i32) -> bool {
        self.mul_int_fits(rhs as int)
    }

    open spec fn mul_spec(self, rhs: i32) -> r32 {
        self.spec_mul_int(rhs as int)
    }
}

impl core::ops::Mul<i32> for r32 {
    type Output = r32;

    fn mul(self, rhs: i32) -> (r: r32) {
        self.checked_mul_int(rhs as i64).unwrap()
    }
}

impl vstd::std_specs::ops::MulSpecImpl<&i32> for r32 {
    open spec fn obeys_mul_spec() -> bool {
        true
    }

    open spec fn mul_req(self, rhs: &i32) -> bool {
        self.mul_int_fits((*rhs) as int)
    }

    open spec fn mul_spec(self, rhs: &i32) -> r32 {
        self.spec_mul_int((*rhs) as int)
    }
}

impl core::ops::Mul<&i32> for r32 {
    type Output = r32;

    fn mul(self, rhs: &i32) -> (r: r32) {
        self.checked_mul_int((*rhs) as i64).unwrap()
    }
}

impl vstd::std_specs::ops::MulSpecImpl<i32> for &r32 {
    open spec fn obeys_mul_spec() -> bool {
        true
    }

    open spec fn mul_req(self, rhs: i32) -> bool {
        (*self).mul_int_fits(rhs as int)
    }

    open spec fn mul_spec(self, rhs: i32) -> r32 {
        (*self).spec_mul_int(rhs as int)
    }
}

impl core::ops::Mul<i32> for &r32 {
    type Output = r32;

    fn mul(self, rhs: i32) -> (r: r32) {
        (*self).checked_mul_int(rhs as i64).unwrap()
    }
}

impl vstd::std_specs::ops::MulSpecImpl<&i32> for &r32 {
    open spec fn obeys_mul_spec() -> bool {
        true
    }

    open spec fn mul_req(self, rhs: &i32) -> bool {
        (*self).mul_int_fits((*rhs) as int)
    }

    open spec fn mul_spec(self, rhs: &i32) -> r32 {
        (*self).spec_mul_int((*rhs) as int)
    }
}

impl core::ops::Mul<&i32> for &r32 {
    type Output = r32;

    fn mul(self, rhs: &i32) -> (r: r32) {
        (*self).checked_mul_int((*rhs) as i64).unwrap()
    }
}

impl core::ops::MulAssign<i32> for r32 {
    fn mul_assign(&mut self, rhs: i32)
        requires
            old(self).mul_int_fits(rhs as int),
        ensures
            *final(self) == old(self).spec_mul_int(rhs as int),
    {
        let v = self.checked_mul_int(rhs as i64).unwrap();
        *self = v;
    }
}

impl core::ops::MulAssign<&i32> for r32 {
    fn mul_assign(&mut self, rhs: &i32)
        requires
            old(self).mul_int_fits((*rhs) as int),
        ensures
            *final(self) == old(self).spec_mul_int((*rhs) as int),
    {
        let v = self.checked_mul_int((*rhs) as i64).unwrap();
        *self = v;
    }
}

impl vstd::std_specs::ops::DivSpecImpl<i32> for r32 {
    open spec fn obeys_div_spec() -> bool {
        true
    }

    open spec fn div_req(self, rhs: i32) -> bool {
        self.div_int_fits(rhs as int)
    }

    open spec fn div_spec(self, rhs: i32) -> r32 {
        self.spec_div_int(rhs as int)
    }
}

impl core::ops::Div<i32> for r32 {
    type Output = r32;

    fn div(self, rhs: i32) -> (r: r32) {
        self.checked_div_int(rhs as i64).unwrap()
    }
}

impl vstd::std_specs::ops::DivSpecImpl<&i32> for r32 {
    open spec fn obeys_div_spec() -> bool {
        true
    }

    open spec fn div_req(self, rhs: &i32) -> bool {
        self.div_int_fits((*rhs) as int)
    }

    open spec fn div_spec(self, rhs: &i32) -> r32 {
        self.spec_div_int((*rhs) as int)
    }
}

impl core::ops::Div<&i32> for r32 {
    type Output = r32;

    fn div(self, rhs: &i32) -> (r: r32) {
        self.checked_div_int((*rhs) as i64).unwrap()
    }
}

impl vstd::std_specs::ops::DivSpecImpl<i32> for &r32 {
    open spec fn obeys_div_spec() -> bool {
        true
    }

    open spec fn div_req(self, rhs: i32) -> bool {
        (*self).div_int_fits(rhs as int)
    }

    open spec fn div_spec(self, rhs: i32) -> r32 {
        (*self).spec_div_int(rhs as int)
    }
}

impl core::ops::Div<i32> for &r32 {
    type Output = r32;

    fn div(self, rhs: i32) -> (r: r32) {
        (*self).checked_div_int(rhs as i64).unwrap()
    }
}

impl vstd::std_specs::ops::DivSpecImpl<&i32> for &r32 {
    open spec fn obeys_div_spec() -> bool {
        true
    }

    open spec fn div_req(self, rhs: &i32) -> bool {
        (*self).div_int_fits((*rhs) as int)
    }

    open spec fn div_spec(self, rhs: &i32) -> r32 {
        (*self).spec_div_int((*rhs) as int)
    }
}

impl core::ops::Div<&i32> for &r32 {
    type Output = r32;

    fn div(self, rhs: &i32) -> (r: r32) {
        (*self).checked_div_int((*rhs) as i64).unwrap()
    }
}

impl core::ops::DivAssign<i32> for r32 {
    fn div_assign(&mut self, rhs: i32)
        requires
            old(self).div_int_fits(rhs as int),
        ensures
            *final(self) == old(self).spec_div_int(rhs as int),
    {
        let v = self.checked_div_int(rhs as i64).unwrap();
        *self = v;
    }
}

impl core::ops::DivAssign<&i32> for r32 {
    fn div_assign(&mut self, rhs: &i32)
        requires
            old(self).div_int_fits((*rhs) as int),
        ensures
            *final(self) == old(self).spec_div_int((*rhs) as int),
    {
        let v = self.checked_div_int((*rhs) as i64).unwrap();
        *self = v;
    }
}

impl vstd::std_specs::ops::MulSpecImpl<r32> for i32 {
    open spec fn obeys_mul_spec() -> bool {
        true
    }

    open spec fn mul_req(self, rhs: r32) -> bool {
        rhs.mul_int_fits(self as int)
    }

    open spec fn mul_spec(self, rhs: r32) -> r32 {
        rhs.spec_mul_int(self as int)
    }
}

impl core::ops::Mul<r32> for i32 {
    type Output = r32;

    fn mul(self, rhs: r32) -> (r: r32) {
        rhs.checked_mul_int(self as i64).unwrap()
    }
}

impl vstd::std_specs::ops::DivSpecImpl<r32> for i32 {
    open spec fn obeys_div_spec() -> bool {
        true
    }

    open spec fn div_req(self, rhs: r32) -> bool {
        rhs.int_div_fits(self as int)
    }

    open spec fn div_spec(self, rhs: r32) -> r32 {
        rhs.spec_int_div(self as int)
    }
}

impl core::ops::Div<r32> for i32 {
    type Output = r32;

    fn div(self, rhs: r32) -> (r: r32) {
        rhs.checked_int_div(self as i64).unwrap()
    }
}

impl vstd::std_specs::ops::MulSpecImpl<u32> for r32 {
    open spec fn obeys_mul_spec() -> bool {
        true
    }

    open spec fn mul_req(self, rhs: u32) -> bool {
        self.mul_int_fits(rhs as int)
    }

    open spec fn mul_spec(self, rhs: u32) -> r32 {
        self.spec_mul_int(rhs as int)
    }
}

impl core::ops::Mul<u32> for r32 {
    type Output = r32;

    fn mul(self, rhs: u32) -> (r: r32) {
        self.checked_mul_int(rhs as i64).unwrap()
    }
}

impl vstd::std_specs::ops::MulSpecImpl<&u32> for r32 {
    open spec fn obeys_mul_spec() -> bool {
        true
    }

    open spec fn mul_req(self, rhs: &u32) -> bool {
        self.mul_int_fits((*rhs) as int)
    }

    open spec fn mul_spec(self, rhs: &u32) -> r32 {
        self.spec_mul_int((*rhs) as int)
    }
}

impl core::ops::Mul<&u32> for r32 {
    type Output = r32;

    fn mul(self, rhs: &u32) -> (r: r32) {
        self.checked_mul_int((*rhs) as i64).unwrap()
    }
}

impl vstd::std_specs::ops::MulSpecImpl<u32> for &r32 {
    open spec fn obeys_mul_spec() -> bool {
        true
    }

    open spec fn mul_req(self, rhs: u32) -> bool {
        (*self).mul_int_fits(rhs as int)
    }

    open spec fn mul_spec(self, rhs: u32) -> r32 {
        (*self).spec_mul_int(rhs as int)
    }
}

impl core::ops::Mul<u32> for &r32 {
    type Output = r32;

    fn mul(self, rhs: u32) -> (r: r32) {
        (*self).checked_mul_int(rhs as i64).unwrap()
    }
}

impl vstd::std_specs::ops::MulSpecImpl<&u32> for &r32 {
    open spec fn obeys_mul_spec() -> bool {
        true
    }

    open spec fn mul_req(self, rhs: &u32) -> bool {
        (*self).mul_int_fits((*rhs) as int)
    }

    open spec fn mul_spec(self, rhs: &u32) -> r32 {
        (*self).spec_mul_int((*rhs) as int)
    }
}

impl core::ops::Mul<&u32> for &r32 {
    type Output = r32;

    fn mul(self, rhs: &u32) -> (r: r32) {
        (*self).checked_mul_int((*rhs) as i64).unwrap()
    }
}

impl core::ops::MulAssign<u32> for r32 {
    fn mul_assign(&mut self, rhs: u32)
        requires
            old(self).mul_int_fits(rhs as int),
        ensures
            *final(self) == old(self).spec_mul_int(rhs as int),
    {
        let v = self.checked_mul_int(rhs as i64).unwrap();
        *self = v;
    }
}

impl core::ops::MulAssign<&u32> for r32 {
    fn mul_assign(&mut self, rhs: &u32)
        requires
            old(self).mul_int_fits((*rhs) as int),
        ensures
            *final(self) == old(self).spec_mul_int((*rhs) as int),
    {
        let v = self.checked_mul_int((*rhs) as i64).unwrap();
        *self = v;
    }
}

impl vstd::std_specs::ops::DivSpecImpl<u32> for r32 {
    open spec fn obeys_div_spec() -> bool {
        true
    }

    open spec fn div_req(self, rhs: u32) -> bool {
        self.div_int_fits(rhs as int)
    }

    open spec fn div_spec(self, rhs: u32) -> r32 {
        self.spec_div_int(rhs as int)
    }
}

impl core::ops::Div<u32> for r32 {
    type Output = r32;

    fn div(self, rhs: u32) -> (r: r32) {
        self.checked_div_int(rhs as i64).unwrap()
    }
}

impl vstd::std_specs::ops::DivSpecImpl<&u32> for r32 {
    open spec fn obeys_div_spec() -> bool {
        true
    }

    open spec fn div_req(self, rhs: &u32) -> bool {
        self.div_int_fits((*rhs) as int)
    }

    open spec fn div_spec(self, rhs: &u32) -> r32 {
        self.spec_div_int((*rhs) as int)
    }
}

impl core::ops::Div<&u32> for r32 {
    type Output = r32;

    fn div(self, rhs: &u32) -> (r: r32) {
        self.checked_div_int((*rhs) as i64).unwrap()
    }
}

impl vstd::std_specs::ops::DivSpecImpl<u32> for &r32 {
    open spec fn obeys_div_spec() -> bool {
        true
    }

    open spec fn div_req(self, rhs: u32) -> bool {
        (*self).div_int_fits(rhs as int)
    }

    open spec fn div_spec(self, rhs: u32) -> r32 {
        (*self).spec_div_int(rhs as int)
    }
}

impl core::ops::Div<u32> for &r32 {
    type Output = r32;

    fn div(self, rhs: u32) -> (r: r32) {
        (*self).checked_div_int(rhs as i64).unwrap()
    }
}

impl vstd::std_specs::ops::DivSpecImpl<&u32> for &r32 {
    open spec fn obeys_div_spec() -> bool {
        true
    }

    open spec fn div_req(self, rhs: &u32) -> bool {
        (*self).div_int_fits((*rhs) as int)
    }

    open spec fn div_spec(self, rhs: &u32) -> r32 {
        (*self).spec_div_int((*rhs) as int)
    }
}

impl core::ops::Div<&u32> for &r32 {
    type Output = r32;

    fn div(self, rhs: &u32) -> (r: r32) {
        (*self).checked_div_int((*rhs) as i64).unwrap()
    }
}

impl core::ops::DivAssign<u32> for r32 {
    fn div_assign(&mut self, rhs: u32)
        requires
            old(self).div_int_fits(rhs as int),
        ensures
            *final(self) == old(self).spec_div_int(rhs as int),
    {
        let v = self.checked_div_int(rhs as i64).unwrap();
        *self = v;
    }
}

impl core::ops::DivAssign<&u32> for r32 {
    fn div_assign(&mut self, rhs: &u32)
        requires
            old(self).div_int_fits((*rhs) as int),
        ensures
            *final(self) == old(self).spec_div_int((*rhs) as int),
    {
        let v = self.checked_div_int((*rhs) as i64).unwrap();
        *self = v;
    }
}

impl vstd::std_specs::ops::MulSpecImpl<r32> for u32 {
    open spec fn obeys_mul_spec() -> bool {
        true
    }

    open spec fn mul_req(self, rhs: r32) -> bool {
        rhs.mul_int_fits(self as int)
    }

    open spec fn mul_spec(self, rhs: r32) -> r32 {
        rhs.spec_mul_int(self as int)
    }
}

impl core::ops::Mul<r32> for u32 {
    type Output = r32;

    fn mul(self, rhs: r32) -> (r: r32) {
        rhs.checked_mul_int(self as i64).unwrap()
    }
}

impl vstd::std_specs::ops::DivSpecImpl<r32> for u32 {
    open spec fn obeys_div_spec() -> bool {
        true
    }

    open spec fn div_req(self, rhs: r32) -> bool {
        rhs.int_div_fits(self as int)
    }

    open spec fn div_spec(self, rhs: r32) -> r32 {
        rhs.spec_int_div(self as int)
    }
}

impl core::ops::Div<r32> for u32 {
    type Output = r32;

    fn div(self, rhs: r32) -> (r: r32) {
        rhs.checked_int_div(self as i64).unwrap()
    }
}

impl vstd::std_specs::ops::NegSpecImpl for r32 {
    open spec fn obeys_neg_spec() -> bool {
        true
    }

    open spec fn neg_req(self) -> bool {
        self.wf() && self.n > i16::MIN
    }

    open spec fn neg_spec(self) -> r32 {
        r32 { n: (-self.n) as i16, d: self.d }
    }
}

impl core::ops::Neg for r32 {
    type Output = r32;

    fn neg(self) -> (r: r32) {
        r32::neg(self)
    }
}

/// `n/d` in lowest terms fits an `r64`.
pub open spec fn fits64(n: int, d: int) -> bool {
    &&& d != 0
    &&& i32::MIN <= reduced_num(n, d) <= i32::MAX
    &&& reduced_den(n, d) <= u32::MAX
}

///Rational number with a 32-bit signed numerator and a 32-bit unsigned denominator.
#[allow(non_camel_case_types)]
#[derive(Clone, Copy, Debug, PartialEq, Eq, Structural, Hash)]
pub struct r64 {
    /// Numerator, carrying the sign.
    pub n: i32,
    /// Denominator, always positive.
    pub d: u32,
}

impl r64 {
    /// Lowest terms: a positive denominator coprime to the numerator.
    pub open spec fn wf(self) -> bool {
        &&& self.d > 0
        &&& spec_gcd(abs(self.n as int), self.d as nat) == 1
    }

    /// The numerator.
    pub open spec fn num(self) -> int {
        self.n as int
    }

    /// The denominator.
    pub open spec fn den(self) -> int {
        self.d as int
    }

    /// This is `n/d` in lowest terms.
    pub open spec fn is_of(self, n: int, d: int) -> bool {
        self.n == reduced_num(n, d) && self.d == reduced_den(n, d)
    }

    /// `n/d` in lowest terms, as an `r64` (meaningful where it fits).
    pub open spec fn of(n: int, d: int) -> r64 {
        r64 { n: reduced_num(n, d) as i32, d: reduced_den(n, d) as u32 }
    }

    /// The exact sum.
    pub open spec fn spec_add(self, o: r64) -> r64 {
        r64::of(self.n * o.d + o.n * self.d, self.d * o.d)
    }

    /// The exact difference.
    pub open spec fn spec_sub(self, o: r64) -> r64 {
        r64::of(self.n * o.d - o.n * self.d, self.d * o.d)
    }

    /// The exact product.
    pub open spec fn spec_mul(self, o: r64) -> r64 {
        r64::of(self.n * o.n, self.d * o.d)
    }

    /// The exact quotient.
    pub open spec fn spec_div(self, o: r64) -> r64 {
        r64::of(self.n * o.d, self.d * o.n)
    }

    /// The sum fits.
    pub open spec fn add_fits(self, o: r64) -> bool {
        self.wf() && o.wf() && fits64(self.n * o.d + o.n * self.d, self.d * o.d)
    }

    /// The difference fits.
    pub open spec fn sub_fits(self, o: r64) -> bool {
        self.wf() && o.wf() && fits64(self.n * o.d - o.n * self.d, self.d * o.d)
    }

    /// The product fits.
    pub open spec fn mul_fits(self, o: r64) -> bool {
        self.wf() && o.wf() && fits64(self.n * o.n, self.d * o.d)
    }

    /// The divisor is not zero and the quotient fits.
    pub open spec fn div_fits(self, o: r64) -> bool {
        self.wf() && o.wf() && o.n != 0 && fits64(self.n * o.d, self.d * o.n)
    }

    /// `n/d` in lowest terms, when it fits.
    fn from_wide(n: i128, d: i128) -> (r: Option<r64>)
        requires
            d != 0,
            n > i128::MIN,
            d > i128::MIN,
        ensures
            r.is_some() == fits64(n as int, d as int),
            r matches Some(q) ==> q.wf() && q.is_of(n as int, d as int),
    {
        let an: u128 = if n < 0 { (-n) as u128 } else { n as u128 };
        let ad: u128 = if d < 0 { (-d) as u128 } else { d as u128 };
        proof {
            lemma_gcd_reduced(an as nat, ad as nat);
            lemma_reduced_coprime(n as int, d as int);
        }
        let g = gcd128(an, ad);
        let qn = an / g;
        let qd = ad / g;
        if qn > i32::MAX as u128 + 1 || qd > u32::MAX as u128 {
            return None;
        }
        let w: i128 = if (n < 0) != (d < 0) { -(qn as i128) } else { qn as i128 };
        if w > i32::MAX as i128 {
            return None;
        }
        Some(r64 { n: w as i32, d: qd as u32 })
    }

    ///Returns the numerator (top half of the fraction) of the r64.
    pub fn numerator(&self) -> (r: i32)
        ensures
            r == self.n,
    {
        self.n
    }

    ///Returns the denominator (bottom half of the fraction) of the r64.
    pub fn denominator(&self) -> (r: u32)
        ensures
            r == self.d,
    {
        self.d
    }

    ///Returns the signum of the numerator
    pub fn signum(&self) -> (r: i32)
        ensures
            r == (if self.n > 0 { 1int } else if self.n < 0 { -1int } else { 0int }),
    {
        if self.n > 0 {
            1
        } else if self.n < 0 {
            -1
        } else {
            0
        }
    }

    ///Checks if positive
    pub fn is_positive(&self) -> (r: bool)
        ensures
            r == (self.n > 0),
    {
        self.n > 0
    }

    ///Returns a new r64 from a numerator and denominator already in lowest terms.
    pub fn new_raw(n: i32, d: u32) -> (r: r64)
        requires
            (r64 { n, d }).wf(),
        ensures
            r.n == n,
            r.d == d,
            r.wf(),
    {
        r64 { n, d }
    }

    ///Returns `numerator/denominator` in lowest terms; the denominator must not be zero
    ///and the result must fit.
    pub fn new_unchecked(numerator: i32, denominator: i32) -> (r: r64)
        requires
            fits64(numerator as int, denominator as int),
        ensures
            r.wf(),
            r.is_of(numerator as int, denominator as int),
    {
        Self::from_wide(numerator as i128, denominator as i128).unwrap()
    }

    ///Returns `numerator/denominator` in lowest terms, or the reason it cannot be made.
    pub fn new(numerator: i32, denominator: i32) -> (r: Result<r64, Error>)
        ensures
            denominator == 0 ==> r == Err::<r64, Error>(Error::DivideByZero),
            denominator != 0 && !fits64(numerator as int, denominator as int) ==> r == Err::<
                r64,
                Error,
            >(Error::Overflow),
            fits64(numerator as int, denominator as int) ==> (r matches Ok(q) && q.wf() && q.is_of(
                numerator as int,
                denominator as int,
            )),
    {
        if denominator == 0 {
            return Err(Error::DivideByZero);
        }
        match Self::from_wide(numerator as i128, denominator as i128) {
            Some(q) => Ok(q),
            None => Err(Error::Overflow),
        }
    }

    /// The sum, when it fits.
    pub fn checked_add(self, other: r64) -> (r: Option<r64>)
        requires
            self.wf(),
            other.wf(),
        ensures
            r.is_some() == fits64(self.n * other.d + other.n * self.d, self.d * other.d),
            r matches Some(q) ==> q.wf() && q.is_of(
                self.n * other.d + other.n * self.d,
                self.d * other.d,
            ) && q == self.spec_add(other),
    {
        let (d1, d2) = (self.d, other.d);
        proof {
            lemma_gcd_reduced(d1 as nat, d2 as nat);
        }
        let ghost k = spec_gcd(d1 as nat, d2 as nat) as int;
        let ghost p = d1 as int / k;
        let ghost q = d2 as int / k;
        assert(d1 * d2 == k * (k * p * q)) by (nonlinear_arith)
            requires d1 == k * p, d2 == k * q;
        assert(d1 as int * d2 as int <= u64::MAX) by (nonlinear_arith)
            requires d1 <= u32::MAX, d2 <= u32::MAX;
        let l = lcm64(d1 as u64, d2 as u64);
        assert(l == k * p * q) by {
            lemma_div_multiples_vanish(k * p * q, k);
        }
        assert(l as int / d1 as int == q && l as int / d2 as int == p) by {
            assert(l == (k * p) * q) by (nonlinear_arith)
                requires l == k * p * q;
            assert(l == (k * q) * p) by (nonlinear_arith)
                requires l == k * p * q;
            assert(k * p > 0 && k * q > 0) by (nonlinear_arith)
                requires k * p == d1, k * q == d2, d1 > 0, d2 > 0;
            lemma_div_multiples_vanish(q, k * p);
            lemma_div_multiples_vanish(p, k * q);
        }
        assert(0 < q <= d2 && 0 < p <= d1) by (nonlinear_arith)
            requires d1 == k * p, d2 == k * q, k > 0, d1 > 0, d2 > 0;
        assert(0 < l <= u64::MAX);
        assert(i64::MIN < self.n * q < i64::MAX && i64::MIN < other.n * p < i64::MAX)
            by (nonlinear_arith)
            requires
                i32::MIN <= self.n <= i32::MAX,
                i32::MIN <= other.n <= i32::MAX,
                0 < q <= u32::MAX,
                0 < p <= u32::MAX;
        let a = self.n as i128 * (l / d1 as u64) as i128;
        let b = other.n as i128 * (l / d2 as u64) as i128;
        proof {
            assert(self.n * other.d + other.n * self.d == k * (a + b)) by (nonlinear_arith)
                requires a == self.n * q, b == other.n * p, d1 == k * p, d2 == k * q,
                    d1 == self.d, d2 == other.d;
            assert(self.d * other.d == k * l) by (nonlinear_arith)
                requires d1 * d2 == k * (k * p * q), l == k * p * q, d1 == self.d, d2 == other.d;
            lemma_reduced_scale(k, a + b, l as int);
        }
        Self::from_wide(a + b, l as i128)
    }

    /// The product, when it fits.
    pub fn checked_mul(self, other: r64) -> (r: Option<r64>)
        requires
            self.wf(),
            other.wf(),
        ensures
            r.is_some() == fits64(self.n * other.n, self.d * other.d),
            r matches Some(q) ==> q.wf() && q == self.spec_mul(other),
    {
        assert(self.d * other.d > 0) by (nonlinear_arith)
            requires self.d > 0, other.d > 0;
        assert(i64::MIN < self.n * other.n < i64::MAX) by (nonlinear_arith)
            requires
                i32::MIN <= self.n <= i32::MAX,
                i32::MIN <= other.n <= i32::MAX;
        assert(self.d * other.d <= u64::MAX) by (nonlinear_arith)
            requires self.d <= u32::MAX, other.d <= u32::MAX;
        Self::from_wide(self.n as i128 * other.n as i128, self.d as i128 * other.d as i128)
    }
}


impl r64 {
    /// The difference, when it fits.
    pub fn checked_sub(self, other: r64) -> (r: Option<r64>)
        requires
            self.wf(),
            other.wf(),
        ensures
            r.is_some() == fits64(self.n * other.d - other.n * self.d, self.d * other.d),
            r matches Some(q) ==> q.wf() && q == self.spec_sub(other),
    {
        assert(i64::MIN <= self.n * other.d <= i64::MAX && i64::MIN <= other.n * self.d <= i64::MAX)
            by (nonlinear_arith)
            requires
                i32::MIN <= self.n <= i32::MAX,
                i32::MIN <= other.n <= i32::MAX,
                0 <= self.d <= u32::MAX,
                0 <= other.d <= u32::MAX;
        assert(self.d * other.d <= u64::MAX && self.d * other.d > 0) by (nonlinear_arith)
            requires 0 < self.d <= u32::MAX, 0 < other.d <= u32::MAX;
        Self::from_wide(
            self.n as i128 * other.d as i128 - other.n as i128 * self.d as i128,
            self.d as i128 * other.d as i128,
        )
    }

    /// The quotient, when the divisor is not zero and the quotient fits.
    pub fn checked_div(self, other: r64) -> (r: Option<r64>)
        requires
            self.wf(),
            other.wf(),
        ensures
            r.is_some() == (other.n != 0 && fits64(self.n * other.d, self.d * other.n)),
            r matches Some(q) ==> q.wf() && q == self.spec_div(other),
    {
        if other.n == 0 {
            return None;
        }
        assert(i64::MIN < self.n * other.d < i64::MAX && i64::MIN < self.d * other.n < i64::MAX)
            by (nonlinear_arith)
            requires
                i32::MIN <= self.n <= i32::MAX,
                i32::MIN <= other.n <= i32::MAX,
                0 <= self.d <= u32::MAX,
                0 <= other.d <= u32::MAX;
        assert(self.d * other.n != 0) by (nonlinear_arith)
            requires self.d > 0, other.n != 0;
        Self::from_wide(self.n as i128 * other.d as i128, self.d as i128 * other.n as i128)
    }

    /// The negation; the smallest numerator has none.
    pub fn neg(self) -> (r: r64)
        requires
            self.wf(),
            self.n > i32::MIN,
        ensures
            r.wf(),
            r.n == -self.n,
            r.d == self.d,
    {
        assert(abs(-self.n) == abs(self.n as int));
        r64 { n: -self.n, d: self.d }
    }

    ///Returns `1/self`, or `DivideByZero` for zero and `Overflow` when it does not fit.
    pub fn reciprocal(&self) -> (r: Result<r64, Error>)
        requires
            self.wf(),
        ensures
            self.n == 0 ==> r == Err::<r64, Error>(Error::DivideByZero),
            self.n != 0 && !fits64(self.d as int, self.n as int) ==> r == Err::<r64, Error>(
                Error::Overflow,
            ),
            self.n != 0 && fits64(self.d as int, self.n as int) ==> (r matches Ok(q) && q.wf()
                && q == r64::of(self.d as int, self.n as int)),
    {
        if self.n == 0 {
            return Err(Error::DivideByZero);
        }
        match Self::from_wide(self.d as i128, self.n as i128) {
            Some(q) => Ok(q),
            None => Err(Error::Overflow),
        }
    }
}


impl r64 {
    /// `k * self`, exact.
    pub open spec fn spec_mul_int(self, k: int) -> r64 {
        r64::of(self.n * k, self.d as int)
    }

    /// `self / k`, exact.
    pub open spec fn spec_div_int(self, k: int) -> r64 {
        r64::of(self.n as int, self.d * k)
    }

    /// `k / self`, exact.
    pub open spec fn spec_int_div(self, k: int) -> r64 {
        r64::of(k * self.d, self.n as int)
    }

    /// `k * self` fits.
    pub open spec fn mul_int_fits(self, k: int) -> bool {
        self.wf() && fits64(self.n * k, self.d as int)
    }

    /// `k` is not zero and `self / k` fits.
    pub open spec fn div_int_fits(self, k: int) -> bool {
        self.wf() && k != 0 && fits64(self.n as int, self.d * k)
    }

    /// `self` is not zero and `k / self` fits.
    pub open spec fn int_div_fits(self, k: int) -> bool {
        self.wf() && self.n != 0 && fits64(k * self.d, self.n as int)
    }

    /// `self * k`, when it fits.
    pub fn checked_mul_int(self, k: i128) -> (r: Option<r64>)
        requires
            self.wf(),
            i64::MIN <= k <= u64::MAX,
        ensures
            r.is_some() == fits64(self.n * k, self.d as int),
            r matches Some(q) ==> q.wf() && q == self.spec_mul_int(k as int),
    {
        assert(i128::MIN < self.n * k < i128::MAX) by (nonlinear_arith)
            requires
                i32::MIN <= self.n <= i32::MAX,
                i64::MIN <= k <= u64::MAX;
        Self::from_wide(self.n as i128 * k, self.d as i128)
    }

    /// `self / k`, when `k` is not zero and the quotient fits.
    pub fn checked_div_int(self, k: i128) -> (r: Option<r64>)
        requires
            self.wf(),
            i64::MIN <= k <= u64::MAX,
        ensures
            r.is_some() == (k != 0 && fits64(self.n as int, self.d * k)),
            r matches Some(q) ==> q.wf() && q == self.spec_div_int(k as int),
    {
        if k == 0 {
            return None;
        }
        assert(i128::MIN < self.d * k < i128::MAX) by (nonlinear_arith)
            requires
                0 < self.d <= u32::MAX,
                i64::MIN <= k <= u64::MAX;
        assert(self.d * k != 0) by (nonlinear_arith)
            requires self.d > 0, k != 0;
        Self::from_wide(self.n as i128, self.d as i128 * k)
    }

    /// `k / self`, when `self` is not zero and the quotient fits.
    pub fn checked_int_div(self, k: i128) -> (r: Option<r64>)
        requires
            self.wf(),
            i64::MIN <= k <= u64::MAX,
        ensures
            r.is_some() == (self.n != 0 && fits64(k * self.d, self.n as int)),
            r matches Some(q) ==> q.wf() && q == self.spec_int_div(k as int),
    {
        if self.n == 0 {
            return None;
        }
        assert(i128::MIN < k * self.d < i128::MAX) by (nonlinear_arith)
            requires
                0 < self.d <= u32::MAX,
                i64::MIN <= k <= u64::MAX;
        Self::from_wide(k * self.d as i128, self.n as i128)
    }

    /// The absolute value, or `None` for the smallest numerator, whose absolute value
    /// does not fit.
    pub fn abs(&self) -> (r: Option<r64>)
        requires
            self.wf(),
        ensures
            r is None <==> self.n == i32::MIN,
            r matches Some(q) ==> q.wf() && q.n == abs(self.n as int) && q.d == self.d,
    {
        if self.n == i32::MIN {
            None
        } else if self.n < 0 {
            Some(self.neg())
        } else {
            Some(*self)
        }
    }

    /// The negation, or `None` for the smallest numerator, whose negation does not fit.
    pub fn checked_neg(&self) -> (r: Option<r64>)
        requires
            self.wf(),
        ensures
            r is None <==> self.n == i32::MIN,
            r matches Some(q) ==> q.wf() && q.n == -self.n && q.d == self.d,
    {
        if self.n == i32::MIN {
            None
        } else {
            Some(self.neg())
        }
    }

    /// Compares the magnitudes of the two values.
    pub fn compare_abs(&self, other: &r64) -> (r: core::cmp::Ordering)
        ensures
            r == cmp_ints(abs(self.n as int) * other.d, abs(other.n as int) * self.d),
    {
        proof {
            lemma_cross_fits64(*self, *other);
            assert(abs(self.n as int) * other.d <= i64::MAX + 1 && abs(other.n as int) * self.d
                <= i64::MAX + 1) by (nonlinear_arith)
                requires
                    abs(self.n as int) <= i32::MAX + 1,
                    abs(other.n as int) <= i32::MAX + 1,
                    self.d <= u32::MAX,
                    other.d <= u32::MAX;
        }
        let an: i128 = if self.n < 0 { -(self.n as i128) } else { self.n as i128 };
        let bn: i128 = if other.n < 0 { -(other.n as i128) } else { other.n as i128 };
        let a = an * other.d as i128;
        let b = bn * self.d as i128;
        if a < b {
            core::cmp::Ordering::Less
        } else if a > b {
            core::cmp::Ordering::Greater
        } else {
            core::cmp::Ordering::Equal
        }
    }

    /// Compares the two values: the sign of `self - other`.
    pub fn compare(&self, other: &r64) -> (r: core::cmp::Ordering)
        ensures
            r == cmp_ints(self.n * other.d, other.n * self.d),
    {
        proof {
            lemma_cross_fits64(*self, *other);
        }
        let a = self.n as i64 * other.d as i64;
        let b = other.n as i64 * self.d as i64;
        if a < b {
            core::cmp::Ordering::Less
        } else if a > b {
            core::cmp::Ordering::Greater
        } else {
            core::cmp::Ordering::Equal
        }
    }

    /// What `int_dec` gives for the digit strings `a` (before the point) and `b` (after it).
    pub open spec fn decimal_result(sign: bool, a: Seq<u8>, b: Seq<u8>) -> Result<r64, Error> {
        if !decimal_ok(a + b, i32::MAX as nat) {
            Err(Error::ParseInt)
        } else if b.len() > 9 {
            Err(Error::Overflow)
        } else {
            Ok(r64::of(signed(sign, digits_value(a + b)), pow10(b.len()) as int))
        }
    }

    /// `int_dec` on byte strings.
    fn int_dec_bytes(sign: bool, a: &[u8], b: &[u8]) -> (r: Result<r64, Error>)
        ensures
            r == r64::decimal_result(sign, a@, b@),
            r matches Ok(q) ==> q.wf(),
    {
        let v = match parse_digits(a, b, i32::MAX as u64) {
            Some(v) => v,
            None => return Err(Error::ParseInt),
        };
        if b.len() > 9 {
            return Err(Error::Overflow);
        }
        let den = pow10_exec(b.len());
        proof {
            lemma_pow10_pos(b@.len());
            lemma_pow10_mono(b@.len(), 9);
            reveal_with_fuel(pow10, 10);
        }
        let n: i64 = if sign { v as i64 } else { -(v as i64) };
        proof {
            lemma_reduced_coprime(n as int, den as int);
        }
        match Self::from_wide(n as i128, den as i128) {
            Some(q) => Ok(q),
            None => Err(Error::Overflow),
        }
    }

    ///Tries to return a new r64 from a sign (true for non-negative) and the digits before
    ///and after the decimal point.
    pub fn int_dec(sign: bool, integer: &str, dec: &str) -> (r: Result<r64, Error>)
        ensures
            r == r64::decimal_result(sign, integer.spec_bytes(), dec.spec_bytes()),
            r matches Ok(q) ==> q.wf(),
    {
        Self::int_dec_bytes(sign, integer.as_bytes(), dec.as_bytes())
    }

    /// What `parse` gives for the text `s`: an optional `-`, digits, and optionally a `.`
    /// followed by more digits.
    pub open spec fn parse_result(s: Seq<u8>) -> Result<r64, Error> {
        let neg = s.len() > 0 && s[0] == 45;
        let body = if neg { s.subrange(1, s.len() as int) } else { s };
        let k = dot_index(body, 0);
        let int_part = body.subrange(0, k);
        let dec_part = if k < body.len() { body.subrange(k + 1, body.len() as int) } else { Seq::empty() };
        r64::decimal_result(!neg, int_part, dec_part)
    }

    ///Parses `[-]digits[.digits]` into the exact fraction, with a power of ten as the
    ///denominator before reduction.
    pub fn parse(s: &str) -> (r: Result<r64, Error>)
        ensures
            r == r64::parse_result(s.spec_bytes()),
            r matches Ok(q) ==> q.wf(),
    {
        let bytes = s.as_bytes();
        let (int_part, dec_part, neg) = split_decimal(bytes);
        Self::int_dec_bytes(!neg, int_part.as_slice(), dec_part.as_slice())
    }

    ///The fraction as text: the numerator, `/`, and the denominator, as in `-3/10`.
    pub fn to_string(&self) -> (r: String)
        ensures
            r@ == int_text(self.n as int) + seq!['/'] + nat_text(self.d as nat),
    {
        ratio_text(self.n as i64, self.d as u64)
    }
}

impl core::str::FromStr for r64 {
    type Err = Error;

    fn from_str(s: &str) -> Result<r64, Error> {
        r64::parse(s)
    }
}

/// Cross products of two `r64` terms fit an `i64`.
proof fn lemma_cross_fits64(a: r64, b: r64)
    ensures
        i64::MIN <= a.n * b.d <= i64::MAX,
        i64::MIN <= b.n * a.d <= i64::MAX,
{
    assert(i64::MIN <= a.n * b.d <= i64::MAX && i64::MIN <= b.n * a.d <= i64::MAX)
        by (nonlinear_arith)
        requires
            i32::MIN <= a.n <= i32::MAX,
            i32::MIN <= b.n <= i32::MAX,
            0 <= a.d <= u32::MAX,
            0 <= b.d <= u32::MAX;
}

impl core::default::Default for r64 {
    fn default() -> (r: r64)
        ensures
            r.wf() && r.n == 0 && r.d == 1,
    {
        proof {
            lemma_gcd_zero(1);
        }
        r64 { n: 0, d: 1 }
    }
}

impl crate::num::Identity for r64 {
    open spec fn spec_identity() -> r64 {
        r64 { n: 1, d: 1 }
    }

    fn identity() -> (r: r64) {
        proof {
            lemma_gcd_self(1);
        }
        r64 { n: 1, d: 1 }
    }
}

impl crate::num::Absolute for r64 {
    type Output = r64;

    fn absolute(&self) -> (r: r64)
        ensures
            self.wf() && self.n > i32::MIN ==> r.wf() && r.n == abs(self.n as int) && r.d == self.d,
    {
        if self.n < 0 && self.n > i32::MIN {
            r64 { n: -self.n, d: self.d }
        } else {
            *self
        }
    }
}

impl vstd::std_specs::cmp::PartialOrdSpecImpl for r64 {
    open spec fn obeys_partial_cmp_spec() -> bool {
        true
    }

    open spec fn partial_cmp_spec(&self, other: &r64) -> Option<core::cmp::Ordering> {
        Some(cmp_ints(self.n * other.d, other.n * self.d))
    }
}

impl core::cmp::PartialOrd for r64 {
    fn partial_cmp(&self, other: &r64) -> (r: Option<core::cmp::Ordering>) {
        proof {
            lemma_cross_fits64(*self, *other);
        }
        let a = self.n as i64 * other.d as i64;
        let b = other.n as i64 * self.d as i64;
        if a < b {
            Some(core::cmp::Ordering::Less)
        } else if a > b {
            Some(core::cmp::Ordering::Greater)
        } else {
            Some(core::cmp::Ordering::Equal)
        }
    }
}

impl r64 {
    /// The exact negation.
    pub open spec fn spec_neg(self) -> r64 {
        r64 { n: (-self.n) as i32, d: self.d }
    }

    /// Every fraction that fits has a canonical form: a positive denominator
    /// coprime to the numerator.
    pub proof fn lemma_of_canonical(n: int, d: int)
        requires
            fits64(n, d),
        ensures
            r64::of(n, d).wf(),
            r64::of(n, d).is_of(n, d),
    {
        lemma_reduced_coprime(n, d);
    }

    /// Addition is commutative.
    pub proof fn lemma_add_commutative(a: r64, b: r64)
        ensures
            a.spec_add(b) == b.spec_add(a),
    {
        assert(a.n * b.d + b.n * a.d == b.n * a.d + a.n * b.d && a.d * b.d == b.d * a.d)
            by (nonlinear_arith);
    }

    /// Multiplication is commutative.
    pub proof fn lemma_mul_commutative(a: r64, b: r64)
        ensures
            a.spec_mul(b) == b.spec_mul(a),
    {
        assert(a.n * b.n == b.n * a.n && a.d * b.d == b.d * a.d) by (nonlinear_arith);
    }

    /// A value plus its negation is zero.
    pub proof fn lemma_add_neg(a: r64)
        requires
            a.wf(),
            a.n > i32::MIN,
        ensures
            a.spec_add(a.spec_neg()) == (r64 { n: 0, d: 1 }),
    {
        assert(a.n * a.d + (-a.n) * a.d == 0) by (nonlinear_arith);
        assert(a.d * a.d != 0) by (nonlinear_arith)
            requires a.d > 0;
        lemma_reduced_coprime(0, a.d * a.d);
    }

    /// A non-zero value times its reciprocal is one.
    pub proof fn lemma_mul_reciprocal(a: r64)
        requires
            a.wf(),
            a.n != 0,
            fits64(a.d as int, a.n as int),
        ensures
            a.spec_mul(r64::of(a.d as int, a.n as int)) == (r64 { n: 1, d: 1 }),
    {
        lemma_gcd_comm(abs(a.n as int), a.d as nat);
        let an = abs(a.n as int) as int;
        assert(an / 1 == an && (a.d as int) / 1 == a.d) by {
            lemma_div_basics(an);
            lemma_div_basics(a.d as int);
        }
        let rn = reduced_num(a.d as int, a.n as int);
        let rd = reduced_den(a.d as int, a.n as int);
        assert(abs(a.d as int) == a.d as nat);
        assert(spec_gcd(abs(a.d as int), abs(a.n as int)) == 1);
        assert(rd == (abs(a.n as int) / 1) as int);
        assert(rd == an);
        assert((abs(a.d as int) / 1) as int == a.d);
        assert(rn == (if a.n < 0 { -(a.d as int) } else { a.d as int }));
        assert(a.n * rn == an * a.d) by (nonlinear_arith)
            requires
                a.n != 0,
                a.n < 0 ==> rn == -a.d && an == -a.n,
                a.n > 0 ==> rn == a.d && an == a.n;
        assert(an * a.d > 0) by (nonlinear_arith)
            requires an > 0, a.d > 0;
        assert(a.d * rd == an * a.d) by (nonlinear_arith)
            requires rd == an;
        lemma_gcd_self((an * a.d) as nat);
        lemma_div_basics(an * a.d);
    }
}

impl r64 {
    /// A canonical value is its own lowest terms.
    pub proof fn lemma_of_self(a: r64)
        requires
            a.wf(),
        ensures
            r64::of(a.n as int, a.d as int) == a,
            a.spec_mul_int(1) == a,
    {
        assert(abs(a.d as int) == a.d as nat);
        assert(reduced_den(a.n as int, a.d as int) == (a.d as nat / 1) as int);
        assert(reduced_num(a.n as int, a.d as int) == (if a.n < 0 { -((abs(a.n as int) / 1) as int) } else { (abs(a.n as int) / 1) as int }));
        assert(a.n * 1 == a.n);
    }
}

impl r64 {
    /// A canonical value is the lowest terms of every fraction of the same value.
    pub proof fn lemma_eq_by_value(x: r64, n: int, d: int)
        requires
            x.wf(),
            d != 0,
            x.n * d == n * x.d,
        ensures
            fits64(n, d),
            r64::of(n, d) == x,
    {
        lemma_reduced_coprime(n, d);
        lemma_reduced_value(n, d);
        let rn = reduced_num(n, d);
        let rd = reduced_den(n, d);
        assert(rn * x.d == x.n * rd) by (nonlinear_arith)
            requires x.n * d == n * x.d, rn * d == n * rd, d != 0;
        lemma_canonical_unique(rn, rd, x.n as int, x.d as int);
    }

    /// Adding what `a - s` leaves gives `a` back.
    pub proof fn lemma_add_sub_cancel(s: r64, a: r64)
        requires
            s.wf(),
            a.wf(),
            a.sub_fits(s),
        ensures
            a.spec_sub(s).wf(),
            s.add_fits(a.spec_sub(s)),
            s.spec_add(a.spec_sub(s)) == a,
    {
        let t = a.spec_sub(s);
        r64::lemma_of_canonical(a.n * s.d - s.n * a.d, a.d * s.d);
        assert(a.d * s.d != 0) by (nonlinear_arith)
            requires a.d > 0, s.d > 0;
        lemma_reduced_value(a.n * s.d - s.n * a.d, a.d * s.d);
        assert(t.n * (a.d * s.d) == (a.n * s.d - s.n * a.d) * t.d);
        let x = s.n * t.d + t.n * s.d;
        let y = s.d * t.d;
        assert(x * a.d * s.d == a.n * y * s.d) by (nonlinear_arith)
            requires t.n * (a.d * s.d) == (a.n * s.d - s.n * a.d) * t.d, x == s.n * t.d + t.n * s.d, y
                == s.d * t.d;
        assert(x * a.d == a.n * y) by (nonlinear_arith)
            requires x * a.d * s.d == a.n * y * s.d, s.d > 0;
        assert(y != 0) by (nonlinear_arith)
            requires y == s.d * t.d, s.d > 0, t.d > 0;
        r64::lemma_eq_by_value(a, x, y);
    }

    /// Multiplying `x / p` by `p` gives `x` back.
    pub proof fn lemma_div_mul_cancel(x: r64, p: r64)
        requires
            x.wf(),
            p.wf(),
            x.div_fits(p),
        ensures
            x.spec_div(p).wf(),
            x.spec_div(p).mul_fits(p),
            x.spec_div(p).spec_mul(p) == x,
    {
        let q = x.spec_div(p);
        assert(x.d * p.n != 0) by (nonlinear_arith)
            requires x.d > 0, p.n != 0;
        r64::lemma_of_canonical(x.n * p.d, x.d * p.n);
        lemma_reduced_value(x.n * p.d, x.d * p.n);
        assert(q.n * (x.d * p.n) == (x.n * p.d) * q.d);
        assert(q.n * p.n * x.d == x.n * (q.d * p.d)) by (nonlinear_arith)
            requires q.n * (x.d * p.n) == (x.n * p.d) * q.d;
        assert(q.d * p.d != 0) by (nonlinear_arith)
            requires q.d > 0, p.d > 0;
        r64::lemma_eq_by_value(x, q.n * p.n, q.d * p.d);
    }

    /// Zero times anything, and anything times zero, is zero; one times `x` is `x`; and
    /// `x` plus zero, or zero plus `x`, is `x`.
    pub proof fn lemma_identities(x: r64)
        requires
            x.wf(),
        ensures
            (r64 { n: 0, d: 1 }).mul_fits(x),
            (r64 { n: 0, d: 1 }).spec_mul(x) == (r64 { n: 0, d: 1 }),
            x.mul_fits(r64 { n: 0, d: 1 }),
            x.spec_mul(r64 { n: 0, d: 1 }) == (r64 { n: 0, d: 1 }),
            (r64 { n: 1, d: 1 }).mul_fits(x),
            (r64 { n: 1, d: 1 }).spec_mul(x) == x,
            x.add_fits(r64 { n: 0, d: 1 }),
            x.spec_add(r64 { n: 0, d: 1 }) == x,
            (r64 { n: 0, d: 1 }).add_fits(x),
            (r64 { n: 0, d: 1 }).spec_add(x) == x,
    {
        let z = r64 { n: 0, d: 1 };
        let o = r64 { n: 1, d: 1 };
        lemma_gcd_zero(1);
        lemma_gcd_self(1);
        assert(z.wf() && o.wf());
        r64::lemma_eq_by_value(z, 0 * x.n, 1 * x.d);
        r64::lemma_eq_by_value(z, x.n * 0, x.d * 1);
        r64::lemma_eq_by_value(x, 1 * x.n, 1 * x.d);
        r64::lemma_eq_by_value(x, x.n * 1 + 0 * x.d, x.d * 1);
        r64::lemma_eq_by_value(x, 0 * x.d + x.n * 1, 1 * x.d);
    }
}

impl vstd::std_specs::ops::AddSpecImpl<r64> for r64 {
    open spec fn obeys_add_spec() -> bool {
        true
    }

    open spec fn add_req(self, rhs: r64) -> bool {
        self.add_fits(rhs)
    }

    open spec fn add_spec(self, rhs: r64) -> r64 {
        self.spec_add(rhs)
    }
}

impl core::ops::Add<r64> for r64 {
    type Output = r64;

    fn add(self, rhs: r64) -> (r: r64) {
        self.checked_add(rhs).unwrap()
    }
}

impl vstd::std_specs::ops::AddSpecImpl<&r64> for r64 {
    open spec fn obeys_add_spec() -> bool {
        true
    }

    open spec fn add_req(self, rhs: &r64) -> bool {
        self.add_fits((*rhs))
    }

    open spec fn add_spec(self, rhs: &r64) -> r64 {
        self.spec_add((*rhs))
    }
}

impl core::ops::Add<&r64> for r64 {
    type Output = r64;

    fn add(self, rhs: &r64) -> (r: r64) {
        self.checked_add((*rhs)).unwrap()
    }
}

impl vstd::std_specs::ops::AddSpecImpl<r64> for &r64 {
    open spec fn obeys_add_spec() -> bool {
        true
    }

    open spec fn add_req(self, rhs: r64) -> bool {
        (*self).add_fits(rhs)
    }

    open spec fn add_spec(self, rhs: r64) -> r64 {
        (*self).spec_add(rhs)
    }
}

impl core::ops::Add<r64> for &r64 {
    type Output = r64;

    fn add(self, rhs: r64) -> (r: r64) {
        (*self).checked_add(rhs).unwrap()
    }
}

impl vstd::std_specs::ops::AddSpecImpl<&r64> for &r64 {
    open spec fn obeys_add_spec() -> bool {
        true
    }

    open spec fn add_req(self, rhs: &r64) -> bool {
        (*self).add_fits((*rhs))
    }

    open spec fn add_spec(self, rhs: &r64) -> r64 {
        (*self).spec_add((*rhs))
    }
}

impl core::ops::Add<&r64> for &r64 {
    type Output = r64;

    fn add(self, rhs: &r64) -> (r: r64) {
        (*self).checked_add((*rhs)).unwrap()
    }
}

impl core::ops::AddAssign<r64> for r64 {
    fn add_assign(&mut self, rhs: r64)
        requires
            old(self).add_fits(rhs),
        ensures
            *final(self) == old(self).spec_add(rhs),
    {
        let v = self.checked_add(rhs).unwrap();
        *self = v;
    }
}

impl core::ops::AddAssign<&r64> for r64 {
    fn add_assign(&mut self, rhs: &r64)
        requires
            old(self).add_fits((*rhs)),
        ensures
            *final(self) == old(self).spec_add((*rhs)),
    {
        let v = self.checked_add((*rhs)).unwrap();
        *self = v;
    }
}

impl vstd::std_specs::ops::SubSpecImpl<r64> for r64 {
    open spec fn obeys_sub_spec() -> bool {
        true
    }

    open spec fn sub_req(self, rhs: r64) -> bool {
        self.sub_fits(rhs)
    }

    open spec fn sub_spec(self, rhs: r64) -> r64 {
        self.spec_sub(rhs)
    }
}

impl core::ops::Sub<r64> for r64 {
    type Output = r64;

    fn sub(self, rhs: r64) -> (r: r64) {
        self.checked_sub(rhs).unwrap()
    }
}

impl vstd::std_specs::ops::SubSpecImpl<&r64> for r64 {
    open spec fn obeys_sub_spec() -> bool {
        true
    }

    open spec fn sub_req(self, rhs: &r64) -> bool {
        self.sub_fits((*rhs))
    }

    open spec fn sub_spec(self, rhs: &r64) -> r64 {
        self.spec_sub((*rhs))
    }
}

impl core::ops::Sub<&r64> for r64 {
    type Output = r64;

    fn sub(self, rhs: &r64) -> (r: r64) {
        self.checked_sub((*rhs)).unwrap()
    }
}

impl vstd::std_specs::ops::SubSpecImpl<r64> for &r64 {
    open spec fn obeys_sub_spec() -> bool {
        true
    }

    open spec fn sub_req(self, rhs: r64) -> bool {
        (*self).sub_fits(rhs)
    }

    open spec fn sub_spec(self, rhs: r64) -> r64 {
        (*self).spec_sub(rhs)
    }
}

impl core::ops::Sub<r64> for &r64 {
    type Output = r64;

    fn sub(self, rhs: r64) -> (r: r64) {
        (*self).checked_sub(rhs).unwrap()
    }
}

impl vstd::std_specs::ops::SubSpecImpl<&r64> for &r64 {
    open spec fn obeys_sub_spec() -> bool {
        true
    }

    open spec fn sub_req(self, rhs: &r64) -> bool {
        (*self).sub_fits((*rhs))
    }

    open spec fn sub_spec(self, rhs: &r64) -> r64 {
        (*self).spec_sub((*rhs))
    }
}

impl core::ops::Sub<&r64> for &r64 {
    type Output = r64;

    fn sub(self, rhs: &r64) -> (r: r64) {
        (*self).checked_sub((*rhs)).unwrap()
    }
}

impl core::ops::SubAssign<r64> for r64 {
    fn sub_assign(&mut self, rhs: r64)
        requires
            old(self).sub_fits(rhs),
        ensures
            *final(self) == old(self).spec_sub(rhs),
    {
        let v = self.checked_sub(rhs).unwrap();
        *self = v;
    }
}

impl core::ops::SubAssign<&r64> for r64 {
    fn sub_assign(&mut self, rhs: &r64)
        requires
            old(self).sub_fits((*rhs)),
        ensures
            *final(self) == old(self).spec_sub((*rhs)),
    {
        let v = self.checked_sub((*rhs)).unwrap();
        *self = v;
    }
}

impl vstd::std_specs::ops::MulSpecImpl<r64> for r64 {
    open spec fn obeys_mul_spec() -> bool {
        true
    }

    open spec fn mul_req(self, rhs: r64) -> bool {
        self.mul_fits(rhs)
    }

    open spec fn mul_spec(self, rhs: r64) -> r64 {
        self.spec_mul(rhs)
    }
}

impl core::ops::Mul<r64> for r64 {
    type Output = r64;

    fn mul(self, rhs: r64) -> (r: r64) {
        self.checked_mul(rhs).unwrap()
    }
}

impl vstd::std_specs::ops::MulSpecImpl<&r64> for r64 {
    open spec fn obeys_mul_spec() -> bool {
        true
    }

    open spec fn mul_req(self, rhs: &r64) -> bool {
        self.mul_fits((*rhs))
    }

    open spec fn mul_spec(self, rhs: &r64) -> r64 {
        self.spec_mul((*rhs))
    }
}

impl core::ops::Mul<&r64> for r64 {
    type Output = r64;

    fn mul(self, rhs: &r64) -> (r: r64) {
        self.checked_mul((*rhs)).unwrap()
    }
}

impl vstd::std_specs::ops::MulSpecImpl<r64> for &r64 {
    open spec fn obeys_mul_spec() -> bool {
        true
    }

    open spec fn mul_req(self, rhs: r64) -> bool {
        (*self).mul_fits(rhs)
    }

    open spec fn mul_spec(self, rhs: r64) -> r64 {
        (*self).spec_mul(rhs)
    }
}

impl core::ops::Mul<r64> for &r64 {
    type Output = r64;

    fn mul(self, rhs: r64) -> (r: r64) {
        (*self).checked_mul(rhs).unwrap()
    }
}

impl vstd::std_specs::ops::MulSpecImpl<&r64> for &r64 {
    open spec fn obeys_mul_spec() -> bool {
        true
    }

    open spec fn mul_req(self, rhs: &r64) -> bool {
        (*self).mul_fits((*rhs))
    }

    open spec fn mul_spec(self, rhs: &r64) -> r64 {
        (*self).spec_mul((*rhs))
    }
}

impl core::ops::Mul<&r64> for &r64 {
    type Output = r64;

    fn mul(self, rhs: &r64) -> (r: r64) {
        (*self).checked_mul((*rhs)).unwrap()
    }
}

impl core::ops::MulAssign<r64> for r64 {
    fn mul_assign(&mut self, rhs: r64)
        requires
            old(self).mul_fits(rhs),
        ensures
            *final(self) == old(self).spec_mul(rhs),
    {
        let v = self.checked_mul(rhs).unwrap();
        *self = v;
    }
}

impl core::ops::MulAssign<&r64> for r64 {
    fn mul_assign(&mut self, rhs: &r64)
        requires
            old(self).mul_fits((*rhs)),
        ensures
            *final(self) == old(self).spec_mul((*rhs)),
    {
        let v = self.checked_mul((*rhs)).unwrap();
        *self = v;
    }
}

impl vstd::std_specs::ops::DivSpecImpl<r64> for r64 {
    open spec fn obeys_div_spec() -> bool {
        true
    }

    open spec fn div_req(self, rhs: r64) -> bool {
        self.div_fits(rhs)
    }

    open spec fn div_spec(self, rhs: r64) -> r64 {
        self.spec_div(rhs)
    }
}

impl core::ops::Div<r64> for r64 {
    type Output = r64;

    fn div(self, rhs: r64) -> (r: r64) {
        self.checked_div(rhs).unwrap()
    }
}

impl vstd::std_specs::ops::DivSpecImpl<&r64> for r64 {
    open spec fn obeys_div_spec() -> bool {
        true
    }

    open spec fn div_req(self, rhs: &r64) -> bool {
        self.div_fits((*rhs))
    }

    open spec fn div_spec(self, rhs: &r64) -> r64 {
        self.spec_div((*rhs))
    }
}

impl core::ops::Div<&r64> for r64 {
    type Output = r64;

    fn div(self, rhs: &r64) -> (r: r64) {
        self.checked_div((*rhs)).unwrap()
    }
}

impl vstd::std_specs::ops::DivSpecImpl<r64> for &r64 {
    open spec fn obeys_div_spec() -> bool {
        true
    }

    open spec fn div_req(self, rhs: r64) -> bool {
        (*self).div_fits(rhs)
    }

    open spec fn div_spec(self, rhs: r64) -> r64 {
        (*self).spec_div(rhs)
    }
}

impl core::ops::Div<r64> for &r64 {
    type Output = r64;

    fn div(self, rhs: r64) -> (r: r64) {
        (*self).checked_div(rhs).unwrap()
    }
}

impl vstd::std_specs::ops::DivSpecImpl<&r64> for &r64 {
    open spec fn obeys_div_spec() -> bool {
        true
    }

    open spec fn div_req(self, rhs: &r64) -> bool {
        (*self).div_fits((*rhs))
    }

    open spec fn div_spec(self, rhs: &r64) -> r64 {
        (*self).spec_div((*rhs))
    }
}

impl core::ops::Div<&r64> for &r64 {
    type Output = r64;

    fn div(self, rhs: &r64) -> (r: r64) {
        (*self).checked_div((*rhs)).unwrap()
    }
}

impl core::ops::DivAssign<r64> for r64 {
    fn div_assign(&mut self, rhs: r64)
        requires
            old(self).div_fits(rhs),
        ensures
            *final(self) == old(self).spec_div(rhs),
    {
        let v = self.checked_div(rhs).unwrap();
        *self = v;
    }
}

impl core::ops::DivAssign<&r64> for r64 {
    fn div_assign(&mut self, rhs: &r64)
        requires
            old(self).div_fits((*rhs)),
        ensures
            *final(self) == old(self).spec_div((*rhs)),
    {
        let v = self.checked_div((*rhs)).unwrap();
        *self = v;
    }
}

impl vstd::std_specs::ops::MulSpecImpl<i64> for r64 {
    open spec fn obeys_mul_spec() -> bool {
        true
    }

    open spec fn mul_req(self, rhs: i64) -> bool {
        self.mul_int_fits(rhs as int)
    }

    open spec fn mul_spec(self, rhs: i64) -> r64 {
        self.spec_mul_int(rhs as int)
    }
}

impl core::ops::Mul<i64> for r64 {
    type Output = r64;

    fn mul(self, rhs: i64) -> (r: r64) {
        self.checked_mul_int(rhs as i128).unwrap()
    }
}

impl vstd::std_specs::ops::MulSpecImpl<&i64> for r64 {
    open spec fn obeys_mul_spec() -> bool {
        true
    }

    open spec fn mul_req(self, rhs: &i64) -> bool {
        self.mul_int_fits((*rhs) as int)
    }

    open spec fn mul_spec(self, rhs: &i64) -> r64 {
        self.spec_mul_int((*rhs) as int)
    }
}

impl core::ops::Mul<&i64> for r64 {
    type Output = r64;

    fn mul(self, rhs: &i64) -> (r: r64) {
        self.checked_mul_int((*rhs) as i128).unwrap()
    }
}

impl vstd::std_specs::ops::MulSpecImpl<i64> for &r64 {
    open spec fn obeys_mul_spec() -> bool {
        true
    }

    open spec fn mul_req(self, rhs: i64) -> bool {
        (*self).mul_int_fits(rhs as int)
    }

    open spec fn mul_spec(self, rhs: i64) -> r64 {
        (*self).spec_mul_int(rhs as int)
    }
}

impl core::ops::Mul<i64> for &r64 {
    type Output = r64;

    fn mul(self, rhs: i64) -> (r: r64) {
        (*self).checked_mul_int(rhs as i128).unwrap()
    }
}

impl vstd::std_specs::ops::MulSpecImpl<&i64> for &r64 {
    open spec fn obeys_mul_spec() -> bool {
        true
    }

    open spec fn mul_req(self, rhs: &i64) -> bool {
        (*self).mul_int_fits((*rhs) as int)
    }

    open spec fn mul_spec(self, rhs: &i64) -> r64 {
        (*self).spec_mul_int((*rhs) as int)
    }
}

impl core::ops::Mul<&i64> for &r64 {
    type Output = r64;

    fn mul(self, rhs: &i64) -> (r: r64) {
        (*self).checked_mul_int((*rhs) as i128).unwrap()
    }
}

impl core::ops::MulAssign<i64> for r64 {
    fn mul_assign(&mut self, rhs: i64)
        requires
            old(self).mul_int_fits(rhs as int),
        ensures
            *final(self) == old(self).spec_mul_int(rhs as int),
    {
        let v = self.checked_mul_int(rhs as i128).unwrap();
        *self = v;
    }
}

impl core::ops::MulAssign<&i64> for r64 {
    fn mul_assign(&mut self, rhs: &i64)
        requires
            old(self).mul_int_fits((*rhs) as int),
        ensures
            *final(self) == old(self).spec_mul_int((*rhs) as int),
    {
        let v = self.checked_mul_int((*rhs) as i128).unwrap();
        *self = v;
    }
}

impl vstd::std_specs::ops::DivSpecImpl<i64> for r64 {
    open spec fn obeys_div_spec() -> bool {
        true
    }

    open spec fn div_req(self, rhs: i64) -> bool {
        self.div_int_fits(rhs as int)
    }

    open spec fn div_spec(self, rhs: i64) -> r64 {
        self.spec_div_int(rhs as int)
    }
}

impl core::ops::Div<i64> for r64 {
    type Output = r64;

    fn div(self, rhs: i64) -> (r: r64) {
        self.checked_div_int(rhs as i128).unwrap()
    }
}

impl vstd::std_specs::ops::DivSpecImpl<&i64> for r64 {
    open spec fn obeys_div_spec() -> bool {
        true
    }

    open spec fn div_req(self, rhs: &i64) -> bool {
        self.div_int_fits((*rhs) as int)
    }

    open spec fn div_spec(self, rhs: &i64) -> r64 {
        self.spec_div_int((*rhs) as int)
    }
}

impl core::ops::Div<&i64> for r64 {
    type Output = r64;

    fn div(self, rhs: &i64) -> (r: r64) {
        self.checked_div_int((*rhs) as i128).unwrap()
    }
}

impl vstd::std_specs::ops::DivSpecImpl<i64> for &r64 {
    open spec fn obeys_div_spec() -> bool {
        true
    }

    open spec fn div_req(self, rhs: i64) -> bool {
        (*self).div_int_fits(rhs as int)
    }

    open spec fn div_spec(self, rhs: i64) -> r64 {
        (*self).spec_div_int(rhs as int)
    }
}

impl core::ops::Div<i64> for &r64 {
    type Output = r64;

    fn div(self, rhs: i64) -> (r: r64) {
        (*self).checked_div_int(rhs as i128).unwrap()
    }
}

impl vstd::std_specs::ops::DivSpecImpl<&i64> for &r64 {
    open spec fn obeys_div_spec() -> bool {
        true
    }

    open spec fn div_req(self, rhs: &i64) -> bool {
        (*self).div_int_fits((*rhs) as int)
    }

    open spec fn div_spec(self, rhs: &i64) -> r64 {
        (*self).spec_div_int((*rhs) as int)
    }
}

impl core::ops::Div<&i64> for &r64 {
    type Output = r64;

    fn div(self, rhs: &i64) -> (r: r64) {
        (*self).checked_div_int((*rhs) as i128).unwrap()
    }
}

impl core::ops::DivAssign<i64> for r64 {
    fn div_assign(&mut self, rhs: i64)
        requires
            old(self).div_int_fits(rhs as int),
        ensures
            *final(self) == old(self).spec_div_int(rhs as int),
    {
        let v = self.checked_div_int(rhs as i128).unwrap();
        *self = v;
    }
}

impl core::ops::DivAssign<&i64> for r64 {
    fn div_assign(&mut self, rhs: &i64)
        requires
            old(self).div_int_fits((*rhs) as int),
        ensures
            *final(self) == old(self).spec_div_int((*rhs) as int),
    {
        let v = self.checked_div_int((*rhs) as i128).unwrap();
        *self = v;
    }
}

impl vstd::std_specs::ops::MulSpecImpl<r64> for i64 {
    open spec fn obeys_mul_spec() -> bool {
        true
    }

    open spec fn mul_req(self, rhs: r64) -> bool {
        rhs.mul_int_fits(self as int)
    }

    open spec fn mul_spec(self, rhs: r64) -> r64 {
        rhs.spec_mul_int(self as int)
    }
}

impl core::ops::Mul<r64> for i64 {
    type Output = r64;

    fn mul(self, rhs: r64) -> (r: r64) {
        rhs.checked_mul_int(self as i128).unwrap()
    }
}

impl vstd::std_specs::ops::DivSpecImpl<r64> for i64 {
    open spec fn obeys_div_spec() -> bool {
        true
    }

    open spec fn div_req(self, rhs: r64) -> bool {
        rhs.int_div_fits(self as int)
    }

    open spec fn div_spec(self, rhs: r64) -> r64 {
        rhs.spec_int_div(self as int)
    }
}

impl core::ops::Div<r64> for i64 {
    type Output = r64;

    fn div(self, rhs: r64) -> (r: r64) {
        rhs.checked_int_div(self as i128).unwrap()
    }
}

impl vstd::std_specs::ops::MulSpecImpl<u64> for r64 {
    open spec fn obeys_mul_spec() -> bool {
        true
    }

    open spec fn mul_req(self, rhs: u64) -> bool {
        self.mul_int_fits(rhs as int)
    }

    open spec fn mul_spec(self, rhs: u64) -> r64 {
        self.spec_mul_int(rhs as int)
    }
}

impl core::ops::Mul<u64> for r64 {
    type Output = r64;

    fn mul(self, rhs: u64) -> (r: r64) {
        self.checked_mul_int(rhs as i128).unwrap()
    }
}

impl vstd::std_specs::ops::MulSpecImpl<&u64> for r64 {
    open spec fn obeys_mul_spec() -> bool {
        true
    }

    open spec fn mul_req(self, rhs: &u64) -> bool {
        self.mul_int_fits((*rhs) as int)
    }

    open spec fn mul_spec(self, rhs: &u64) -> r64 {
        self.spec_mul_int((*rhs) as int)
    }
}

impl core::ops::Mul<&u64> for r64 {
    type Output = r64;

    fn mul(self, rhs: &u64) -> (r: r64) {
        self.checked_mul_int((*rhs) as i128).unwrap()
    }
}

impl vstd::std_specs::ops::MulSpecImpl<u64> for &r64 {
    open spec fn obeys_mul_spec() -> bool {
        true
    }

    open spec fn mul_req(self, rhs: u64) -> bool {
        (*self).mul_int_fits(rhs as int)
    }

    open spec fn mul_spec(self, rhs: u64) -> r64 {
        (*self).spec_mul_int(rhs as int)
    }
}

impl core::ops::Mul<u64> for &r64 {
    type Output = r64;

    fn mul(self, rhs: u64) -> (r: r64) {
        (*self).checked_mul_int(rhs as i128).unwrap()
    }
}

impl vstd::std_specs::ops::MulSpecImpl<&u64> for &r64 {
    open spec fn obeys_mul_spec() -> bool {
        true
    }

    open spec fn mul_req(self, rhs: &u64) -> bool {
        (*self).mul_int_fits((*rhs) as int)
    }

    open spec fn mul_spec(self, rhs: &u64) -> r64 {
        (*self).spec_mul_int((*rhs) as int)
    }
}

impl core::ops::Mul<&u64> for &r64 {
    type Output = r64;

    fn mul(self, rhs: &u64) -> (r: r64) {
        (*self).checked_mul_int((*rhs) as i128).unwrap()
    }
}

impl core::ops::MulAssign<u64> for r64 {
    fn mul_assign(&mut self, rhs: u64)
        requires
            old(self).mul_int_fits(rhs as int),
        ensures
            *final(self) == old(self).spec_mul_int(rhs as int),
    {
        let v = self.checked_mul_int(rhs as i128).unwrap();
        *self = v;
    }
}

impl core::ops::MulAssign<&u64> for r64 {
    fn mul_assign(&mut self, rhs: &u64)
        requires
            old(self).mul_int_fits((*rhs) as int),
        ensures
            *final(self) == old(self).spec_mul_int((*rhs) as int),
    {
        let v = self.checked_mul_int((*rhs) as i128).unwrap();
        *self = v;
    }
}

impl vstd::std_specs::ops::DivSpecImpl<u64> for r64 {
    open spec fn obeys_div_spec() -> bool {
        true
    }

    open spec fn div_req(self, rhs: u64) -> bool {
        self.div_int_fits(rhs as int)
    }

    open spec fn div_spec(self, rhs: u64) -> r64 {
        self.spec_div_int(rhs as int)
    }
}

impl core::ops::Div<u64> for r64 {
    type Output = r64;

    fn div(self, rhs: u64) -> (r: r64) {
        self.checked_div_int(rhs as i128).unwrap()
    }
}

impl vstd::std_specs::ops::DivSpecImpl<&u64> for r64 {
    open spec fn obeys_div_spec() -> bool {
        true
    }

    open spec fn div_req(self, rhs: &u64) -> bool {
        self.div_int_fits((*rhs) as int)
    }

    open spec fn div_spec(self, rhs: &u64) -> r64 {
        self.spec_div_int((*rhs) as int)
    }
}

impl core::ops::Div<&u64> for r64 {
    type Output = r64;

    fn div(self, rhs: &u64) -> (r: r64) {
        self.checked_div_int((*rhs) as i128).unwrap()
    }
}

impl vstd::std_specs::ops::DivSpecImpl<u64> for &r64 {
    open spec fn obeys_div_spec() -> bool {
        true
    }

    open spec fn div_req(self, rhs: u64) -> bool {
        (*self).div_int_fits(rhs as int)
    }

    open spec fn div_spec(self, rhs: u64) -> r64 {
        (*self).spec_div_int(rhs as int)
    }
}

impl core::ops::Div<u64> for &r64 {
    type Output = r64;

    fn div(self, rhs: u64) -> (r: r64) {
        (*self).checked_div_int(rhs as i128).unwrap()
    }
}

impl vstd::std_specs::ops::DivSpecImpl<&u64> for &r64 {
    open spec fn obeys_div_spec() -> bool {
        true
    }

    open spec fn div_req(self, rhs: &u64) -> bool {
        (*self).div_int_fits((*rhs) as int)
    }

    open spec fn div_spec(self, rhs: &u64) -> r64 {
        (*self).spec_div_int((*rhs) as int)
    }
}

impl core::ops::Div<&u64> for &r64 {
    type Output = r64;

    fn div(self, rhs: &u64) -> (r: r64) {
        (*self).checked_div_int((*rhs) as i128).unwrap()
    }
}

impl core::ops::DivAssign<u64> for r64 {
    fn div_assign(&mut self, rhs: u64)
        requires
            old(self).div_int_fits(rhs as int),
        ensures
            *final(self) == old(self).spec_div_int(rhs as int),
    {
        let v = self.checked_div_int(rhs as i128).unwrap();
        *self = v;
    }
}

impl core::ops::DivAssign<&u64> for r64 {
    fn div_assign(&mut self, rhs: &u64)
        requires
            old(self).div_int_fits((*rhs) as int),
        ensures
            *final(self) == old(self).spec_div_int((*rhs) as int),
    {
        let v = self.checked_div_int((*rhs) as i128).unwrap();
        *self = v;
    }
}

impl vstd::std_specs::ops::MulSpecImpl<r64> for u64 {
    open spec fn obeys_mul_spec() -> bool {
        true
    }

    open spec fn mul_req(self, rhs: r64) -> bool {
        rhs.mul_int_fits(self as int)
    }

    open spec fn mul_spec(self, rhs: r64) -> r64 {
        rhs.spec_mul_int(self as int)
    }
}

impl core::ops::Mul<r64> for u64 {
    type Output = r64;

    fn mul(self, rhs: r64) -> (r: r64) {
        rhs.checked_mul_int(self as i128).unwrap()
    }
}

impl vstd::std_specs::ops::DivSpecImpl<r64> for u64 {
    open spec fn obeys_div_spec() -> bool {
        true
    }

    open spec fn div_req(self, rhs: r64) -> bool {
        rhs.int_div_fits(self as int)
    }

    open spec fn div_spec(self, rhs: r64) -> r64 {
        rhs.spec_int_div(self as int)
    }
}

impl core::ops::Div<r64> for u64 {
    type Output = r64;

    fn div(self, rhs: r64) -> (r: r64) {
        rhs.checked_int_div(self as i128).unwrap()
    }
}

impl vstd::std_specs::ops::NegSpecImpl for r64 {
    open spec fn obeys_neg_spec() -> bool {
        true
    }

    open spec fn neg_req(self) -> bool {
        self.wf() && self.n > i32::MIN
    }

    open spec fn neg_spec(self) -> r64 {
        r64 { n: (-self.n) as i32, d: self.d }
    }
}

impl core::ops::Neg for r64 {
    type Output = r64;

    fn neg(self) -> (r: r64) {
        r64::neg(self)
    }
}

} // verus!
