//! Greatest common divisors, least common multiples and factoring.
use vstd::arithmetic::div_mod::*;
use vstd::arithmetic::mul::*;
use vstd::prelude::*;

verus! {

/// The greatest common divisor, by Euclid's algorithm.
pub open spec fn spec_gcd(a: nat, b: nat) -> nat
    decreases a,
{
    if a == 0 {
        b
    } else {
        spec_gcd(b % a, a)
    }
}

/// `g` divides `a` and `b`, and is positive unless both are zero.
pub proof fn lemma_gcd_divides(a: nat, b: nat)
    ensures
        (a > 0 || b > 0) ==> spec_gcd(a, b) > 0,
        spec_gcd(a, b) > 0 ==> a % spec_gcd(a, b) == 0 && b % spec_gcd(a, b) == 0,
        spec_gcd(a, b) <= b || b == 0,
    decreases a,
{
    if a > 0 {
        lemma_gcd_divides(b % a, a);
        let g = spec_gcd(a, b);
        lemma_fundamental_div_mod(b as int, a as int);
        let q = b as int / a as int;
        let r = b as int % a as int;
        assert(a % g == 0);
        assert(r % (g as int) == 0);
        lemma_mod_multiples_basic(q * (a as int / g as int), g as int);
        lemma_fundamental_div_mod(a as int, g as int);
        lemma_fundamental_div_mod(r, g as int);
        assert(b == a * q + r);
        assert(b == (q * (a as int / g as int) + r / g as int) * g) by (nonlinear_arith)
            requires
                b == a * q + r,
                a == g * (a as int / g as int),
                r == g * (r / g as int);
        lemma_mod_multiples_basic(q * (a as int / g as int) + r / g as int, g as int);
        if b > 0 {
            lemma_mod_is_zero(b, g);
        }
    }
}

/// Scaling both arguments scales the greatest common divisor.
pub proof fn lemma_gcd_scale(k: nat, a: nat, b: nat)
    requires
        k > 0,
    ensures
        spec_gcd(k * a, k * b) == k * spec_gcd(a, b),
    decreases a,
{
    if a == 0 {
        assert(k * a == 0) by (nonlinear_arith)
            requires a == 0;
    } else {
        assert(k * a > 0) by (nonlinear_arith)
            requires k > 0, a > 0;
        lemma_fundamental_div_mod(b as int, a as int);
        let q = b as int / a as int;
        let r = b as int % a as int;
        assert((k * b) as int == q * (k * a) + k * r) by (nonlinear_arith)
            requires b == q * a + r;
        assert(0 <= k * r < k * a) by (nonlinear_arith)
            requires 0 <= r < a, k > 0;
        lemma_fundamental_div_mod_converse((k * b) as int, (k * a) as int, q, (k * r) as int);
        assert((k * b) % (k * a) == k * (b % a));
        lemma_gcd_scale(k, b % a, a);
    }
}

/// Dividing out the greatest common divisor leaves coprime parts.
pub proof fn lemma_gcd_reduced(a: nat, b: nat)
    requires
        a > 0 || b > 0,
    ensures
        spec_gcd(a, b) > 0,
        spec_gcd(a / spec_gcd(a, b), b / spec_gcd(a, b)) == 1,
        a == spec_gcd(a, b) * (a / spec_gcd(a, b)),
        b == spec_gcd(a, b) * (b / spec_gcd(a, b)),
{
    lemma_gcd_divides(a, b);
    let g = spec_gcd(a, b);
    lemma_fundamental_div_mod(a as int, g as int);
    lemma_fundamental_div_mod(b as int, g as int);
    let a1 = a / g;
    let b1 = b / g;
    assert(g * a1 == a && g * b1 == b) by (nonlinear_arith)
        requires a == a1 * g, b == b1 * g;
    lemma_gcd_scale(g, a1, b1);
    assert(g * spec_gcd(a1, b1) == g * 1);
    lemma_mul_equality_converse(g as int, spec_gcd(a1, b1) as int, 1);
}

/// `gcd(0, b) == b` and `gcd(a, 0) == a`.
pub proof fn lemma_gcd_zero(a: nat)
    ensures
        spec_gcd(0, a) == a,
        spec_gcd(a, 0) == a,
{
    if a > 0 {
        assert(0nat % a == 0) by {
            lemma_small_mod(0, a);
        }
        assert(spec_gcd(a, 0) == spec_gcd(0, a));
    }
}

/// The greatest common divisor does not depend on the order of its arguments.
pub proof fn lemma_gcd_comm(a: nat, b: nat)
    ensures
        spec_gcd(a, b) == spec_gcd(b, a),
{
    lemma_gcd_zero(a);
    lemma_gcd_zero(b);
    if a > 0 && b > 0 && a != b {
        if a < b {
            lemma_small_mod(a, b);
            assert(spec_gcd(b, a) == spec_gcd(a % b, b));
        } else {
            lemma_small_mod(b, a);
            assert(spec_gcd(a, b) == spec_gcd(b % a, a));
        }
    }
}

/// `gcd(1, k) == 1` and `gcd(k, 1) == 1`.
pub proof fn lemma_gcd_one(k: nat)
    ensures
        spec_gcd(1, k) == 1,
        spec_gcd(k, 1) == 1,
{
    assert(k % 1 == 0) by {
        lemma_mod_self_0(1);
        lemma_mod_multiples_basic(k as int, 1);
    }
    assert(spec_gcd(1, k) == spec_gcd(0, 1));
    lemma_gcd_zero(1);
    lemma_gcd_comm(k, 1);
}

/// `gcd(a, a) == a`.
pub proof fn lemma_gcd_self(a: nat)
    ensures
        spec_gcd(a, a) == a,
{
    if a > 0 {
        lemma_mod_self_0(a as int);
        lemma_gcd_zero(a);
    }
}

///Returns the greatest common divisor of two u16s.
pub fn gcd16(a: u16, b: u16) -> (r: u16)
    ensures
        r == spec_gcd(a as nat, b as nat),
{
    let mut a0 = a;
    let mut b0 = b;
    while a0 != 0
        invariant
            spec_gcd(a0 as nat, b0 as nat) == spec_gcd(a as nat, b as nat),
        decreases a0,
    {
        let a1 = b0 % a0;
        b0 = a0;
        a0 = a1;
    }
    b0
}

///Returns the greatest common divisor of two u32s.
pub fn gcd32(a: u32, b: u32) -> (r: u32)
    ensures
        r == spec_gcd(a as nat, b as nat),
{
    let mut a0 = a;
    let mut b0 = b;
    while a0 != 0
        invariant
            spec_gcd(a0 as nat, b0 as nat) == spec_gcd(a as nat, b as nat),
        decreases a0,
    {
        let a1 = b0 % a0;
        b0 = a0;
        a0 = a1;
    }
    b0
}

///Returns the greatest common divisor of two u64s.
pub fn gcd64(a: u64, b: u64) -> (r: u64)
    ensures
        r == spec_gcd(a as nat, b as nat),
{
    let mut a0 = a;
    let mut b0 = b;
    while a0 != 0
        invariant
            spec_gcd(a0 as nat, b0 as nat) == spec_gcd(a as nat, b as nat),
        decreases a0,
    {
        let a1 = b0 % a0;
        b0 = a0;
        a0 = a1;
    }
    b0
}

/// The greatest common divisor of two u128s.
pub fn gcd128(a: u128, b: u128) -> (r: u128)
    ensures
        r == spec_gcd(a as nat, b as nat),
{
    let mut a0 = a;
    let mut b0 = b;
    while a0 != 0
        invariant
            spec_gcd(a0 as nat, b0 as nat) == spec_gcd(a as nat, b as nat),
        decreases a0,
    {
        let a1 = b0 % a0;
        b0 = a0;
        a0 = a1;
    }
    b0
}

///Returns the lowest common multiple of two u16s; their product must fit.
pub fn lcm16(a: u16, b: u16) -> (r: u16)
    requires
        a > 0 || b > 0,
        a * b <= u16::MAX,
    ensures
        spec_gcd(a as nat, b as nat) > 0,
        r == (a * b) as nat / spec_gcd(a as nat, b as nat),
{
    proof {
        lemma_gcd_divides(a as nat, b as nat);
    }
    (a * b) / gcd16(a, b)
}

///Returns the lowest common multiple of two u32s; their product must fit.
pub fn lcm32(a: u32, b: u32) -> (r: u32)
    requires
        a > 0 || b > 0,
        a * b <= u32::MAX,
    ensures
        spec_gcd(a as nat, b as nat) > 0,
        r == (a * b) as nat / spec_gcd(a as nat, b as nat),
{
    proof {
        lemma_gcd_divides(a as nat, b as nat);
    }
    (a * b) / gcd32(a, b)
}

///Returns the lowest common multiple of two u64s; their product must fit.
pub fn lcm64(a: u64, b: u64) -> (r: u64)
    requires
        a > 0 || b > 0,
        a * b <= u64::MAX,
    ensures
        spec_gcd(a as nat, b as nat) > 0,
        r == (a * b) as nat / spec_gcd(a as nat, b as nat),
{
    proof {
        lemma_gcd_divides(a as nat, b as nat);
    }
    (a * b) / gcd64(a, b)
}

/// Bezout's identity: the greatest common divisor is an integer combination of the two.
pub proof fn lemma_bezout(a: nat, b: nat) -> (r: (int, int))
    ensures
        a * r.0 + b * r.1 == spec_gcd(a, b),
    decreases a,
{
    if a == 0 {
        (0, 1)
    } else {
        let (x1, y1) = lemma_bezout(b % a, a);
        lemma_fundamental_div_mod(b as int, a as int);
        let q = b as int / a as int;
        assert((b % a) as int == b - a * q);
        assert(a * (y1 - q * x1) + b * x1 == (b - a * q) * x1 + a * y1) by (nonlinear_arith);
        (y1 - q * x1, x1)
    }
}

/// Euclid's lemma: a divisor of `a * c` coprime to `a` divides `c`.
pub proof fn lemma_euclid(a: nat, b: nat, c: int)
    requires
        b > 0,
        spec_gcd(a, b) == 1,
        (a * c) % (b as int) == 0,
    ensures
        c % (b as int) == 0,
{
    let (x, y) = lemma_bezout(a, b);
    lemma_fundamental_div_mod(a * c, b as int);
    let m = (a * c) / (b as int);
    assert(a * c == b * m);
    assert(c == b * (m * x + c * y)) by (nonlinear_arith)
        requires a * x + b * y == 1, a * c == b * m;
    lemma_mod_multiples_basic(m * x + c * y, b as int);
    assert(b * (m * x + c * y) == (m * x + c * y) * b) by (nonlinear_arith);
}

/// A fraction has one form in lowest terms with a positive denominator.
pub proof fn lemma_canonical_unique(n1: int, d1: int, n2: int, d2: int)
    requires
        d1 > 0,
        d2 > 0,
        spec_gcd(abs(n1), d1 as nat) == 1,
        spec_gcd(abs(n2), d2 as nat) == 1,
        n1 * d2 == n2 * d1,
    ensures
        n1 == n2,
        d1 == d2,
{
    assert(abs(n1) * d2 == abs(n2) * d1) by (nonlinear_arith)
        requires n1 * d2 == n2 * d1, d1 > 0, d2 > 0, abs(n1) == (if n1 < 0 { -n1 } else { n1 }), abs(n2)
            == (if n2 < 0 { -n2 } else { n2 });
    // d1 divides |n1| * d2
    lemma_mod_multiples_basic(abs(n2) as int, d1);
    assert((abs(n1) * d2) % d1 == 0) by {
        assert(abs(n2) * d1 == d1 * abs(n2)) by (nonlinear_arith);
    }
    lemma_euclid(abs(n1), d1 as nat, d2);
    lemma_mod_multiples_basic(abs(n1) as int, d2);
    assert((abs(n2) * d1) % d2 == 0) by {
        assert(abs(n1) * d2 == d2 * abs(n1)) by (nonlinear_arith);
    }
    lemma_euclid(abs(n2), d2 as nat, d1);
    lemma_fundamental_div_mod(d2, d1);
    lemma_fundamental_div_mod(d1, d2);
    let t1 = d2 / d1;
    let t2 = d1 / d2;
    assert(d1 == d2) by (nonlinear_arith)
        requires d2 == d1 * t1, d1 == d2 * t2, d1 > 0, d2 > 0;
    assert(n1 == n2) by (nonlinear_arith)
        requires n1 * d2 == n2 * d1, d1 == d2, d1 > 0;
}

/// Reducing a fraction keeps its value.
pub proof fn lemma_reduced_value(n: int, d: int)
    requires
        d != 0,
    ensures
        reduced_num(n, d) * d == n * reduced_den(n, d),
{
    lemma_gcd_reduced(abs(n), abs(d));
    let g = spec_gcd(abs(n), abs(d)) as int;
    let p = abs(n) as int / g;
    let q = abs(d) as int / g;
    assert(abs(n) == g * p && abs(d) == g * q);
    let rn = reduced_num(n, d);
    assert(rn == (if (n < 0) != (d < 0) { -p } else { p }));
    assert(reduced_den(n, d) == q);
    assert(rn * d == n * q) by (nonlinear_arith)
        requires
            rn == (if (n < 0) != (d < 0) { -p } else { p }),
            abs(n) == g * p,
            abs(d) == g * q,
            abs(n) == (if n < 0 { -n } else { n }),
            abs(d) == (if d < 0 { -d } else { d }),
            d != 0;
}

/// Absolute value of an integer.
pub open spec fn abs(x: int) -> nat {
    if x < 0 {
        (-x) as nat
    } else {
        x as nat
    }
}

/// Numerator of `n/d` in lowest terms, with the sign carried by the numerator.
pub open spec fn reduced_num(n: int, d: int) -> int {
    let m = (abs(n) / spec_gcd(abs(n), abs(d))) as int;
    if (n < 0) != (d < 0) {
        -m
    } else {
        m
    }
}

/// Denominator of `n/d` in lowest terms (positive).
pub open spec fn reduced_den(n: int, d: int) -> int {
    (abs(d) / spec_gcd(abs(n), abs(d))) as int
}

/// Scaling a fraction's two terms leaves its lowest terms unchanged.
pub proof fn lemma_reduced_scale(k: int, n: int, d: int)
    requires
        k > 0,
        d != 0,
    ensures
        reduced_num(k * n, k * d) == reduced_num(n, d),
        reduced_den(k * n, k * d) == reduced_den(n, d),
{
    assert(abs(k * n) == k * abs(n) && abs(k * d) == k * abs(d)) by (nonlinear_arith)
        requires k > 0;
    assert((k * n < 0) == (n < 0) && (k * d < 0) == (d < 0)) by (nonlinear_arith)
        requires k > 0;
    lemma_gcd_scale(k as nat, abs(n), abs(d));
    lemma_gcd_reduced(abs(n), abs(d));
    let g = spec_gcd(abs(n), abs(d)) as int;
    let qn = abs(n) as int / g;
    let qd = abs(d) as int / g;
    assert(k * abs(n) == (k * g) * qn) by (nonlinear_arith)
        requires abs(n) == g * qn;
    assert(k * abs(d) == (k * g) * qd) by (nonlinear_arith)
        requires abs(d) == g * qd;
    assert(k * g > 0) by (nonlinear_arith)
        requires k > 0, g > 0;
    lemma_div_multiples_vanish(qn, k * g);
    lemma_div_multiples_vanish(qd, k * g);
    assert(((k * g) * qn) / (k * g) == qn);
    assert(((k * g) * qd) / (k * g) == qd);
}

/// The lowest terms of a fraction are coprime, with a positive denominator.
pub proof fn lemma_reduced_coprime(n: int, d: int)
    requires
        d != 0,
    ensures
        reduced_den(n, d) > 0,
        spec_gcd(abs(reduced_num(n, d)), reduced_den(n, d) as nat) == 1,
        abs(reduced_num(n, d)) <= abs(n),
        reduced_den(n, d) <= abs(d),
        n == 0 ==> reduced_num(n, d) == 0 && reduced_den(n, d) == 1,
{
    lemma_gcd_reduced(abs(n), abs(d));
    let g = spec_gcd(abs(n), abs(d)) as int;
    assert(abs(n) as int / g <= abs(n)) by {
        lemma_div_is_ordered_by_denominator(abs(n) as int, 1, g);
    }
    assert(abs(d) as int / g <= abs(d)) by {
        lemma_div_is_ordered_by_denominator(abs(d) as int, 1, g);
    }
    assert(abs(d) as int / g > 0) by (nonlinear_arith)
        requires abs(d) == g * (abs(d) as int / g), abs(d) > 0, g > 0;
    if n == 0 {
        lemma_gcd_zero(abs(d));
        lemma_div_basics(abs(d) as int);
    }
}


/// Pollard's rho attempts (different polynomial constants) before giving up on a number.
pub const FAC_ITER: u64 = 100;

/// Steps of one rho attempt before giving it up.
pub const RHO_STEPS: u64 = 1048576;

/// Largest trial divisor tried when deciding primality.
pub const TRIAL_LIMIT: u64 = 1048576;

/// One step of a rho sequence: `x² + c` modulo `n`.
pub open spec fn rho_next(n: nat, c: nat, x: nat) -> nat {
    (x * x + c) % n
}

/// The slow and the fast value of rho attempt `c` on `n` after `t` steps, both starting at
/// 2; the fast one moves two steps for each step of the slow one.
pub open spec fn rho_xy(n: nat, c: nat, t: nat) -> (nat, nat)
    decreases t,
{
    if t == 0 {
        (2, 2)
    } else {
        let p = rho_xy(n, c, (t - 1) as nat);
        (rho_next(n, c, p.0), rho_next(n, c, rho_next(n, c, p.1)))
    }
}

/// The greatest common divisor of `n` and the distance of the two values after `t` steps.
pub open spec fn rho_d(n: nat, c: nat, t: nat) -> nat {
    let p = rho_xy(n, c, t);
    spec_gcd(abs(p.0 as int - p.1 as int), n)
}

/// What attempt `c` finds from step `t` on: the first `rho_d` other than 1 at a step up to
/// `RHO_STEPS`, or 1 when there is none.
pub open spec fn rho_search(n: nat, c: nat, t: nat) -> nat
    decreases (RHO_STEPS + 1) as int - t as int,
{
    if t > RHO_STEPS {
        1
    } else if rho_d(n, c, t) != 1 {
        rho_d(n, c, t)
    } else {
        rho_search(n, c, t + 1)
    }
}

/// What rho attempt `c` on `n` finds.
pub open spec fn rho_attempt(n: nat, c: nat) -> nat {
    rho_search(n, c, 1)
}

/// Every rho attempt `c < FAC_ITER` on `n` fails: it finds 1 or `n` itself.
pub open spec fn rho_fails(n: nat) -> bool {
    forall|c: nat| c < FAC_ITER ==> #[trigger] rho_attempt(n, c) == 1 || rho_attempt(n, c) == n
}

/// A factor left whole: 1, a prime, or beyond the trial bound with every rho attempt failed.
pub open spec fn settled(n: nat) -> bool {
    n == 1 || is_prime(n) || (n > TRIAL_LIMIT * TRIAL_LIMIT && rho_fails(n))
}

/// 2, 3 and 5 divide `n` only when `n` is that number itself.
pub open spec fn unsplit(n: nat) -> bool {
    &&& n % 2 == 0 ==> n == 2
    &&& n % 3 == 0 ==> n == 3
    &&& n % 5 == 0 ==> n == 5
}

/// No square greater than one divides `n`.
pub open spec fn square_free(n: nat) -> bool {
    forall|k: nat| k > 1 ==> #[trigger] (n % (k * k)) != 0
}

/// `n` is composite, or too large for trial division to show it prime.
pub open spec fn unproved_prime(n: nat) -> bool {
    !is_prime(n) || n > TRIAL_LIMIT * TRIAL_LIMIT
}

/// `n` is prime.
pub open spec fn is_prime(n: nat) -> bool {
    n > 1 && forall|k: nat| 1 < k < n ==> #[trigger] (n % k) != 0
}

/// The product of a sequence of numbers.
pub open spec fn product32(s: Seq<u32>) -> nat
    decreases s.len(),
{
    if s.len() == 0 {
        1
    } else {
        product32(s.drop_last()) * s.last() as nat
    }
}

/// The product of the second components (the squares) of a sequence of pairs.
pub open spec fn sq_product32(s: Seq<(u32, u32)>) -> nat
    decreases s.len(),
{
    if s.len() == 0 {
        1
    } else {
        sq_product32(s.drop_last()) * s.last().1 as nat
    }
}

/// Every entry is prime and within the trial bound.
pub open spec fn all_proved_prime32(s: Seq<u32>) -> bool {
    forall|i: int| 0 <= i < s.len() ==> !#[trigger] unproved_prime(s[i] as nat)
}

///Pollard's rho for a u32, with 2, 3 and 5 tried first. Three outcomes:
///a split `(a, n / a)` with `1 < a < n`; `(n, 1)` when `n` has no divisor (it is prime, or
///1); and `(0, 0)` when the search is exhausted: every rho attempt failed and `n` is beyond
///the trial-division bound that would otherwise settle it. `0` gives `(2, 0)`.
pub fn prho32(n: u32) -> (r: (u32, u32))
    ensures
        n == 0 ==> r == (2 as u32, 0 as u32),
        n > 0 ==> (r == (0 as u32, 0 as u32) || r.1 == 1 || (r.0 > 1 && r.1 > 1)),
        n > 0 && r.1 == 1 ==> r.0 == n && (n == 1 || is_prime(n as nat)),
        r.0 > 1 && r.1 > 1 ==> r.0 * r.1 == n,
        r == (0 as u32, 0 as u32) ==> n > TRIAL_LIMIT * TRIAL_LIMIT && rho_fails(n as nat),
        n % 2 == 0 && n > 2 ==> r == (2 as u32, (n / 2) as u32),
        n % 2 != 0 && n % 3 == 0 && n > 3 ==> r == (3 as u32, (n / 3) as u32),
        n % 2 != 0 && n % 3 != 0 && n % 5 == 0 && n > 5 ==> r == (5 as u32, (n / 5) as u32),
{
    if n == 0 {
        return (2, 0);
    }
    if n == 1 {
        return (1, 1);
    }
    if n == 2 || n == 3 || n == 5 {
        assert(is_prime(n as nat)) by {
            assert forall|k: nat| 1 < k < n implies #[trigger] (n as nat % k) != 0 by {
                if n == 5 {
                    assert(k == 2 || k == 3 || k == 4);
                }
            }
        }
        return (n, 1);
    }
    if n % 2 == 0 {
        assert(n / 2 > 1);
        return (2, n / 2);
    } else if n % 3 == 0 {
        assert(n / 3 > 1);
        return (3, n / 3);
    } else if n % 5 == 0 {
        assert(n / 5 > 1);
        return (5, n / 5);
    }
    assert(n >= 7);
    let m = n as u64;
    let mut attempt: u64 = 0;
    while attempt < FAC_ITER
        invariant
            m == n,
            n >= 7,
            n % 2 != 0,
            n % 3 != 0,
            n % 5 != 0,
            forall|c: nat| c < attempt ==> #[trigger] rho_attempt(n as nat, c) == 1 || rho_attempt(
                n as nat,
                c,
            ) == n,
        decreases FAC_ITER - attempt,
    {
        let mut x: u64 = 2;
        let mut y: u64 = 2;
        let mut d: u32 = 1;
        let mut diff: u64 = 0;
        let mut steps: u64 = 0;
        while d == 1 && steps < RHO_STEPS
            invariant
                m == n,
                n >= 7,
                x < m,
                y < m,
                attempt < FAC_ITER,
                steps <= RHO_STEPS,
                diff < m,
                x as nat == rho_xy(n as nat, attempt as nat, steps as nat).0,
                y as nat == rho_xy(n as nat, attempt as nat, steps as nat).1,
                d == 1 || d == spec_gcd(diff as nat, n as nat),
                d == 1 ==> rho_attempt(n as nat, attempt as nat) == rho_search(
                    n as nat,
                    attempt as nat,
                    (steps + 1) as nat,
                ),
                d != 1 ==> rho_attempt(n as nat, attempt as nat) == d,
            decreases RHO_STEPS - steps,
        {
            assert(x * x <= (m - 1) * (m - 1) && y * y <= (m - 1) * (m - 1)) by (nonlinear_arith)
                requires x < m, y < m;
            assert((m - 1) * (m - 1) <= (u32::MAX as int) * (u32::MAX as int)) by (nonlinear_arith)
                requires m <= u32::MAX;
            x = (x * x + attempt as u64) % m;
            y = (y * y + attempt as u64) % m;
            assert(y * y <= (m - 1) * (m - 1)) by (nonlinear_arith)
                requires y < m;
            y = (y * y + attempt as u64) % m;
            diff = if x > y { x - y } else { y - x };
            d = gcd32(diff as u32, n);
            steps = steps + 1;
            proof {
                assert(diff as nat == abs(x as int - y as int));
                assert(d == rho_d(n as nat, attempt as nat, steps as nat));
            }
        }
        proof {
            lemma_gcd_divides(diff as nat, n as nat);
        }
        if d > 1 && d != n {
            proof {
                lemma_fundamental_div_mod(n as int, d as int);
                assert(d < n);
                assert(n / d > 1) by (nonlinear_arith)
                    requires n == d * (n / d), d < n, d > 1;
            }
            return (d, n / d);
        }
        attempt = attempt + 1;
    }
    match smallest_factor32(n) {
        Some(k) => {
            if k == n {
                (n, 1)
            } else {
                proof {
                    lemma_fundamental_div_mod(n as int, k as int);
                    assert(n / k > 1) by (nonlinear_arith)
                        requires n == k * (n / k), k < n, k > 1;
                }
                (k, n / k)
            }
        },
        None => (0, 0),
    }
}

///Trial division: the smallest divisor of `n` greater than one (`n` itself when it is
///prime), or `None` when finding it would take more than the trial budget.
pub fn smallest_factor32(n: u32) -> (r: Option<u32>)
    requires
        n >= 2,
    ensures
        r matches Some(k) ==> 1 < k <= n && n % k == 0 && (k == n ==> is_prime(n as nat)),
        r is None ==> n > TRIAL_LIMIT * TRIAL_LIMIT,
{
    let m = n as u64;
    let mut k: u64 = 2;
    while k * k <= m
        invariant
            m == n,
            n >= 2,
            2 <= k <= TRIAL_LIMIT + 1,
            k * k <= 0x200_0000_0000,
            forall|j: nat| 1 < j < k ==> #[trigger] (n as nat % j) != 0,
            n <= TRIAL_LIMIT * TRIAL_LIMIT ==> (k - 1) * (k - 1) <= n,
        decreases m + 1 - k,
    {
        if k > TRIAL_LIMIT as u64 {
            assert(n > TRIAL_LIMIT * TRIAL_LIMIT) by (nonlinear_arith)
                requires k * k <= n, k > TRIAL_LIMIT;
            return None;
        }
        assert((k + 1) * (k + 1) <= 0x200_0000_0000) by (nonlinear_arith)
            requires k <= 1048576;
        if m % k == 0 {
            assert(k < n) by (nonlinear_arith)
                requires k * k <= n, k >= 2;
            return Some(k as u32);
        }
        assert(k <= m) by (nonlinear_arith)
            requires k * k <= m, k >= 2;
        k = k + 1;
    }
    proof {
        assert forall|j: nat| 1 < j < n implies #[trigger] (n as nat % j) != 0 by {
            if n as nat % j == 0 && j >= k {
                lemma_fundamental_div_mod(n as int, j as int);
                let q = n as int / j as int;
                assert(q * j == n);
                assert(q < k) by (nonlinear_arith)
                    requires q * j == n, j >= k, n < k * k, k > 0, q >= 0;
                assert(q > 1) by (nonlinear_arith)
                    requires q * j == n, j < n, j > 1;
                lemma_mod_multiples_basic(j as int, q);
                assert((n as nat) % (q as nat) == 0) by {
                    assert(j * q == n) by (nonlinear_arith)
                        requires q * j == n;
                }
            }
        }
        lemma_mod_self_0(n as int);
    }
    Some(n)
}

proof fn lemma_product32_push(s: Seq<u32>, x: u32)
    ensures
        product32(s.push(x)) == product32(s) * x,
{
    assert(s.push(x).drop_last() =~= s);
}

proof fn lemma_product32_prefix(s: Seq<u32>, i: int)
    requires
        0 <= i < s.len(),
    ensures
        product32(s.subrange(0, i + 1)) == product32(s.subrange(0, i)) * s[i],
{
    assert(s.subrange(0, i + 1).drop_last() =~= s.subrange(0, i));
}

///Returns factors of a u32 whose product is `n`, splitting with Pollard's rho until no
///factor splits further; in particular 2, 3 and 5 are divided out completely. A factor that
///resisted splitting is not necessarily prime: see `factorize32`.
pub fn fac32(n: u32) -> (r: Vec<u32>)
    requires
        n > 0,
    ensures
        r@.len() > 0,
        product32(r@) == n,
        forall|i: int| 0 <= i < r@.len() ==> #[trigger] r@[i] >= 1,
        n > 1 ==> forall|i: int| 0 <= i < r@.len() ==> #[trigger] r@[i] > 1,
        forall|i: int| 0 <= i < r@.len() ==> #[trigger] unsplit(r@[i] as nat),
        forall|i: int| 0 <= i < r@.len() ==> #[trigger] settled(r@[i] as nat) && r@[i] <= n,
{
    let mut v: Vec<u32> = Vec::new();
    if n == 1 {
        v.push(1);
        assert(v@.drop_last() =~= Seq::<u32>::empty());
        assert(product32(v@) == product32(v@.drop_last()) * v@.last() as nat);
        return v;
    }
    v.push(n);
    proof {
        assert(v@.drop_last() =~= Seq::<u32>::empty());
        assert(product32(v@.drop_last()) == 1);
        assert(v@.last() == n);
        assert(v@.len() == 1);
        assert(product32(v@) == product32(v@.drop_last()) * v@.last() as nat);
        assert(product32(v@) == n);
    }
    let mut running = true;
    let mut rounds: u32 = 0;
    while running && rounds < 64
        invariant
            v@.len() > 0,
            product32(v@) == n,
            forall|i: int| 0 <= i < v@.len() ==> #[trigger] v@[i] >= 1,
            n > 1 ==> forall|i: int| 0 <= i < v@.len() ==> #[trigger] v@[i] > 1,
            running ==> v@.len() >= rounds + 1,
            !running ==> forall|i: int| 0 <= i < v@.len() ==> #[trigger] unsplit(v@[i] as nat),
            !running ==> forall|i: int| 0 <= i < v@.len() ==> #[trigger] settled(v@[i] as nat),
            forall|i: int| 0 <= i < v@.len() ==> #[trigger] v@[i] <= n,
        decreases 64 - rounds,
    {
        running = false;
        let mut v0: Vec<u32> = Vec::new();
        let mut i: usize = 0;
        while i < v.len()
            invariant
                0 <= i <= v@.len(),
                v@.len() > 0,
                product32(v@) == n,
                forall|j: int| 0 <= j < v@.len() ==> #[trigger] v@[j] >= 1,
                n > 1 ==> forall|j: int| 0 <= j < v@.len() ==> #[trigger] v@[j] > 1,
                i > 0 ==> v0@.len() > 0,
                product32(v0@) == product32(v@.subrange(0, i as int)),
                forall|j: int| 0 <= j < v0@.len() ==> #[trigger] v0@[j] >= 1,
                n > 1 ==> forall|j: int| 0 <= j < v0@.len() ==> #[trigger] v0@[j] > 1,
                v0@.len() >= i,
                running ==> v0@.len() >= i + 1,
                !running ==> forall|j: int| 0 <= j < v0@.len() ==> #[trigger] unsplit(v0@[j] as nat),
                !running ==> forall|j: int| 0 <= j < v0@.len() ==> #[trigger] settled(v0@[j] as nat),
                forall|j: int| 0 <= j < v@.len() ==> #[trigger] v@[j] <= n,
                forall|j: int| 0 <= j < v0@.len() ==> #[trigger] v0@[j] <= n,
            decreases v@.len() - i,
        {
            let n0 = v[i];
            proof {
                lemma_product32_prefix(v@, i as int);
            }
            let (a, b) = prho32(n0);
            if (a == 0 && b == 0) || a == 1 || b == 1 {
                proof {
                    lemma_product32_push(v0@, n0);
                    assert(unsplit(n0 as nat));
                    assert(settled(n0 as nat));
                }
                let ghost old_v0 = v0@;
                v0.push(n0);
                assert(forall|j: int| 0 <= j < old_v0.len() ==> v0@[j] == old_v0[j]);
            } else {
                proof {
                    lemma_product32_push(v0@, a);
                    lemma_product32_push(v0@.push(a), b);
                    assert(b > 1) by (nonlinear_arith)
                        requires a * b == n0, n0 >= 1, b != 1;
                    assert(product32(v0@) * a * b == product32(v0@) * n0) by (nonlinear_arith)
                        requires a * b == n0;
                    assert(a <= n0 && b <= n0) by (nonlinear_arith)
                        requires a * b == n0, a > 1, b > 1;
                }
                v0.push(a);
                v0.push(b);
                running = true;
            }
            i = i + 1;
        }
        assert(v@.subrange(0, v@.len() as int) =~= v@);
        v = v0;
        rounds = rounds + 1;
    }
    proof {
        if running {
            lemma_product32_pow2(v@);
            vstd::arithmetic::power2::lemma2_to64();
            vstd::arithmetic::power2::lemma_pow2_strictly_increases(64, v@.len());
        }
    }
    v
}

/// Factors of `n`, all at least two, number at most the base-two logarithm of their product.
proof fn lemma_product32_pow2(s: Seq<u32>)
    requires
        forall|i: int| 0 <= i < s.len() ==> #[trigger] s[i] > 1,
    ensures
        product32(s) >= vstd::arithmetic::power2::pow2(s.len()),
    decreases s.len(),
{
    if s.len() > 0 {
        lemma_product32_pow2(s.drop_last());
        vstd::arithmetic::power2::lemma_pow2_unfold(s.len());
        assert(s.last() > 1);
        assert(product32(s.drop_last()) * s.last() as nat >= vstd::arithmetic::power2::pow2(
            (s.len() - 1) as nat,
        ) * 2) by (nonlinear_arith)
            requires
                product32(s.drop_last()) >= vstd::arithmetic::power2::pow2((s.len() - 1) as nat),
                s.last() >= 2;
    } else {
        vstd::arithmetic::power2::lemma_pow2(0);
        vstd::arithmetic::power::lemma_pow0(2);
    }
}

///Trial division: `Some(true)` when `n` is prime, `Some(false)` when it is not, and `None`
///when deciding would take more than the trial budget.
pub fn is_prime32(n: u32) -> (r: Option<bool>)
    ensures
        r matches Some(b) ==> b == is_prime(n as nat),
        n <= TRIAL_LIMIT * TRIAL_LIMIT ==> r.is_some(),
{
    if n < 2 {
        return Some(false);
    }
    let m = n as u64;
    let mut k: u64 = 2;
    while k * k <= m
        invariant
            m == n,
            n >= 2,
            2 <= k <= TRIAL_LIMIT + 1,
            k * k <= 0x200_0000_0000,
            forall|j: nat| 1 < j < k ==> #[trigger] (n as nat % j) != 0,
            n <= TRIAL_LIMIT * TRIAL_LIMIT ==> (k - 1) * (k - 1) <= n,
        decreases m + 1 - k,
    {
        if k > TRIAL_LIMIT as u64 {
            assert(n > TRIAL_LIMIT * TRIAL_LIMIT) by (nonlinear_arith)
                requires k * k <= n, k > TRIAL_LIMIT;
            return None;
        }
        assert((k + 1) * (k + 1) <= 0x200_0000_0000) by (nonlinear_arith)
            requires k <= 1048576;
        if m % k == 0 {
            assert(k < n) by (nonlinear_arith)
                requires k * k <= n, k >= 2;
            return Some(false);
        }
        assert(k <= m) by (nonlinear_arith)
            requires k * k <= m, k >= 2;
        k = k + 1;
    }
    proof {
        assert forall|j: nat| 1 < j < n implies #[trigger] (n as nat % j) != 0 by {
            if n as nat % j == 0 && j >= k {
                lemma_fundamental_div_mod(n as int, j as int);
                let q = n as int / j as int;
                assert(q * j == n);
                assert(q < k) by (nonlinear_arith)
                    requires q * j == n, j >= k, n < k * k, k > 0, q >= 0;
                assert(q > 1) by (nonlinear_arith)
                    requires q * j == n, j < n, j > 1;
                lemma_mod_multiples_basic(j as int, q);
                assert((n as nat) % (q as nat) == 0) by {
                    assert(j * q == n) by (nonlinear_arith)
                        requires q * j == n;
                }
            }
        }
    }
    Some(true)
}

///Factors a u32 completely: `Ok` with prime factors whose product is `n`, or `Err` with
///the factors found when some factor could not be shown prime: one beyond the trial bound on
///which every rho attempt failed. For `n` up to the square of the trial bound
///the result is `Ok`, except for 1, which has no prime factors.
pub fn factorize32(n: u32) -> (r: Result<Vec<u32>, Vec<u32>>)
    requires
        n > 0,
    ensures
        r matches Ok(v) ==> product32(v@) == n && forall|i: int|
            0 <= i < v@.len() ==> is_prime(#[trigger] v@[i] as nat),
        r matches Err(v) ==> product32(v@) == n,
        r matches Err(v) ==> !all_proved_prime32(v@),
        n > 1 && n <= TRIAL_LIMIT * TRIAL_LIMIT ==> r is Ok,
{
    let v = fac32(n);
    let mut i: usize = 0;
    while i < v.len()
        invariant
            i <= v@.len(),
            product32(v@) == n,
            forall|j: int| 0 <= j < v@.len() ==> #[trigger] settled(v@[j] as nat) && v@[j] <= n,
            n > 1 ==> forall|j: int| 0 <= j < v@.len() ==> #[trigger] v@[j] > 1,
            forall|j: int| 0 <= j < i ==> is_prime(#[trigger] v@[j] as nat),
        decreases v@.len() - i,
    {
        match is_prime32(v[i]) {
            Some(true) => {},
            _ => {
                assert(settled(v@[i as int] as nat) && v@[i as int] <= n);
                assert(n > 1 ==> v@[i as int] > 1);
                assert(!(n > 1 && n <= TRIAL_LIMIT * TRIAL_LIMIT));
                assert(unproved_prime(v@[i as int] as nat));
                assert(!all_proved_prime32(v@));
                return Err(v);
            },
        }
        i = i + 1;
    }
    Ok(v)
}

///Returns the square factors of a u32: for each factor that `fac32` finds an even number
///of times, the pair of its root and its square, then the square part of what is left, so
///that dividing `n` by all the squares leaves it square-free.
pub fn sqfac32(n: u32) -> (r: Vec<(u32, u32)>)
    requires
        n > 0,
    ensures
        forall|i: int|
            0 <= i < r@.len() ==> #[trigger] r@[i].1 == r@[i].0 * r@[i].0 && r@[i].0 > 1,
        sq_product32(r@) > 0,
        n as nat % sq_product32(r@) == 0,
        square_free(n as nat / sq_product32(r@)),
{
    let f = fac32(n);
    let mut counts: Vec<(u32, usize)> = Vec::new();
    let mut i: usize = 0;
    while i < f.len()
        invariant
            i <= f@.len(),
            forall|j: int| 0 <= j < counts@.len() ==> #[trigger] counts@[j].1 <= i,
        decreases f@.len() - i,
    {
        let fac = f[i];
        assert(i + 1 <= usize::MAX);
        let mut found = false;
        let mut j: usize = 0;
        while j < counts.len()
            invariant
                i < f@.len(),
                i + 1 <= usize::MAX,
                j <= counts@.len(),
                forall|k: int| 0 <= k < counts@.len() ==> #[trigger] counts@[k].1 <= i + 1,
                !found ==> forall|k: int| 0 <= k < counts@.len() ==> #[trigger] counts@[k].1 <= i,
                forall|k: int| j <= k < counts@.len() ==> #[trigger] counts@[k].1 <= i,
            decreases counts@.len() - j,
        {
            let (f0, c) = counts[j];
            if f0 == fac && !found {
                counts.set(j, (f0, c + 1));
                found = true;
            }
            j = j + 1;
        }
        if !found {
            counts.push((fac, 1));
        }
        i = i + 1;
    }
    let mut out: Vec<(u32, u32)> = Vec::new();
    let mut rest: u32 = n;
    let mut k: usize = 0;
    assert(sq_product32(out@) == 1);
    while k < counts.len()
        invariant
            rest > 0,
            rest as nat * sq_product32(out@) == n,
            forall|i: int|
                0 <= i < out@.len() ==> #[trigger] out@[i].1 == out@[i].0 * out@[i].0 && out@[i].0
                    > 1,
        decreases counts@.len() - k,
    {
        let (fac, c) = counts[k];
        if c % 2 == 0 && fac > 1 {
            let mut root: u64 = 1;
            let mut e: usize = 0;
            assert(1 <= rest as u64 * (fac as u64)) by (nonlinear_arith)
                requires rest >= 1, fac >= 1;
            while e < c / 2 && root <= rest as u64
                invariant
                    1 <= root,
                    root <= rest as u64 * (fac as u64),
                    rest as u64 <= u32::MAX,
                    fac as u64 <= u32::MAX,
                    fac > 1,
                    rest > 0,
                decreases c / 2 - e,
            {
                assert(root * fac <= (u32::MAX as int) * (u32::MAX as int)) by (nonlinear_arith)
                    requires root <= rest, rest <= u32::MAX, fac <= u32::MAX;
                assert(1 <= root * fac) by (nonlinear_arith)
                    requires 1 <= root, 1 <= fac;
                assert(root * fac <= rest * fac) by (nonlinear_arith)
                    requires root <= rest, 1 <= fac;
                root = root * fac as u64;
                e = e + 1;
            }
            if root > 1 && root <= rest as u64 {
                assert(root * root <= (u32::MAX as int) * (u32::MAX as int)) by (nonlinear_arith)
                    requires root <= rest, rest <= u32::MAX;
                let sq = root * root;
                assert(sq > 0) by (nonlinear_arith)
                    requires sq == root * root, root > 1;
                if sq <= rest as u64 && (rest as u64) % sq == 0 {
                    let ghost old_out = out@;
                    let ghost old_rest = rest;
                    out.push((root as u32, sq as u32));
                    rest = ((rest as u64) / sq) as u32;
                    proof {
                        assert(out@.drop_last() =~= old_out);
                        assert(root <= u32::MAX && sq <= u32::MAX);
                        assert(forall|i: int| 0 <= i < old_out.len() ==> out@[i] == old_out[i]);
                        assert(out@[old_out.len() as int] == (root as u32, sq as u32));
                        lemma_fundamental_div_mod(old_rest as int, sq as int);
                        assert(sq * ((old_rest as u64) / sq) == old_rest);
                        assert(rest * sq == old_rest) by (nonlinear_arith)
                            requires sq * rest == old_rest;
                        assert(rest > 0) by (nonlinear_arith)
                            requires rest * sq == old_rest, old_rest > 0, sq > 0, rest >= 0;
                        assert(rest as nat * sq_product32(out@) == n) by (nonlinear_arith)
                            requires
                                sq_product32(out@) == sq_product32(old_out) * sq,
                                old_rest as nat * sq_product32(old_out) == n,
                                rest * sq == old_rest;
                    }
                }
            }
        }
        k = k + 1;
    }
    let (s2, rest2) = square_part32(rest);
    if s2 > 1 {
        let ghost old_out = out@;
        assert(s2 * s2 <= rest) by (nonlinear_arith)
            requires s2 * s2 * rest2 == rest, rest2 >= 1, s2 >= 1;
        out.push((s2, s2 * s2));
        proof {
            assert(out@.drop_last() =~= old_out);
            assert forall|i: int|
                0 <= i < out@.len() implies #[trigger] out@[i].1 == out@[i].0 * out@[i].0 && out@[i].0
                    > 1 by {
                if i < old_out.len() {
                    assert(out@[i] == old_out[i]);
                } else {
                    assert(out@[i].0 == s2 && out@[i].1 == s2 * s2);
                }
            }
            assert(rest2 as nat * sq_product32(out@) == n) by (nonlinear_arith)
                requires
                    sq_product32(out@) == sq_product32(old_out) * (s2 * s2),
                    rest as nat * sq_product32(old_out) == n,
                    s2 * s2 * rest2 == rest;
        }
        rest = rest2;
    } else {
        assert(rest2 == rest) by (nonlinear_arith)
            requires s2 * s2 * rest2 == rest, s2 == 1;
    }
    proof {
        assert(sq_product32(out@) > 0) by (nonlinear_arith)
            requires rest as nat * sq_product32(out@) == n, n > 0;
        lemma_mod_multiples_basic(rest as int, sq_product32(out@) as int);
        assert(rest as nat * sq_product32(out@) == sq_product32(out@) * rest as nat) by (nonlinear_arith);
        lemma_div_multiples_vanish(rest as int, sq_product32(out@) as int);
    }
    assert(forall|i: int|
        0 <= i < out@.len() ==> #[trigger] out@[i].1 == out@[i].0 * out@[i].0 && out@[i].0 > 1);
    out
}

///Splits `n` into `s² · rest` with `rest` square-free, by trial division with the
///squares of 2, 3, 4, ... up to `rest`.
pub fn square_part32(n: u32) -> (r: (u32, u32))
    requires
        n > 0,
    ensures
        r.0 >= 1,
        r.1 >= 1,
        r.0 * r.0 * r.1 == n,
        square_free(r.1 as nat),
{
    let mut rest: u32 = n;
    let mut s: u32 = 1;
    let mut k: u64 = 2;
    while k * k <= rest as u64
        invariant
            rest >= 1,
            s >= 1,
            s * s * rest == n,
            2 <= k,
            rest <= n,
            (k - 1) * (k - 1) <= n,
            k * k <= 3 * n + 1,
            forall|j: nat| 1 < j < k ==> #[trigger] ((rest as nat) % (j * j)) != 0,
        decreases n + 1 - k,
    {
        assert(k <= rest && k <= n) by (nonlinear_arith)
            requires k * k <= rest, k >= 2, rest <= n;
        let kk = k * k;
        assert(kk >= 4) by (nonlinear_arith)
            requires kk == k * k, k >= 2;
        let ghost rest_k = rest;
        while (rest as u64) % kk == 0
            invariant
                rest >= 1,
                s >= 1,
                s * s * rest == n,
                2 <= k,
                k <= n,
                kk == k * k,
                kk >= 4,
                k * k <= rest_k,
                rest_k <= n,
                rest <= rest_k,
                forall|j: nat| 1 < j < k ==> #[trigger] ((rest as nat) % (j * j)) != 0,
            decreases rest,
        {
            let q = (rest as u64) / kk;
            proof {
                lemma_fundamental_div_mod(rest as int, kk as int);
                assert(rest == kk * q);
                assert(q >= 1) by (nonlinear_arith)
                    requires rest == kk * q, rest >= 1, kk > 0, q >= 0;
                assert((s * k) * (s * k) * q == n) by (nonlinear_arith)
                    requires s * s * rest == n, rest == kk * q, kk == k * k;
                assert(s <= s * k <= n) by (nonlinear_arith)
                    requires (s * k) * (s * k) * q == n, q >= 1, s >= 1, k >= 2;
                assert(q < rest) by (nonlinear_arith)
                    requires rest == kk * q, kk >= 4, q >= 1;
                assert forall|j: nat| 1 < j < k implies #[trigger] ((q as nat) % (j * j)) != 0 by {
                    if (q as nat) % (j * j) == 0 {
                        assert(j * j > 0) by (nonlinear_arith)
                            requires j > 1;
                        lemma_fundamental_div_mod(q as int, (j * j) as int);
                        let t = q as int / (j * j) as int;
                        assert(rest as int == (j * j) * (t * kk)) by (nonlinear_arith)
                            requires rest == kk * q, q == (j * j) * t;
                        lemma_mod_multiples_basic(t * kk, (j * j) as int);
                        assert((t * kk) * (j * j) == (j * j) * (t * kk)) by (nonlinear_arith);
                    }
                }
            }
            s = s * k as u32;
            rest = q as u32;
        }
        proof {
            assert forall|j: nat| 1 < j < k + 1 implies #[trigger] ((rest as nat) % (j * j)) != 0 by {
                if j < k {
                } else {
                    assert(j * j == kk);
                }
            }
        }
        assert((k + 1) * (k + 1) <= 3 * n + 1) by (nonlinear_arith)
            requires k * k <= n, k <= n;
        k = k + 1;
    }
    proof {
        assert forall|j: nat| j > 1 implies #[trigger] ((rest as nat) % (j * j)) != 0 by {
            if j >= k {
                assert(j * j > rest) by (nonlinear_arith)
                    requires j >= k, k * k > rest, k >= 2;
                lemma_small_mod(rest as nat, j * j);
            }
        }
    }
    (s, rest)
}

/// The product of a sequence of numbers.
pub open spec fn product64(s: Seq<u64>) -> nat
    decreases s.len(),
{
    if s.len() == 0 {
        1
    } else {
        product64(s.drop_last()) * s.last() as nat
    }
}

/// The product of the second components (the squares) of a sequence of pairs.
pub open spec fn sq_product64(s: Seq<(u64, u64)>) -> nat
    decreases s.len(),
{
    if s.len() == 0 {
        1
    } else {
        sq_product64(s.drop_last()) * s.last().1 as nat
    }
}

/// Every entry is prime and within the trial bound.
pub open spec fn all_proved_prime64(s: Seq<u64>) -> bool {
    forall|i: int| 0 <= i < s.len() ==> !#[trigger] unproved_prime(s[i] as nat)
}

///Pollard's rho for a u64, with 2, 3 and 5 tried first. Three outcomes:
///a split `(a, n / a)` with `1 < a < n`; `(n, 1)` when `n` has no divisor (it is prime, or
///1); and `(0, 0)` when the search is exhausted: every rho attempt failed and `n` is beyond
///the trial-division bound that would otherwise settle it. `0` gives `(2, 0)`.
pub fn prho64(n: u64) -> (r: (u64, u64))
    ensures
        n == 0 ==> r == (2 as u64, 0 as u64),
        n > 0 ==> (r == (0 as u64, 0 as u64) || r.1 == 1 || (r.0 > 1 && r.1 > 1)),
        n > 0 && r.1 == 1 ==> r.0 == n && (n == 1 || is_prime(n as nat)),
        r.0 > 1 && r.1 > 1 ==> r.0 * r.1 == n,
        r == (0 as u64, 0 as u64) ==> n > TRIAL_LIMIT * TRIAL_LIMIT && rho_fails(n as nat),
        n % 2 == 0 && n > 2 ==> r == (2 as u64, (n / 2) as u64),
        n % 2 != 0 && n % 3 == 0 && n > 3 ==> r == (3 as u64, (n / 3) as u64),
        n % 2 != 0 && n % 3 != 0 && n % 5 == 0 && n > 5 ==> r == (5 as u64, (n / 5) as u64),
{
    if n == 0 {
        return (2, 0);
    }
    if n == 1 {
        return (1, 1);
    }
    if n == 2 || n == 3 || n == 5 {
        assert(is_prime(n as nat)) by {
            assert forall|k: nat| 1 < k < n implies #[trigger] (n as nat % k) != 0 by {
                if n == 5 {
                    assert(k == 2 || k == 3 || k == 4);
                }
            }
        }
        return (n, 1);
    }
    if n % 2 == 0 {
        assert(n / 2 > 1);
        return (2, n / 2);
    } else if n % 3 == 0 {
        assert(n / 3 > 1);
        return (3, n / 3);
    } else if n % 5 == 0 {
        assert(n / 5 > 1);
        return (5, n / 5);
    }
    assert(n >= 7);
    let m = n as u128;
    let mut attempt: u64 = 0;
    while attempt < FAC_ITER
        invariant
            m == n,
            n >= 7,
            n % 2 != 0,
            n % 3 != 0,
            n % 5 != 0,
            forall|c: nat| c < attempt ==> #[trigger] rho_attempt(n as nat, c) == 1 || rho_attempt(
                n as nat,
                c,
            ) == n,
        decreases FAC_ITER - attempt,
    {
        let mut x: u128 = 2;
        let mut y: u128 = 2;
        let mut d: u64 = 1;
        let mut diff: u128 = 0;
        let mut steps: u64 = 0;
        while d == 1 && steps < RHO_STEPS
            invariant
                m == n,
                n >= 7,
                x < m,
                y < m,
                attempt < FAC_ITER,
                steps <= RHO_STEPS,
                diff < m,
                x as nat == rho_xy(n as nat, attempt as nat, steps as nat).0,
                y as nat == rho_xy(n as nat, attempt as nat, steps as nat).1,
                d == 1 || d == spec_gcd(diff as nat, n as nat),
                d == 1 ==> rho_attempt(n as nat, attempt as nat) == rho_search(
                    n as nat,
                    attempt as nat,
                    (steps + 1) as nat,
                ),
                d != 1 ==> rho_attempt(n as nat, attempt as nat) == d,
            decreases RHO_STEPS - steps,
        {
            assert(x * x <= (m - 1) * (m - 1) && y * y <= (m - 1) * (m - 1)) by (nonlinear_arith)
                requires x < m, y < m;
            assert((m - 1) * (m - 1) <= (u64::MAX as int) * (u64::MAX as int)) by (nonlinear_arith)
                requires m <= u64::MAX;
            x = (x * x + attempt as u128) % m;
            y = (y * y + attempt as u128) % m;
            assert(y * y <= (m - 1) * (m - 1)) by (nonlinear_arith)
                requires y < m;
            y = (y * y + attempt as u128) % m;
            diff = if x > y { x - y } else { y - x };
            d = gcd64(diff as u64, n);
            steps = steps + 1;
            proof {
                assert(diff as nat == abs(x as int - y as int));
                assert(d == rho_d(n as nat, attempt as nat, steps as nat));
            }
        }
        proof {
            lemma_gcd_divides(diff as nat, n as nat);
        }
        if d > 1 && d != n {
            proof {
                lemma_fundamental_div_mod(n as int, d as int);
                assert(d < n);
                assert(n / d > 1) by (nonlinear_arith)
                    requires n == d * (n / d), d < n, d > 1;
            }
            return (d, n / d);
        }
        attempt = attempt + 1;
    }
    match smallest_factor64(n) {
        Some(k) => {
            if k == n {
                (n, 1)
            } else {
                proof {
                    lemma_fundamental_div_mod(n as int, k as int);
                    assert(n / k > 1) by (nonlinear_arith)
                        requires n == k * (n / k), k < n, k > 1;
                }
                (k, n / k)
            }
        },
        None => (0, 0),
    }
}

///Trial division: the smallest divisor of `n` greater than one (`n` itself when it is
///prime), or `None` when finding it would take more than the trial budget.
pub fn smallest_factor64(n: u64) -> (r: Option<u64>)
    requires
        n >= 2,
    ensures
        r matches Some(k) ==> 1 < k <= n && n % k == 0 && (k == n ==> is_prime(n as nat)),
        r is None ==> n > TRIAL_LIMIT * TRIAL_LIMIT,
{
    let m = n as u128;
    let mut k: u128 = 2;
    while k * k <= m
        invariant
            m == n,
            n >= 2,
            2 <= k <= TRIAL_LIMIT + 1,
            k * k <= 0x200_0000_0000,
            forall|j: nat| 1 < j < k ==> #[trigger] (n as nat % j) != 0,
            n <= TRIAL_LIMIT * TRIAL_LIMIT ==> (k - 1) * (k - 1) <= n,
        decreases m + 1 - k,
    {
        if k > TRIAL_LIMIT as u128 {
            assert(n > TRIAL_LIMIT * TRIAL_LIMIT) by (nonlinear_arith)
                requires k * k <= n, k > TRIAL_LIMIT;
            return None;
        }
        assert((k + 1) * (k + 1) <= 0x200_0000_0000) by (nonlinear_arith)
            requires k <= 1048576;
        if m % k == 0 {
            assert(k < n) by (nonlinear_arith)
                requires k * k <= n, k >= 2;
            return Some(k as u64);
        }
        assert(k <= m) by (nonlinear_arith)
            requires k * k <= m, k >= 2;
        k = k + 1;
    }
    proof {
        assert forall|j: nat| 1 < j < n implies #[trigger] (n as nat % j) != 0 by {
            if n as nat % j == 0 && j >= k {
                lemma_fundamental_div_mod(n as int, j as int);
                let q = n as int / j as int;
                assert(q * j == n);
                assert(q < k) by (nonlinear_arith)
                    requires q * j == n, j >= k, n < k * k, k > 0, q >= 0;
                assert(q > 1) by (nonlinear_arith)
                    requires q * j == n, j < n, j > 1;
                lemma_mod_multiples_basic(j as int, q);
                assert((n as nat) % (q as nat) == 0) by {
                    assert(j * q == n) by (nonlinear_arith)
                        requires q * j == n;
                }
            }
        }
        lemma_mod_self_0(n as int);
    }
    Some(n)
}

proof fn lemma_product64_push(s: Seq<u64>, x: u64)
    ensures
        product64(s.push(x)) == product64(s) * x,
{
    assert(s.push(x).drop_last() =~= s);
}

proof fn lemma_product64_prefix(s: Seq<u64>, i: int)
    requires
        0 <= i < s.len(),
    ensures
        product64(s.subrange(0, i + 1)) == product64(s.subrange(0, i)) * s[i],
{
    assert(s.subrange(0, i + 1).drop_last() =~= s.subrange(0, i));
}

///Returns factors of a u64 whose product is `n`, splitting with Pollard's rho until no
///factor splits further; in particular 2, 3 and 5 are divided out completely. A factor that
///resisted splitting is not necessarily prime: see `factorize64`.
pub fn fac64(n: u64) -> (r: Vec<u64>)
    requires
        n > 0,
    ensures
        r@.len() > 0,
        product64(r@) == n,
        forall|i: int| 0 <= i < r@.len() ==> #[trigger] r@[i] >= 1,
        n > 1 ==> forall|i: int| 0 <= i < r@.len() ==> #[trigger] r@[i] > 1,
        forall|i: int| 0 <= i < r@.len() ==> #[trigger] unsplit(r@[i] as nat),
        forall|i: int| 0 <= i < r@.len() ==> #[trigger] settled(r@[i] as nat) && r@[i] <= n,
{
    let mut v: Vec<u64> = Vec::new();
    if n == 1 {
        v.push(1);
        assert(v@.drop_last() =~= Seq::<u64>::empty());
        assert(product64(v@) == product64(v@.drop_last()) * v@.last() as nat);
        return v;
    }
    v.push(n);
    proof {
        assert(v@.drop_last() =~= Seq::<u64>::empty());
        assert(product64(v@.drop_last()) == 1);
        assert(v@.last() == n);
        assert(v@.len() == 1);
        assert(product64(v@) == product64(v@.drop_last()) * v@.last() as nat);
        assert(product64(v@) == n);
    }
    let mut running = true;
    let mut rounds: u64 = 0;
    while running && rounds < 64
        invariant
            v@.len() > 0,
            product64(v@) == n,
            forall|i: int| 0 <= i < v@.len() ==> #[trigger] v@[i] >= 1,
            n > 1 ==> forall|i: int| 0 <= i < v@.len() ==> #[trigger] v@[i] > 1,
            running ==> v@.len() >= rounds + 1,
            !running ==> forall|i: int| 0 <= i < v@.len() ==> #[trigger] unsplit(v@[i] as nat),
            !running ==> forall|i: int| 0 <= i < v@.len() ==> #[trigger] settled(v@[i] as nat),
            forall|i: int| 0 <= i < v@.len() ==> #[trigger] v@[i] <= n,
        decreases 64 - rounds,
    {
        running = false;
        let mut v0: Vec<u64> = Vec::new();
        let mut i: usize = 0;
        while i < v.len()
            invariant
                0 <= i <= v@.len(),
                v@.len() > 0,
                product64(v@) == n,
                forall|j: int| 0 <= j < v@.len() ==> #[trigger] v@[j] >= 1,
                n > 1 ==> forall|j: int| 0 <= j < v@.len() ==> #[trigger] v@[j] > 1,
                i > 0 ==> v0@.len() > 0,
                product64(v0@) == product64(v@.subrange(0, i as int)),
                forall|j: int| 0 <= j < v0@.len() ==> #[trigger] v0@[j] >= 1,
                n > 1 ==> forall|j: int| 0 <= j < v0@.len() ==> #[trigger] v0@[j] > 1,
                v0@.len() >= i,
                running ==> v0@.len() >= i + 1,
                !running ==> forall|j: int| 0 <= j < v0@.len() ==> #[trigger] unsplit(v0@[j] as nat),
                !running ==> forall|j: int| 0 <= j < v0@.len() ==> #[trigger] settled(v0@[j] as nat),
                forall|j: int| 0 <= j < v@.len() ==> #[trigger] v@[j] <= n,
                forall|j: int| 0 <= j < v0@.len() ==> #[trigger] v0@[j] <= n,
            decreases v@.len() - i,
        {
            let n0 = v[i];
            proof {
                lemma_product64_prefix(v@, i as int);
            }
            let (a, b) = prho64(n0);
            if (a == 0 && b == 0) || a == 1 || b == 1 {
                proof {
                    lemma_product64_push(v0@, n0);
                    assert(unsplit(n0 as nat));
                    assert(settled(n0 as nat));
                }
                let ghost old_v0 = v0@;
                v0.push(n0);
                assert(forall|j: int| 0 <= j < old_v0.len() ==> v0@[j] == old_v0[j]);
            } else {
                proof {
                    lemma_product64_push(v0@, a);
                    lemma_product64_push(v0@.push(a), b);
                    assert(b > 1) by (nonlinear_arith)
                        requires a * b == n0, n0 >= 1, b != 1;
                    assert(product64(v0@) * a * b == product64(v0@) * n0) by (nonlinear_arith)
                        requires a * b == n0;
                    assert(a <= n0 && b <= n0) by (nonlinear_arith)
                        requires a * b == n0, a > 1, b > 1;
                }
                v0.push(a);
                v0.push(b);
                running = true;
            }
            i = i + 1;
        }
        assert(v@.subrange(0, v@.len() as int) =~= v@);
        v = v0;
        rounds = rounds + 1;
    }
    proof {
        if running {
            lemma_product64_pow2(v@);
            vstd::arithmetic::power2::lemma2_to64();
            vstd::arithmetic::power2::lemma_pow2_strictly_increases(64, v@.len());
        }
    }
    v
}

/// Factors of `n`, all at least two, number at most the base-two logarithm of their product.
proof fn lemma_product64_pow2(s: Seq<u64>)
    requires
        forall|i: int| 0 <= i < s.len() ==> #[trigger] s[i] > 1,
    ensures
        product64(s) >= vstd::arithmetic::power2::pow2(s.len()),
    decreases s.len(),
{
    if s.len() > 0 {
        lemma_product64_pow2(s.drop_last());
        vstd::arithmetic::power2::lemma_pow2_unfold(s.len());
        assert(s.last() > 1);
        assert(product64(s.drop_last()) * s.last() as nat >= vstd::arithmetic::power2::pow2(
            (s.len() - 1) as nat,
        ) * 2) by (nonlinear_arith)
            requires
                product64(s.drop_last()) >= vstd::arithmetic::power2::pow2((s.len() - 1) as nat),
                s.last() >= 2;
    } else {
        vstd::arithmetic::power2::lemma_pow2(0);
        vstd::arithmetic::power::lemma_pow0(2);
    }
}

///Trial division: `Some(true)` when `n` is prime, `Some(false)` when it is not, and `None`
///when deciding would take more than the trial budget.
pub fn is_prime64(n: u64) -> (r: Option<bool>)
    ensures
        r matches Some(b) ==> b == is_prime(n as nat),
        n <= TRIAL_LIMIT * TRIAL_LIMIT ==> r.is_some(),
{
    if n < 2 {
        return Some(false);
    }
    let m = n as u128;
    let mut k: u128 = 2;
    while k * k <= m
        invariant
            m == n,
            n >= 2,
            2 <= k <= TRIAL_LIMIT + 1,
            k * k <= 0x200_0000_0000,
            forall|j: nat| 1 < j < k ==> #[trigger] (n as nat % j) != 0,
            n <= TRIAL_LIMIT * TRIAL_LIMIT ==> (k - 1) * (k - 1) <= n,
        decreases m + 1 - k,
    {
        if k > TRIAL_LIMIT as u128 {
            assert(n > TRIAL_LIMIT * TRIAL_LIMIT) by (nonlinear_arith)
                requires k * k <= n, k > TRIAL_LIMIT;
            return None;
        }
        assert((k + 1) * (k + 1) <= 0x200_0000_0000) by (nonlinear_arith)
            requires k <= 1048576;
        if m % k == 0 {
            assert(k < n) by (nonlinear_arith)
                requires k * k <= n, k >= 2;
            return Some(false);
        }
        assert(k <= m) by (nonlinear_arith)
            requires k * k <= m, k >= 2;
        k = k + 1;
    }
    proof {
        assert forall|j: nat| 1 < j < n implies #[trigger] (n as nat % j) != 0 by {
            if n as nat % j == 0 && j >= k {
                lemma_fundamental_div_mod(n as int, j as int);
                let q = n as int / j as int;
                assert(q * j == n);
                assert(q < k) by (nonlinear_arith)
                    requires q * j == n, j >= k, n < k * k, k > 0, q >= 0;
                assert(q > 1) by (nonlinear_arith)
                    requires q * j == n, j < n, j > 1;
                lemma_mod_multiples_basic(j as int, q);
                assert((n as nat) % (q as nat) == 0) by {
                    assert(j * q == n) by (nonlinear_arith)
                        requires q * j == n;
                }
            }
        }
    }
    Some(true)
}

///Factors a u64 completely: `Ok` with prime factors whose product is `n`, or `Err` with
///the factors found when some factor could not be shown prime: one beyond the trial bound on
///which every rho attempt failed. For `n` up to the square of the trial bound
///the result is `Ok`, except for 1, which has no prime factors.
pub fn factorize64(n: u64) -> (r: Result<Vec<u64>, Vec<u64>>)
    requires
        n > 0,
    ensures
        r matches Ok(v) ==> product64(v@) == n && forall|i: int|
            0 <= i < v@.len() ==> is_prime(#[trigger] v@[i] as nat),
        r matches Err(v) ==> product64(v@) == n,
        r matches Err(v) ==> !all_proved_prime64(v@),
        n > 1 && n <= TRIAL_LIMIT * TRIAL_LIMIT ==> r is Ok,
{
    let v = fac64(n);
    let mut i: usize = 0;
    while i < v.len()
        invariant
            i <= v@.len(),
            product64(v@) == n,
            forall|j: int| 0 <= j < v@.len() ==> #[trigger] settled(v@[j] as nat) && v@[j] <= n,
            n > 1 ==> forall|j: int| 0 <= j < v@.len() ==> #[trigger] v@[j] > 1,
            forall|j: int| 0 <= j < i ==> is_prime(#[trigger] v@[j] as nat),
        decreases v@.len() - i,
    {
        match is_prime64(v[i]) {
            Some(true) => {},
            _ => {
                assert(settled(v@[i as int] as nat) && v@[i as int] <= n);
                assert(n > 1 ==> v@[i as int] > 1);
                assert(!(n > 1 && n <= TRIAL_LIMIT * TRIAL_LIMIT));
                assert(unproved_prime(v@[i as int] as nat));
                assert(!all_proved_prime64(v@));
                return Err(v);
            },
        }
        i = i + 1;
    }
    Ok(v)
}

///Returns the square factors of a u64: for each factor that `fac64` finds an even number
///of times, the pair of its root and its square, then the square part of what is left, so
///that dividing `n` by all the squares leaves it square-free.
pub fn sqfac64(n: u64) -> (r: Vec<(u64, u64)>)
    requires
        n > 0,
    ensures
        forall|i: int|
            0 <= i < r@.len() ==> #[trigger] r@[i].1 == r@[i].0 * r@[i].0 && r@[i].0 > 1,
        sq_product64(r@) > 0,
        n as nat % sq_product64(r@) == 0,
        square_free(n as nat / sq_product64(r@)),
{
    let f = fac64(n);
    let mut counts: Vec<(u64, usize)> = Vec::new();
    let mut i: usize = 0;
    while i < f.len()
        invariant
            i <= f@.len(),
            forall|j: int| 0 <= j < counts@.len() ==> #[trigger] counts@[j].1 <= i,
        decreases f@.len() - i,
    {
        let fac = f[i];
        assert(i + 1 <= usize::MAX);
        let mut found = false;
        let mut j: usize = 0;
        while j < counts.len()
            invariant
                i < f@.len(),
                i + 1 <= usize::MAX,
                j <= counts@.len(),
                forall|k: int| 0 <= k < counts@.len() ==> #[trigger] counts@[k].1 <= i + 1,
                !found ==> forall|k: int| 0 <= k < counts@.len() ==> #[trigger] counts@[k].1 <= i,
                forall|k: int| j <= k < counts@.len() ==> #[trigger] counts@[k].1 <= i,
            decreases counts@.len() - j,
        {
            let (f0, c) = counts[j];
            if f0 == fac && !found {
                counts.set(j, (f0, c + 1));
                found = true;
            }
            j = j + 1;
        }
        if !found {
            counts.push((fac, 1));
        }
        i = i + 1;
    }
    let mut out: Vec<(u64, u64)> = Vec::new();
    let mut rest: u64 = n;
    let mut k: usize = 0;
    assert(sq_product64(out@) == 1);
    while k < counts.len()
        invariant
            rest > 0,
            rest as nat * sq_product64(out@) == n,
            forall|i: int|
                0 <= i < out@.len() ==> #[trigger] out@[i].1 == out@[i].0 * out@[i].0 && out@[i].0
                    > 1,
        decreases counts@.len() - k,
    {
        let (fac, c) = counts[k];
        if c % 2 == 0 && fac > 1 {
            let mut root: u128 = 1;
            let mut e: usize = 0;
            assert(1 <= rest as u128 * (fac as u128)) by (nonlinear_arith)
                requires rest >= 1, fac >= 1;
            while e < c / 2 && root <= rest as u128
                invariant
                    1 <= root,
                    root <= rest as u128 * (fac as u128),
                    rest as u128 <= u64::MAX,
                    fac as u128 <= u64::MAX,
                    fac > 1,
                    rest > 0,
                decreases c / 2 - e,
            {
                assert(root * fac <= (u64::MAX as int) * (u64::MAX as int)) by (nonlinear_arith)
                    requires root <= rest, rest <= u64::MAX, fac <= u64::MAX;
                assert(1 <= root * fac) by (nonlinear_arith)
                    requires 1 <= root, 1 <= fac;
                assert(root * fac <= rest * fac) by (nonlinear_arith)
                    requires root <= rest, 1 <= fac;
                root = root * fac as u128;
                e = e + 1;
            }
            if root > 1 && root <= rest as u128 {
                assert(root * root <= (u64::MAX as int) * (u64::MAX as int)) by (nonlinear_arith)
                    requires root <= rest, rest <= u64::MAX;
                let sq = root * root;
                assert(sq > 0) by (nonlinear_arith)
                    requires sq == root * root, root > 1;
                if sq <= rest as u128 && (rest as u128) % sq == 0 {
                    let ghost old_out = out@;
                    let ghost old_rest = rest;
                    out.push((root as u64, sq as u64));
                    rest = ((rest as u128) / sq) as u64;
                    proof {
                        assert(out@.drop_last() =~= old_out);
                        assert(root <= u64::MAX && sq <= u64::MAX);
                        assert(forall|i: int| 0 <= i < old_out.len() ==> out@[i] == old_out[i]);
                        assert(out@[old_out.len() as int] == (root as u64, sq as u64));
                        lemma_fundamental_div_mod(old_rest as int, sq as int);
                        assert(sq * ((old_rest as u128) / sq) == old_rest);
                        assert(rest * sq == old_rest) by (nonlinear_arith)
                            requires sq * rest == old_rest;
                        assert(rest > 0) by (nonlinear_arith)
                            requires rest * sq == old_rest, old_rest > 0, sq > 0, rest >= 0;
                        assert(rest as nat * sq_product64(out@) == n) by (nonlinear_arith)
                            requires
                                sq_product64(out@) == sq_product64(old_out) * sq,
                                old_rest as nat * sq_product64(old_out) == n,
                                rest * sq == old_rest;
                    }
                }
            }
        }
        k = k + 1;
    }
    let (s2, rest2) = square_part64(rest);
    if s2 > 1 {
        let ghost old_out = out@;
        assert(s2 * s2 <= rest) by (nonlinear_arith)
            requires s2 * s2 * rest2 == rest, rest2 >= 1, s2 >= 1;
        out.push((s2, s2 * s2));
        proof {
            assert(out@.drop_last() =~= old_out);
            assert forall|i: int|
                0 <= i < out@.len() implies #[trigger] out@[i].1 == out@[i].0 * out@[i].0 && out@[i].0
                    > 1 by {
                if i < old_out.len() {
                    assert(out@[i] == old_out[i]);
                } else {
                    assert(out@[i].0 == s2 && out@[i].1 == s2 * s2);
                }
            }
            assert(rest2 as nat * sq_product64(out@) == n) by (nonlinear_arith)
                requires
                    sq_product64(out@) == sq_product64(old_out) * (s2 * s2),
                    rest as nat * sq_product64(old_out) == n,
                    s2 * s2 * rest2 == rest;
        }
        rest = rest2;
    } else {
        assert(rest2 == rest) by (nonlinear_arith)
            requires s2 * s2 * rest2 == rest, s2 == 1;
    }
    proof {
        assert(sq_product64(out@) > 0) by (nonlinear_arith)
            requires rest as nat * sq_product64(out@) == n, n > 0;
        lemma_mod_multiples_basic(rest as int, sq_product64(out@) as int);
        assert(rest as nat * sq_product64(out@) == sq_product64(out@) * rest as nat) by (nonlinear_arith);
        lemma_div_multiples_vanish(rest as int, sq_product64(out@) as int);
    }
    assert(forall|i: int|
        0 <= i < out@.len() ==> #[trigger] out@[i].1 == out@[i].0 * out@[i].0 && out@[i].0 > 1);
    out
}

///Splits `n` into `s² · rest` with `rest` square-free, by trial division with the
///squares of 2, 3, 4, ... up to `rest`.
pub fn square_part64(n: u64) -> (r: (u64, u64))
    requires
        n > 0,
    ensures
        r.0 >= 1,
        r.1 >= 1,
        r.0 * r.0 * r.1 == n,
        square_free(r.1 as nat),
{
    let mut rest: u64 = n;
    let mut s: u64 = 1;
    let mut k: u128 = 2;
    while k * k <= rest as u128
        invariant
            rest >= 1,
            s >= 1,
            s * s * rest == n,
            2 <= k,
            rest <= n,
            (k - 1) * (k - 1) <= n,
            k * k <= 3 * n + 1,
            forall|j: nat| 1 < j < k ==> #[trigger] ((rest as nat) % (j * j)) != 0,
        decreases n + 1 - k,
    {
        assert(k <= rest && k <= n) by (nonlinear_arith)
            requires k * k <= rest, k >= 2, rest <= n;
        let kk = k * k;
        assert(kk >= 4) by (nonlinear_arith)
            requires kk == k * k, k >= 2;
        let ghost rest_k = rest;
        while (rest as u128) % kk == 0
            invariant
                rest >= 1,
                s >= 1,
                s * s * rest == n,
                2 <= k,
                k <= n,
                kk == k * k,
                kk >= 4,
                k * k <= rest_k,
                rest_k <= n,
                rest <= rest_k,
                forall|j: nat| 1 < j < k ==> #[trigger] ((rest as nat) % (j * j)) != 0,
            decreases rest,
        {
            let q = (rest as u128) / kk;
            proof {
                lemma_fundamental_div_mod(rest as int, kk as int);
                assert(rest == kk * q);
                assert(q >= 1) by (nonlinear_arith)
                    requires rest == kk * q, rest >= 1, kk > 0, q >= 0;
                assert((s * k) * (s * k) * q == n) by (nonlinear_arith)
                    requires s * s * rest == n, rest == kk * q, kk == k * k;
                assert(s <= s * k <= n) by (nonlinear_arith)
                    requires (s * k) * (s * k) * q == n, q >= 1, s >= 1, k >= 2;
                assert(q < rest) by (nonlinear_arith)
                    requires rest == kk * q, kk >= 4, q >= 1;
                assert forall|j: nat| 1 < j < k implies #[trigger] ((q as nat) % (j * j)) != 0 by {
                    if (q as nat) % (j * j) == 0 {
                        assert(j * j > 0) by (nonlinear_arith)
                            requires j > 1;
                        lemma_fundamental_div_mod(q as int, (j * j) as int);
                        let t = q as int / (j * j) as int;
                        assert(rest as int == (j * j) * (t * kk)) by (nonlinear_arith)
                            requires rest == kk * q, q == (j * j) * t;
                        lemma_mod_multiples_basic(t * kk, (j * j) as int);
                        assert((t * kk) * (j * j) == (j * j) * (t * kk)) by (nonlinear_arith);
                    }
                }
            }
            s = s * k as u64;
            rest = q as u64;
        }
        proof {
            assert forall|j: nat| 1 < j < k + 1 implies #[trigger] ((rest as nat) % (j * j)) != 0 by {
                if j < k {
                } else {
                    assert(j * j == kk);
                }
            }
        }
        assert((k + 1) * (k + 1) <= 3 * n + 1) by (nonlinear_arith)
            requires k * k <= n, k <= n;
        k = k + 1;
    }
    proof {
        assert forall|j: nat| j > 1 implies #[trigger] ((rest as nat) % (j * j)) != 0 by {
            if j >= k {
                assert(j * j > rest) by (nonlinear_arith)
                    requires j >= k, k * k > rest, k >= 2;
                lemma_small_mod(rest as nat, j * j);
            }
        }
    }
    (s, rest)
}

} // verus!
