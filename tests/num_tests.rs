use maph::num::factors::{
    factorize32, fac32, fac64, gcd16, gcd32, gcd64, is_prime32, lcm16, lcm32, lcm64, prho32,
    sqfac32, sqfac64,
};
use maph::geom::vector::VectorPrecise;
use maph::num::rational::{r32, r64, Error};
use maph::num::surd::{surd32, surd64};
use std::str::FromStr;

fn r(n: i16, d: i16) -> r32 {
    r32::new(n, d).unwrap()
}

#[test]
fn gcd_test() {
    assert!(gcd32(35, 10) == 5);
    assert!(gcd32(156, 36) == 12);
}

#[test]
fn factor_test() {
    assert!(fac32(24) == vec!(2, 2, 2, 3))
}

#[test]
fn sqrt_test() {
    assert!(r32::new(25, 7).unwrap().surd_sqrt().squared() == r32::new(25, 7).unwrap());
}

#[test]
fn rational_test() {
    assert!(r32::from_str("-0.3").unwrap().to_string() == "-3/10");
    let a = ([0.1f32, 0.2, 0.3], [0.4f32, 0.5, 0.6], [0.7f32, 0.8, 0.9]);
    let b = (
        VectorPrecise::<3>::new([r(1, 10), r(2, 10), r(3, 10)]),
        VectorPrecise::<3>::new([r(4, 10), r(5, 10), r(6, 10)]),
        VectorPrecise::<3>::new([r(7, 10), r(8, 10), r(9, 10)]),
    );
    let exact = b.0.vec_mul(b.1.vec_add(b.2)).vec_mul(b.1.recip().unwrap());
    for i in 0..3 {
        let float = a.0[i] * (a.1[i] + a.2[i]) / a.1[i];
        let q = exact.data[i];
        let approx = q.numerator() as f32 / q.denominator() as f32;
        assert!((float - approx).abs() < 0.0001);
    }
}

#[test]
fn gcd_other_widths() {
    assert_eq!(gcd16(156, 36), 12);
    assert_eq!(gcd64(156, 36), 12);
    assert_eq!(gcd32(0, 9), 9);
    assert_eq!(gcd32(9, 0), 9);
}

#[test]
fn lcm_values() {
    assert_eq!(lcm16(4, 6), 12);
    assert_eq!(lcm32(21, 6), 42);
    assert_eq!(lcm64(8, 12), 24);
}

#[test]
fn factors_multiply_back() {
    let f = fac64(360);
    assert_eq!(f.iter().product::<u64>(), 360);
    let mut sorted = fac32(1001);
    sorted.sort();
    assert_eq!(sorted, vec![7, 11, 13]);
}

#[test]
fn rho_splits_composite() {
    let (a, b) = prho32(91);
    assert_eq!(a * b, 91);
    assert!(a > 1 && b > 1);
    assert_eq!(prho32(24), (2, 12));
    assert_eq!(prho32(13), (13, 1));
    assert_eq!(prho32(1), (1, 1));
    assert_eq!(prho32(0), (2, 0));
}

#[test]
fn factorize_reports_primes() {
    let mut v = factorize32(24).unwrap();
    v.sort();
    assert_eq!(v, vec![2, 2, 2, 3]);
    assert_eq!(factorize32(97).unwrap(), vec![97]);
    assert!(factorize32(1).is_err());
    assert_eq!(is_prime32(97), Some(true));
    assert_eq!(is_prime32(91), Some(false));
}

#[test]
fn square_factors() {
    assert_eq!(sqfac32(36), vec![(2, 4), (3, 9)]);
    // 72 = 2^3 * 3^2: the factor of even multiplicity first, then the square left in 2^3.
    assert_eq!(sqfac32(72), vec![(3, 9), (2, 4)]);
    assert_eq!(sqfac32(8), vec![(2, 4)]);
    assert_eq!(sqfac64(7), vec![]);
}

#[test]
fn canonical_form() {
    let q = r(6, -4);
    assert_eq!(q.numerator(), -3);
    assert_eq!(q.denominator(), 2);
    let z = r(0, -7);
    assert_eq!((z.numerator(), z.denominator()), (0, 1));
}

#[test]
fn construction_errors() {
    assert_eq!(r32::new(1, 0), Err(Error::DivideByZero));
    assert_eq!(r32::new(-32768, 1).unwrap().numerator(), -32768);
    assert_eq!(r32::new(-32768, -1), Err(Error::Overflow));
    assert_eq!(r32::new(-32768, 1).unwrap().abs(), None);
    assert_eq!(r(0, 1).reciprocal(), Err(Error::DivideByZero));
    assert_eq!(r32::from_str("1.2x"), Err(Error::ParseInt));
    assert_eq!(r32::int_dec(true, "0", "00001"), Err(Error::Overflow));
    assert_eq!(r32::int_dec(true, "1", "23456"), Err(Error::ParseInt));
    assert_eq!(r64::int_dec(true, "", ""), Err(Error::ParseInt));
}

#[test]
fn arithmetic_values() {
    let a = r(1, 2);
    let b = r(1, 3);
    assert_eq!(a + b, r(5, 6));
    assert_eq!(a - b, r(1, 6));
    assert_eq!(a * b, r(1, 6));
    assert_eq!(a / b, r(3, 2));
    assert_eq!(-a, r(-1, 2));
    assert_eq!(a * 4i32, r(2, 1));
    assert_eq!(a / 2u32, r(1, 4));
    assert_eq!(3i32 / a, r(6, 1));
    let mut c = a;
    c += b;
    c *= r(6, 1);
    assert_eq!(c, r(5, 1));
}

#[test]
fn arithmetic_laws() {
    let samples = [r(1, 2), r(-3, 7), r(5, 9), r(-11, 4), r(0, 1), r(13, 6)];
    for x in samples.iter() {
        for y in samples.iter() {
            assert_eq!(*x + *y, *y + *x);
            assert_eq!(*x * *y, *y * *x);
        }
        assert_eq!(*x + (-*x), r(0, 1));
        if x.numerator() != 0 {
            assert_eq!(*x * x.reciprocal().unwrap(), r(1, 1));
        }
    }
}

#[test]
fn ordering_by_value() {
    assert!(r(1, 3) < r(1, 2));
    assert!(r(-1, 2) < r(1, 3));
    assert!(r(2, 4) == r(1, 2));
}

#[test]
fn parse_and_print() {
    assert_eq!(r64::parse("12.50").unwrap().to_string(), "25/2");
    assert_eq!(r64::parse("-7").unwrap().to_string(), "-7/1");
    assert_eq!(r32::int_dec(false, "0", "3").unwrap(), r(-3, 10));
}

#[test]
fn surd_canonical() {
    let s = surd32::new(r(1, 1), 36);
    assert_eq!(s.rational(), Some(r(6, 1)));
    let t = surd64::new(r64::new(1, 1).unwrap(), 72);
    assert_eq!(t.coef(), r64::new(6, 1).unwrap());
    assert_eq!(t.radicand(), 2);
    let u = surd64::new(r64::new(1, 1).unwrap(), 12);
    assert_eq!((u.coef(), u.radicand()), (r64::new(2, 1).unwrap(), 3));
    let e = surd32::new(r(1, 1), 8);
    assert_eq!((e.coef(), e.radicand()), (r(2, 1), 2));
    let q = r(25, 7).surd_sqrt();
    assert_eq!((q.coef(), q.radicand()), (r(5, 7), 7));
    assert_eq!(surd32::new(r(1, 1), 7).rational(), None);
}

#[test]
fn surd_squared_unit() {
    for k in [2u32, 3, 5, 6, 7, 10, 11] {
        let s = surd32 { coef: r(1, 1), radicand: k };
        assert_eq!(s.squared(), r(k as i16, 1));
    }
}

#[test]
fn surd_products() {
    let a = surd32::new(r(1, 1), 2);
    let b = surd32::new(r(1, 1), 8);
    assert_eq!((a * b).rational(), Some(r(4, 1)));
    let c = surd32::new(r(3, 1), 5) / surd32::new(r(1, 1), 5);
    assert_eq!(c.rational(), Some(r(3, 1)));
    assert_eq!((-a).coef(), r(-1, 1));
}
