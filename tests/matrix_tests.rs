use maph::geom::matrix::MatrixPrecise;
use maph::geom::vector::VectorPrecise;
use maph::num::rational::{r32, Error};

fn r(n: i16) -> r32 {
    r32::new(n, 1).unwrap()
}

fn m4(rows: [[i16; 4]; 4]) -> MatrixPrecise<4, 4> {
    let mut data = [[r(0); 4]; 4];
    for i in 0..4 {
        for j in 0..4 {
            data[i][j] = r(rows[i][j]);
        }
    }
    MatrixPrecise::new(data)
}

fn scenario() -> MatrixPrecise<4, 4> {
    m4([[1, 1, 1, -5], [-2, -6, 1, 13], [3, -17, 16, -2], [5, -3, 9, -25]])
}

#[test]
fn precise_lu_scenario() {
    let (l, u) = scenario().lu().unwrap();
    assert_eq!(l, m4([[1, 0, 0, 0], [-2, 1, 0, 0], [3, 5, 1, 0], [5, 2, 1, 1]]));
    assert_eq!(u, m4([[1, 1, 1, -5], [0, -4, 3, 3], [0, 0, -2, -2], [0, 0, 0, -4]]));
    assert_eq!(l.multiply(u), scenario());
}

#[test]
fn precise_det_scenario() {
    assert_eq!(scenario().lup_det(), Some(r(-32)));
}

#[test]
fn precise_lup_sub_scenario() {
    let b = VectorPrecise::new([r(-14), r(41), r(9), r(-74)]);
    let x = scenario().lup_sub(b).unwrap();
    assert_eq!(x, VectorPrecise::new([r(1), r(2), r(3), r(4)]));
}

#[test]
fn precise_lup_decomposes_permuted() {
    let a = scenario();
    let (l, u, p) = a.lup().unwrap();
    assert_eq!(p.multiply(a), l.multiply(u));
}

#[test]
fn lu_fails_on_zero_pivot() {
    let a = MatrixPrecise::new([[r(0), r(1)], [r(1), r(0)]]);
    assert!(a.lu().is_none());
    assert!(a.lup().is_some());
}

#[test]
fn precise_inverse() {
    let a = MatrixPrecise::new([[r(4), r(7)], [r(2), r(6)]]);
    let inv = a.lup_inverse().unwrap();
    assert_eq!(a.multiply(inv), MatrixPrecise::<2, 2>::identity());
    assert_eq!(inv.lup_inverse().unwrap(), a);
    let singular = MatrixPrecise::new([[r(1), r(2)], [r(2), r(4)]]);
    assert!(singular.lup_inverse().is_none());
}

#[test]
fn substitution_steps() {
    let l = MatrixPrecise::new([[r(1), r(0)], [r(3), r(1)]]);
    let y = l.forward_sub(VectorPrecise::new([r(2), r(7)])).unwrap();
    assert_eq!(y, VectorPrecise::new([r(2), r(1)]));
    let u = MatrixPrecise::new([[r(2), r(4)], [r(0), r(13)]]);
    let x = u.back_sub(VectorPrecise::new([r(24), r(13)])).unwrap();
    assert_eq!(x, VectorPrecise::new([r(10), r(1)]));
}

#[test]
fn rows_columns_transpose() {
    let a = MatrixPrecise::new([[r(1), r(2), r(3)], [r(4), r(5), r(6)]]);
    assert_eq!(a.row(1), VectorPrecise::new([r(4), r(5), r(6)]));
    assert_eq!(a.col(2), VectorPrecise::new([r(3), r(6)]));
    assert_eq!(a.transpose(), MatrixPrecise::new([[r(1), r(4)], [r(2), r(5)], [r(3), r(6)]]));
    assert_eq!(MatrixPrecise::<2, 3>::num_cols(), 3);
    assert_eq!(MatrixPrecise::<2, 3>::row_len(), 3);
}

#[test]
fn multiply_values() {
    let a = MatrixPrecise::new([[r(1), r(2)], [r(3), r(4)]]);
    let b = MatrixPrecise::new([[r(5), r(6)], [r(7), r(8)]]);
    assert_eq!(a.multiply(b), MatrixPrecise::new([[r(19), r(22)], [r(43), r(50)]]));
}

#[test]
fn dot_values() {
    let a = VectorPrecise::new([r(1), r(2), r(3)]);
    let b = VectorPrecise::new([r(4), r(5), r(6)]);
    assert_eq!(a.dot(b), r(32));
}

#[test]
fn laplace_det_agrees() {
    assert_eq!(scenario().det(), Some(r(-32)));
    let a = MatrixPrecise::new([[r(22), r(15)], [r(45), r(42)]]);
    assert_eq!(a.det(), Some(r(22 * 42 - 15 * 45)));
    assert_eq!(a.det(), a.lup_det());
}

#[test]
fn minors_and_cofactors() {
    let a = MatrixPrecise::new([[r(1), r(2), r(3)], [r(4), r(5), r(6)], [r(7), r(8), r(10)]]);
    let m = a.minor(0, 1).unwrap();
    assert_eq!(m, MatrixPrecise::new([[r(4), r(6), r(0)], [r(7), r(10), r(0)], [r(0), r(0), r(0)]]));
    assert!(a.minor(3, 0).is_none());
    let v = a.to_data_vec();
    assert_eq!(v.len(), 9);
    assert_eq!(v[5], r(6));
    assert_eq!(MatrixPrecise::<3, 3>::minor_vec(&v, (3, 3), (1, 1)), vec![r(1), r(3), r(7), r(10)]);
    assert_eq!(MatrixPrecise::<3, 3>::det_vec(&v, 3), Some(r(-3)));
    let cof = a.cofactor().unwrap();
    assert_eq!(cof.data[0][1], r(2));
    let cv = MatrixPrecise::<3, 3>::cofactor_vec(&v, 3).unwrap();
    assert_eq!(cv[1], r(2));
    let adj = a.adjoint().unwrap();
    assert_eq!(adj, cof.transpose());
}

#[test]
fn adjoint_inverse() {
    let a = MatrixPrecise::new([[r(4), r(7)], [r(2), r(6)]]);
    let inv = a.inverse().unwrap();
    assert_eq!(inv, a.lup_inverse().unwrap());
    let singular = MatrixPrecise::new([[r(1), r(2)], [r(2), r(4)]]);
    assert!(singular.inverse().is_none());
}

#[test]
fn resize() {
    let a = MatrixPrecise::new([[r(1), r(2)], [r(3), r(4)]]);
    let b: MatrixPrecise<3, 1> = a.change_dimensions();
    assert_eq!(b, MatrixPrecise::new([[r(1)], [r(3)], [r(0)]]));
}

#[test]
fn vector_operations() {
    let a = VectorPrecise::new([r(1), r(2), r(3)]);
    let b = VectorPrecise::new([r(4), r(5), r(6)]);
    assert_eq!(a.vec_add(b), VectorPrecise::new([r(5), r(7), r(9)]));
    assert_eq!(a.vec_mul(b), VectorPrecise::new([r(4), r(10), r(18)]));
    assert_eq!(a.rational_mul(r(2)), VectorPrecise::new([r(2), r(4), r(6)]));
    assert_eq!(a.recip().unwrap().data[1], r32::new(1, 2).unwrap());
    assert_eq!(a.sum(), r(6));
    assert_eq!(a.sq_sum(), r(14));
    assert_eq!(a.mag().squared(), r(14));
    assert_eq!(a.as_row().row(0), a);
    assert_eq!(a.as_col().col(0), a);
    assert_eq!(VectorPrecise::<2>::default(), VectorPrecise::new([r(0), r(0)]));
}

#[test]
fn matrix_operator() {
    let a = MatrixPrecise::new([[r(1), r(2)], [r(3), r(4)]]);
    let i = MatrixPrecise::<2, 2>::identity();
    assert_eq!(a * i, a);
    assert_eq!(MatrixPrecise::<2, 2>::default(), MatrixPrecise::new([[r(0), r(0)], [r(0), r(0)]]));
}

#[test]
fn reciprocals_report_zero() {
    let a = VectorPrecise::new([r(1), r(2), r(4)]);
    let inv = a.recip().unwrap();
    assert_eq!(inv.data[2], r32::new(1, 4).unwrap());
    let z = VectorPrecise::new([r(1), r(0)]);
    assert_eq!(z.recip(), Err(Error::DivideByZero));
}

#[test]
fn cofactor_needs_two_by_two() {
    let one = MatrixPrecise::new([[r(3)]]);
    assert!(one.cofactor().is_none());
    assert!(one.adjoint().is_none());
    assert!(MatrixPrecise::<2, 2>::cofactor_vec(&vec![r(1)], 1).is_none());
}
