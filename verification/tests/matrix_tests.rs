//! The plain matrix type: shape reporting and the element-wise NTT.

use ml_kem::Matrix;
use ml_kem::Ring;

#[test]
fn dim_follows_the_transpose_view() {
    let data = vec![vec![Ring::zero(), Ring::one(), Ring::x()]];
    let plain = Matrix::new(data, false);
    assert_eq!(plain.dim(), (1, 3));

    let data = vec![vec![Ring::zero(), Ring::one(), Ring::x()]];
    let viewed = Matrix::new(data, true);
    assert_eq!(viewed.dim(), (3, 1));
}

#[test]
fn to_ntt_transforms_every_element() {
    let a = Ring::random();
    let b = Ring::random();
    let expected_a = a.to_ntt();
    let expected_b = b.to_ntt();
    let m = Matrix::new(vec![vec![a, b]], false);
    let t = m.to_ntt();
    assert_eq!(t.data[0][0].coefficients, expected_a.coefficients);
    assert_eq!(t.data[0][1].coefficients, expected_b.coefficients);
    assert!(t.data[0][0].is_ntt);
}
