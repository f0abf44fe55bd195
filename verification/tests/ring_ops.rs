//! The ring and module algebra on random elements.

use ml_kem::Module;
use ml_kem::Ring;

fn ring_eq(a: &Ring, b: &Ring) -> bool {
    a.coefficients == b.coefficients && a.is_ntt == b.is_ntt
}

/// The logical entries of a module, resolving the transpose view.
fn entries(m: &Module) -> Vec<Vec<Vec<u16>>> {
    let rows = if m.transpose { m.data[0].len() } else { m.data.len() };
    let cols = if m.transpose { m.data.len() } else { m.data[0].len() };
    let mut out = Vec::new();
    for i in 0..rows {
        let mut row = Vec::new();
        for j in 0..cols {
            let cell = if m.transpose { &m.data[j][i] } else { &m.data[i][j] };
            row.push(cell.coefficients.clone());
        }
        out.push(row);
    }
    out
}

fn module_eq(a: &Module, b: &Module) -> bool {
    entries(a) == entries(b)
}

#[test]
fn add() {
    let zero = Ring::zero();
    for _ in 0..30 {
        let f_1 = Ring::random();
        let f_2 = Ring::random();
        let f_3 = Ring::random();

        assert!(ring_eq(&f_1.add(&zero), &f_1));
        assert!(ring_eq(&f_1.add(&f_2), &f_2.add(&f_1)));
        assert!(ring_eq(&f_1.add(&f_2.add(&f_3)), &f_1.add(&f_2).add(&f_3)));
        let mut f_4 = Ring::new(f_1.coefficients.clone(), f_1.is_ntt);
        f_4 = f_4.add(&f_1);
        assert!(ring_eq(&f_1.add(&f_1), &f_4));
    }
}

#[test]
fn multiplication() {
    let zero = Ring::zero();
    let one = Ring::one();

    for _ in 0..20 {
        let f_1 = Ring::random();
        let f_2 = Ring::random();
        let f_3 = Ring::random();

        assert!(ring_eq(&f_1.mul(&zero).unwrap(), &zero));
        assert!(ring_eq(&f_1.mul(&one).unwrap(), &f_1));
        assert!(ring_eq(&f_1.mul(&f_2).unwrap(), &f_2.mul(&f_1).unwrap()));
        assert!(ring_eq(
            &f_1.mul(&f_2.mul(&f_3).unwrap()).unwrap(),
            &f_1.mul(&f_2).unwrap().mul(&f_3).unwrap()
        ));
    }
}

#[test]
fn mul_domain_mismatch() {
    let a = Ring::random();
    let b = Ring::random().to_ntt();
    assert_eq!(a.mul(&b).unwrap_err(), ml_kem::MlKemError::DomainMismatch);
}

#[test]
fn mat_mul() {
    // Square
    let zero_module = Module::new(
        vec![
            vec![Ring::zero(), Ring::zero()],
            vec![Ring::zero(), Ring::zero()],
        ],
        false,
    );
    let identity_module = Module::new(
        vec![vec![Ring::one(), Ring::zero()], vec![Ring::zero(), Ring::one()]],
        false,
    );
    for _ in 0..10 {
        let a = Module::random(2, 2);
        let b = Module::random(2, 2);
        let c = Module::random(2, 2);
        let random_ring = Ring::random();
        let random_copy = Ring::new(random_ring.coefficients.clone(), random_ring.is_ntt);
        let d = Module::new(
            vec![
                vec![random_copy, Ring::zero()],
                vec![Ring::zero(), random_ring],
            ],
            false,
        );
        assert!(module_eq(&a.mat_mul(&zero_module).unwrap(), &zero_module));
        assert!(module_eq(&a.mat_mul(&identity_module).unwrap(), &a));
        assert!(module_eq(&a.mat_mul(&d).unwrap(), &d.mat_mul(&a).unwrap()));
        assert!(module_eq(
            &a.mat_mul(&b.add(&c).unwrap()).unwrap(),
            &a.mat_mul(&b).unwrap().add(&a.mat_mul(&c).unwrap()).unwrap()
        ));
    }

    // Rectangle
    for _ in 0..10 {
        let a = Module::random(11, 4);
        let b = Module::random(4, 3);
        let c = Module::random(4, 3);

        assert!(module_eq(
            &a.mat_mul(&b.add(&c).unwrap()).unwrap(),
            &a.mat_mul(&b).unwrap().add(&a.mat_mul(&c).unwrap()).unwrap()
        ));
    }
}

#[test]
fn mat_mul_dimension_mismatch() {
    let a = Module::random(2, 3);
    let b = Module::random(2, 3);
    assert_eq!(a.mat_mul(&b).unwrap_err(), ml_kem::MlKemError::DimensionMismatch);
}

#[test]
fn ntt_round_trip() {
    for _ in 0..10 {
        let f = Ring::random();
        let back = f.to_ntt().from_ntt();
        assert_eq!(back.coefficients, f.coefficients);
        assert!(!back.is_ntt);
    }
    // The other direction, starting from an NTT-domain element.
    for _ in 0..10 {
        let f = Ring::random();
        let g = Ring::new(f.coefficients.clone(), true);
        let back = g.from_ntt().to_ntt();
        assert_eq!(back.coefficients, g.coefficients);
        assert!(back.is_ntt);
    }
}
