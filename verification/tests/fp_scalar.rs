//! The modular scalar instance on its own: canonical representatives,
//! ring operations, inverses and roots of unity.

use spectral::algebra::ScalarSpace;
use spectral::fp::{Fp, FP_MODULUS};

#[test]
fn construction_reduces_modulo_the_prime() {
    assert_eq!(FP_MODULUS, 65537);
    assert_eq!(Fp::new(0).value(), 0);
    assert_eq!(Fp::new(65537).value(), 0);
    assert_eq!(Fp::new(65538).value(), 1);
    assert_eq!(Fp::new(3 * 65537 + 11).value(), 11);
}

#[test]
fn ring_operations_match_modular_arithmetic() {
    let a = Fp::new(65530);
    let b = Fp::new(20);
    assert_eq!(a.add(b).value(), 13);
    assert_eq!(a.sub(b).value(), 65510);
    assert_eq!(b.sub(a).value(), 27);
    assert_eq!(a.neg().value(), 7);
    assert_eq!(Fp::new(0).neg().value(), 0);
    assert_eq!(Fp::new(256).mul(Fp::new(257)).value(), (256 * 257) % 65537);
    assert_eq!(Fp::new(65536).mul(Fp::new(65536)).value(), 1);
}

#[test]
fn inverses_multiply_to_one() {
    for v in [1u64, 2, 3, 25, 1000, 65536] {
        let x = Fp::new(v);
        assert_eq!(x.mul(x.inv()).value(), 1, "inverse failed for {}", v);
    }
}

#[test]
fn division_by_a_size_undoes_repeated_addition() {
    let x = Fp::new(12345);
    let mut sum = Fp::zero();
    for _ in 0..8 {
        sum = sum.add(x);
    }
    assert_eq!(sum.div_n(8).value(), x.value());
}

#[test]
fn roots_of_unity_have_the_right_order() {
    // The order-2 root is -1, and the inverse root is its inverse.
    assert_eq!(Fp::root_step(1).value(), 1);
    assert_eq!(Fp::root_step(2).value(), 65536);
    assert_eq!(Fp::root_step_inv(2).value(), 65536);

    let w4 = Fp::root_step(4);
    assert_eq!(w4.mul(w4).value(), 65536);
    assert_eq!(w4.mul(w4).mul(w4).mul(w4).value(), 1);

    let w8 = Fp::root_step(8);
    assert_eq!(w8.mul(w8).value(), w4.value());
    assert_eq!(w8.mul(Fp::root_step_inv(8)).value(), 1);
}
