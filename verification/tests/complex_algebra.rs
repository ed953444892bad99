//! Complex-pair arithmetic, over a double-precision real scalar (the
//! original operand values) and over the exact modular scalar.

use spectral::algebra::ScalarSpace;
use spectral::complex::Complex;
use spectral::fp::Fp;

/// A double-precision real scalar for instantiating the generic algebra
/// in tests.
#[derive(Clone, Copy, Debug, PartialEq)]
struct R64(f64);

impl ScalarSpace for R64 {
    fn zero() -> R64 {
        R64(0.0)
    }

    fn one() -> R64 {
        R64(1.0)
    }

    fn add(self, other: R64) -> R64 {
        R64(self.0 + other.0)
    }

    fn sub(self, other: R64) -> R64 {
        R64(self.0 - other.0)
    }

    fn neg(self) -> R64 {
        R64(-self.0)
    }

    fn mul(self, other: R64) -> R64 {
        R64(self.0 * other.0)
    }

    fn root_step(n: usize) -> R64 {
        // The reals carry no root of unity of order above two.
        if n <= 2 { R64(-1.0) } else { R64(1.0) }
    }

    fn root_step_inv(n: usize) -> R64 {
        if n <= 2 { R64(-1.0) } else { R64(1.0) }
    }

    fn div_n(self, n: usize) -> R64 {
        R64(self.0 / (n as f64))
    }

    fn inv(self) -> R64 {
        R64(1.0 / self.0)
    }
}

fn c(re: f64, im: f64) -> Complex<R64> {
    Complex::new(R64(re), R64(im))
}

fn eq_c(a: Complex<R64>, b: Complex<R64>) -> bool {
    a.re == b.re && a.im == b.im
}

#[test]
fn test_complex_op() {
    let z1 = c(1.0, 2.0);
    let z2 = c(3.0, 4.0);
    let r = R64(3.0);

    assert!(eq_c(z1.add(z2), c(4.0, 6.0)), "Complex + Complex");
    assert!(eq_c(z1.sub(z2), c(-2.0, -2.0)), "Complex - Complex");

    assert!(eq_c(z1.neg(), c(-1.0, -2.0)), "-Complex");

    assert!(eq_c(z1.scale(r), c(3.0, 6.0)), "Complex * f64");

    let i = Complex::<R64>::i();
    assert!(eq_c(i.mul(i), c(-1.0, 0.0)), "i * i");

    assert!(eq_c(z1.mul(z2), c(-5.0, 10.0)), "Complex * Complex");

    assert!(
        eq_c(z1.div(z2), c(11.0 / 25.0, 2.0 / 25.0)),
        "Complex / Complex"
    );
    assert!(eq_c(z1.div(z1), c(1.0, 0.0)), "Complex / Complex");
}

#[test]
fn test_complex_methods() {
    let z = c(3.0, 4.0);

    assert_eq!(z.abs_square().0, 25.0, "Complex Absolute Square");
    assert!(eq_c(z.conj(), c(3.0, -4.0)), "Complex Conjugate");
    assert!(eq_c(Complex::<R64>::one(), c(1.0, 0.0)), "Complex::one()");
    assert!(eq_c(Complex::<R64>::from_real(R64(5.0)), c(5.0, 0.0)));
}

#[test]
fn complex_algebra_is_exact_over_the_modular_scalar() {
    let z1 = Complex::new(Fp::new(1), Fp::new(2));
    let z2 = Complex::new(Fp::new(3), Fp::new(4));

    let sum = z1.add(z2);
    assert_eq!((sum.re.value(), sum.im.value()), (4, 6));

    let prod = z1.mul(z2);
    assert_eq!(prod.re.value(), Fp::new(5).neg().value());
    assert_eq!(prod.im.value(), 10);

    // z1 / z2 == (11/25) + (2/25) i, exactly, in the field.
    let quot = z1.div(z2);
    let inv25 = Fp::new(25).inv();
    assert_eq!(quot.re.value(), Fp::new(11).mul(inv25).value());
    assert_eq!(quot.im.value(), Fp::new(2).mul(inv25).value());
    let back = quot.mul(z2);
    assert_eq!((back.re.value(), back.im.value()), (1, 2));

    let i = Complex::<Fp>::i();
    let ii = i.mul(i);
    assert_eq!(ii.re.value(), Fp::new(1).neg().value());
    assert_eq!(ii.im.value(), 0);
}
