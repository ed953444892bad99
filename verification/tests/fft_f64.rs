//! The original floating-point transform scenarios, run through the
//! generic kernels with a double-precision complex scalar.

use spectral::algebra::ScalarSpace;
use spectral::fft::{dft1d, fft1d, idft1d, ifft1d};
use spectral::field::{Field, Field1D, Field2D, Field3D};
use spectral::vector::Vector;

const EPS: f64 = 1e-14;
const PI: f64 = std::f64::consts::PI;

/// A double-precision complex number: the floating-point instantiation of
/// the scalar algebra.  Its twiddle factors are `cis(-2*pi/n)`; the ring
/// laws hold only up to rounding, which is exactly the numerical-accuracy
/// caveat of any floating-point transform.
#[derive(Clone, Copy, Debug, PartialEq)]
struct C64 {
    re: f64,
    im: f64,
}

impl C64 {
    fn new(re: f64, im: f64) -> C64 {
        C64 { re, im }
    }

    fn cis(phase: f64) -> C64 {
        C64 { re: phase.cos(), im: phase.sin() }
    }
}

impl ScalarSpace for C64 {
    fn zero() -> C64 {
        C64 { re: 0.0, im: 0.0 }
    }

    fn one() -> C64 {
        C64 { re: 1.0, im: 0.0 }
    }

    fn add(self, other: C64) -> C64 {
        C64 { re: self.re + other.re, im: self.im + other.im }
    }

    fn sub(self, other: C64) -> C64 {
        C64 { re: self.re - other.re, im: self.im - other.im }
    }

    fn neg(self) -> C64 {
        C64 { re: -self.re, im: -self.im }
    }

    fn mul(self, other: C64) -> C64 {
        C64 {
            re: self.re * other.re - self.im * other.im,
            im: self.re * other.im + self.im * other.re,
        }
    }

    fn root_step(n: usize) -> C64 {
        C64::cis(-2.0 * PI / (n as f64))
    }

    fn root_step_inv(n: usize) -> C64 {
        C64::cis(2.0 * PI / (n as f64))
    }

    fn div_n(self, n: usize) -> C64 {
        C64 { re: self.re / (n as f64), im: self.im / (n as f64) }
    }

    fn inv(self) -> C64 {
        let d = self.re * self.re + self.im * self.im;
        C64 { re: self.re / d, im: -self.im / d }
    }
}

fn assert_complex_vector_eq(a: &[C64], b: &[C64], msg: &str) {
    assert!(a.len() == b.len(), "{}", msg);
    for i in 0..a.len() {
        assert!(
            (a[i].re - b[i].re).abs() < EPS && (a[i].im - b[i].im).abs() < EPS,
            "{}\n left: {:?}\nright: {:?}",
            msg,
            a,
            b
        );
    }
}

fn known_signal() -> Vec<C64> {
    vec![
        C64::new(0.0, 0.0),
        C64::new(1.0, 0.0),
        C64::new(0.0, 0.0),
        C64::new(-1.0, 0.0),
    ]
}

fn known_spectrum() -> Vec<C64> {
    vec![
        C64::new(0.0, 0.0),
        C64::new(0.0, -2.0),
        C64::new(0.0, 0.0),
        C64::new(0.0, 2.0),
    ]
}

#[test]
fn test_dft1d() {
    let x = Vector::new(known_signal());
    let output = dft1d(x).unwrap();
    assert_complex_vector_eq(&known_spectrum(), &output.get_data(), "1D DFT");
}

#[test]
fn test_idft1d() {
    let frequancy = Vector::new(known_spectrum());
    let output = idft1d(frequancy).unwrap();
    assert_complex_vector_eq(&known_signal(), &output.get_data(), "1D IDFT");
}

#[test]
fn test_fft1d() {
    let x = Vector::new(known_signal());
    let output = fft1d(x).unwrap();
    assert_complex_vector_eq(&known_spectrum(), &output.get_data(), "1D FFT");
}

#[test]
fn test_ifft1d() {
    let frequancy = Vector::new(known_spectrum());
    let output = ifft1d(frequancy).unwrap();
    assert_complex_vector_eq(&known_signal(), &output.get_data(), "1D IFFT");
}

#[test]
fn test_field1d_reversibility() {
    const N: usize = 8;
    let mut data = Vec::new();
    for i in 0..N {
        data.push(C64::new(i as f64, (i as f64) * 0.5));
    }
    let original = data.clone();

    let mut field: Field1D<C64> = Vector::new(data);
    field.fft().unwrap();
    field.ifft().unwrap();

    assert_complex_vector_eq(
        &field.get_data(),
        &original,
        "Field1D.fft() reversibility failed.",
    );
}

#[test]
fn test_field2d_reversibility() {
    const N: usize = 4;
    let mut field: Field2D<C64> = Field2D::zero(N);
    let mut original = vec![vec![C64::new(0.0, 0.0); N]; N];

    for x in 0..N {
        for y in 0..N {
            let val = C64::new((x + y) as f64, (x * y) as f64);
            field.set(x, y, val);
            original[x][y] = val;
        }
    }

    field.fft().unwrap();
    field.ifft().unwrap();

    for x in 0..N {
        let mut row = Vec::new();
        for y in 0..N {
            row.push(field.get(x, y));
        }
        assert_complex_vector_eq(
            &row,
            &original[x],
            "Field2D.fft() reversibility failed. Check transpose logic",
        );
    }
}

#[test]
fn test_field3d_reversibility() {
    const N: usize = 4;
    let mut field: Field3D<C64> = Field3D::zero(N);
    let mut original = vec![vec![vec![C64::new(0.0, 0.0); N]; N]; N];

    for x in 0..N {
        for y in 0..N {
            for z in 0..N {
                let val = C64::new((x * 10 + y * 5 + z) as f64, 1.0);
                field.set(x, y, z, val);
                original[x][y][z] = val;
            }
        }
    }

    field.fft().unwrap();
    field.ifft().unwrap();

    for x in 0..N {
        for y in 0..N {
            let mut row = Vec::new();
            for z in 0..N {
                row.push(field.get(x, y, z));
            }
            assert_complex_vector_eq(
                &row,
                &original[x][y],
                "Field3D.fft() reversibility failed. Check transpose logic",
            );
        }
    }
}

#[test]
fn test_impulse_response_check() {
    // FFT(Delta function) = Const
    // x[0] = 1, otherwise 0 -> FFT -> X[k] = 1
    const N: usize = 4;

    let mut data = vec![C64::new(0.0, 0.0); N];
    data[0] = C64::new(1.0, 0.0);
    let mut field: Field1D<C64> = Vector::new(data);

    field.fft().unwrap();

    let freq = vec![C64::new(1.0, 0.0); N];
    assert_complex_vector_eq(
        &field.get_data(),
        &freq,
        "Field1D.fft() failed. Delta fuction check.",
    );
}

#[test]
fn test_field3d_axis_ordering() {
    const N: usize = 4;
    let mut field: Field3D<C64> = Field3D::zero(N);

    field.set(1, 2, 3, C64::new(1.0, 0.0));

    field.fft().unwrap();
    field.ifft().unwrap();

    let restored = field.get(1, 2, 3);
    assert!(
        (restored.re - 1.0).abs() < EPS && restored.im.abs() < EPS,
        "Field3D transpose test are failed."
    );
    let zero_a = field.get(0, 0, 0);
    assert!(
        zero_a.re.abs() < EPS && zero_a.im.abs() < EPS,
        "Field3D transpose test are failed."
    );
    let zero_b = field.get(3, 2, 1);
    assert!(
        zero_b.re.abs() < EPS && zero_b.im.abs() < EPS,
        "Field3D transpose test are failed."
    );
}

#[test]
fn fft_oracle_agreement_f64() {
    const N: usize = 8;
    let mut data = Vec::new();
    for i in 0..N {
        data.push(C64::new((i * i) as f64 * 0.25 - 1.0, 1.5 - i as f64));
    }
    let fast = fft1d(Vector::new(data.clone())).unwrap().get_data();
    let direct = dft1d(Vector::new(data)).unwrap().get_data();
    for i in 0..N {
        assert!(
            (fast[i].re - direct[i].re).abs() < 1e-12 && (fast[i].im - direct[i].im).abs() < 1e-12,
            "FFT disagrees with the direct transform"
        );
    }
}

#[test]
fn fft_linearity_f64() {
    const N: usize = 8;
    let a = C64::new(2.0, -1.0);
    let b = C64::new(-0.5, 3.0);
    let mut x = Vec::new();
    let mut y = Vec::new();
    for i in 0..N {
        x.push(C64::new(i as f64, -(i as f64)));
        y.push(C64::new(1.0 - i as f64 * 0.5, 2.0));
    }
    let mut combo = Vec::new();
    for i in 0..N {
        combo.push(a.mul(x[i]).add(b.mul(y[i])));
    }
    let lhs = fft1d(Vector::new(combo)).unwrap().get_data();
    let fx = fft1d(Vector::new(x)).unwrap().get_data();
    let fy = fft1d(Vector::new(y)).unwrap().get_data();
    let mut rhs = Vec::new();
    for i in 0..N {
        rhs.push(a.mul(fx[i]).add(b.mul(fy[i])));
    }
    assert_complex_vector_eq(&lhs, &rhs, "FFT is not linear");
}
