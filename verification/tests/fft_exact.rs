//! Exact transform scenarios over the modular scalar: in the field of
//! integers modulo 65537 every root of unity is exact, so the round-trip,
//! oracle-agreement, impulse and linearity properties hold with equality.

use spectral::algebra::ScalarSpace;
use spectral::fft::{dft1d, fft1d, ifft1d, TransformError};
use spectral::field::{Field, Field1D, Field2D, Field3D};
use spectral::fp::Fp;
use spectral::vector::Vector;

fn fp(v: u64) -> Fp {
    Fp::new(v)
}

fn fp_vec(vals: &[u64]) -> Vec<Fp> {
    vals.iter().map(|v| fp(*v)).collect()
}

fn values(v: &[Fp]) -> Vec<u64> {
    v.iter().map(|x| x.value()).collect()
}

#[test]
fn impulse_gives_constant_spectrum_exactly() {
    let x = Vector::new(fp_vec(&[1, 0, 0, 0]));
    let spectrum = fft1d(x).unwrap();
    assert_eq!(values(&spectrum.get_data()), vec![1, 1, 1, 1]);

    let x8 = Vector::new(fp_vec(&[1, 0, 0, 0, 0, 0, 0, 0]));
    let spectrum8 = fft1d(x8).unwrap();
    assert_eq!(values(&spectrum8.get_data()), vec![1; 8]);
}

#[test]
fn round_trip_1d_is_exact() {
    let data = fp_vec(&[3, 1, 4, 1, 5, 9, 2, 6]);
    let original = values(&data);
    let spectrum = fft1d(Vector::new(data)).unwrap();
    let restored = ifft1d(spectrum).unwrap();
    assert_eq!(values(&restored.get_data()), original);
}

#[test]
fn direct_round_trip_is_exact() {
    let data = fp_vec(&[7, 0, 65536, 42]);
    let original = values(&data);
    let spectrum = dft1d(Vector::new(data)).unwrap();
    let restored = spectral::fft::idft1d(spectrum).unwrap();
    assert_eq!(values(&restored.get_data()), original);
}

#[test]
fn fast_transform_agrees_with_oracle_exactly() {
    let data = fp_vec(&[12, 345, 6789, 1011, 1213, 65000, 0, 31415]);
    let fast = fft1d(Vector::new(data.clone())).unwrap();
    let direct = dft1d(Vector::new(data)).unwrap();
    assert_eq!(values(&fast.get_data()), values(&direct.get_data()));
}

#[test]
fn direct_transform_matches_the_defining_sums() {
    // X[k] = sum_n x[n] * w^(k n), with w the order-4 root the scalar
    // carries; the sums are recomputed here with this test's own loops.
    let x = fp_vec(&[5, 0, 3, 65530]);
    let w = Fp::root_step(4);
    let spectrum = dft1d(Vector::new(x.clone())).unwrap().get_data();
    for k in 0..4 {
        let mut acc = Fp::zero();
        for m in 0..4 {
            let mut p = Fp::one();
            for _ in 0..(k * m) {
                p = p.mul(w);
            }
            acc = acc.add(x[m].mul(p));
        }
        assert_eq!(spectrum[k].value(), acc.value());
    }
}

#[test]
fn known_pair_in_the_modular_ring() {
    // x = [0, 1, 0, -1] transforms to [0, 2w, 0, -2w] where w is the
    // order-4 root the scalar supplies (for complex doubles w = -i, giving
    // the classical [0, -2i, 0, 2i]).
    let one = Fp::new(1);
    let minus_one = one.neg();
    let w = Fp::root_step(4);
    let two_w = w.add(w);
    let x = Vector::new(vec![Fp::zero(), one, Fp::zero(), minus_one]);
    let spectrum = fft1d(x).unwrap().get_data();
    assert_eq!(spectrum[0].value(), 0);
    assert_eq!(spectrum[1].value(), two_w.value());
    assert_eq!(spectrum[2].value(), 0);
    assert_eq!(spectrum[3].value(), two_w.neg().value());
}

#[test]
fn round_trip_2d_is_exact() {
    const N: usize = 4;
    let mut field: Field2D<Fp> = Field2D::zero(N);
    let mut original = [[0u64; N]; N];
    for x in 0..N {
        for y in 0..N {
            let v = (x * 10 + y + 1) as u64;
            field.set(x, y, fp(v));
            original[x][y] = v;
        }
    }
    field.fft().unwrap();
    field.ifft().unwrap();
    for x in 0..N {
        for y in 0..N {
            assert_eq!(field.get(x, y).value(), original[x][y]);
        }
    }
}

#[test]
fn round_trip_3d_is_exact() {
    const N: usize = 4;
    let mut field: Field3D<Fp> = Field3D::zero(N);
    for x in 0..N {
        for y in 0..N {
            for z in 0..N {
                field.set(x, y, z, fp((x * 100 + y * 10 + z) as u64));
            }
        }
    }
    field.fft().unwrap();
    field.ifft().unwrap();
    for x in 0..N {
        for y in 0..N {
            for z in 0..N {
                assert_eq!(field.get(x, y, z).value(), (x * 100 + y * 10 + z) as u64);
            }
        }
    }
}

#[test]
fn axis_ordering_3d_is_exact() {
    const N: usize = 4;
    let mut field: Field3D<Fp> = Field3D::zero(N);
    field.set(1, 2, 3, Fp::one());

    field.fft().unwrap();
    field.ifft().unwrap();

    assert_eq!(field.get(1, 2, 3).value(), 1);
    assert_eq!(field.get(0, 0, 0).value(), 0);
    assert_eq!(field.get(3, 2, 1).value(), 0);
}

#[test]
fn fft_is_linear_exactly() {
    let a = fp(17);
    let b = fp(65530);
    let x = fp_vec(&[1, 2, 3, 4, 5, 6, 7, 8]);
    let y = fp_vec(&[9, 0, 9, 0, 1, 65000, 3, 2]);
    let mut combo = Vec::new();
    for i in 0..8 {
        combo.push(a.mul(x[i]).add(b.mul(y[i])));
    }
    let lhs = fft1d(Vector::new(combo)).unwrap().get_data();
    let fx = fft1d(Vector::new(x)).unwrap().get_data();
    let fy = fft1d(Vector::new(y)).unwrap().get_data();
    for i in 0..8 {
        assert_eq!(lhs[i].value(), a.mul(fx[i]).add(b.mul(fy[i])).value());
    }
}

#[test]
fn invalid_lengths_are_rejected() {
    let empty: Vector<Fp> = Vector::new(Vec::new());
    assert_eq!(fft1d(empty).unwrap_err(), TransformError::InvalidLength);

    let three = Vector::new(fp_vec(&[1, 2, 3]));
    assert_eq!(fft1d(three).unwrap_err(), TransformError::InvalidLength);

    let six = Vector::new(fp_vec(&[1, 2, 3, 4, 5, 6]));
    assert_eq!(ifft1d(six).unwrap_err(), TransformError::InvalidLength);

    let five = Vector::new(fp_vec(&[1, 2, 3, 4, 5]));
    assert_eq!(dft1d(five).unwrap_err(), TransformError::InvalidLength);

    let mut ragged: Field2D<Fp> = Field2D::zero(3);
    assert_eq!(ragged.fft().unwrap_err(), TransformError::InvalidLength);
    assert_eq!(ragged.get(0, 0).value(), 0);

    let mut cube: Field3D<Fp> = Field3D::zero(6);
    assert_eq!(cube.ifft().unwrap_err(), TransformError::InvalidLength);
}

#[test]
fn single_element_transform_is_identity() {
    let x = Vector::new(fp_vec(&[123]));
    let spectrum = fft1d(x).unwrap();
    assert_eq!(spectrum.get(0).value(), 123);
    let back = ifft1d(spectrum).unwrap();
    assert_eq!(values(&back.get_data()), vec![123]);
}
