//! The fixed-length container: elementwise arithmetic, inner products and
//! the cross product, over a double-precision real scalar and over the
//! exact modular scalar.

use spectral::algebra::ScalarSpace;
use spectral::fp::Fp;
use spectral::vector::{OuterProduct, Vector};

/// A double-precision real scalar for instantiating the container in
/// tests.
#[derive(Clone, Copy, Debug, PartialEq)]
struct V64(f64);

impl ScalarSpace for V64 {
    fn zero() -> V64 {
        V64(0.0)
    }

    fn one() -> V64 {
        V64(1.0)
    }

    fn add(self, other: V64) -> V64 {
        V64(self.0 + other.0)
    }

    fn sub(self, other: V64) -> V64 {
        V64(self.0 - other.0)
    }

    fn neg(self) -> V64 {
        V64(-self.0)
    }

    fn mul(self, other: V64) -> V64 {
        V64(self.0 * other.0)
    }

    fn root_step(n: usize) -> V64 {
        if n <= 2 { V64(-1.0) } else { V64(1.0) }
    }

    fn root_step_inv(n: usize) -> V64 {
        if n <= 2 { V64(-1.0) } else { V64(1.0) }
    }

    fn div_n(self, n: usize) -> V64 {
        V64(self.0 / (n as f64))
    }

    fn inv(self) -> V64 {
        V64(1.0 / self.0)
    }
}

fn r64_vec(vals: &[f64]) -> Vector<V64> {
    Vector::new(vals.iter().map(|v| V64(*v)).collect())
}

fn floats(v: Vector<V64>) -> Vec<f64> {
    v.get_data().iter().map(|x| x.0).collect()
}

#[test]
fn test_vector_op() {
    let v1 = r64_vec(&[1.0, 2.0, 3.0]);
    let v2 = r64_vec(&[3.0, 4.0, 5.0]);
    let f = V64(3.0);

    assert_eq!(floats(v1.add(&v2)), vec![4.0, 6.0, 8.0], "Vector + Vector");
    assert_eq!(
        floats(v1.sub(&v2)),
        vec![-2.0, -2.0, -2.0],
        "Vector + Vector"
    );

    assert_eq!(floats(v1.neg()), vec![-1.0, -2.0, -3.0], "Vector");

    assert_eq!(
        v1.inner_product(&v2).0,
        26.0,
        "Vector * Vector (Inner Product)"
    );
    assert_eq!(floats(v1.scale(f)), vec![3.0, 6.0, 9.0], "Vector * f64");

    assert_eq!(
        floats(v1.scale(f.inv())),
        vec![1.0 / 3.0, 2.0 / 3.0, 1.0],
        "Vector / f64"
    );
}

#[test]
fn test_inner_product() {
    let v1 = r64_vec(&[1.0, 0.0, 0.0]);
    let v2 = r64_vec(&[0.0, 1.0, 0.0]);
    let v3 = r64_vec(&[0.0, 0.0, 1.0]);
    let v4 = r64_vec(&[2.0, 2.0, 0.0]);

    assert_eq!(v1.inner_product(&v2).0, 0.0, "Vector Inner Product");
    assert_eq!(v2.inner_product(&v3).0, 0.0, "Vector Inner Product");
    assert_eq!(v3.inner_product(&v1).0, 0.0, "Vector Inner Product");

    assert_eq!(v1.inner_product(&v4).0, 2.0, "Vector Inner Product");

    assert_eq!(
        v3.inner_product(&v3).0,
        1.0,
        "Vector Self Inner Product"
    );
}

fn fp_vec(vals: &[u64]) -> Vector<Fp> {
    Vector::new(vals.iter().map(|v| Fp::new(*v)).collect())
}

fn values(v: Vector<Fp>) -> Vec<u64> {
    v.get_data().iter().map(|x| x.value()).collect()
}

#[test]
fn elementwise_arithmetic() {
    let a = fp_vec(&[1, 2, 3]);
    let b = fp_vec(&[10, 20, 65536]);
    assert_eq!(values(a.add(&b)), vec![11, 22, 2]);
    assert_eq!(values(a.sub(&b)), vec![65528, 65519, 4]);
    assert_eq!(values(a.neg()), vec![65536, 65535, 65534]);
    assert_eq!(values(a.scale(Fp::new(100))), vec![100, 200, 300]);
    assert_eq!(values(Vector::<Fp>::zero(4)), vec![0, 0, 0, 0]);
}

#[test]
fn inner_product_sums_pairwise_products() {
    let a = fp_vec(&[1, 2, 3, 4]);
    let b = fp_vec(&[5, 6, 7, 8]);
    // 5 + 12 + 21 + 32 = 70
    assert_eq!(a.inner_product(&b).value(), 70);
    assert_eq!(a.inner_product(&a).value(), 30);
}

#[test]
fn outer_product_is_the_cross_product() {
    let x = fp_vec(&[1, 0, 0]);
    let y = fp_vec(&[0, 1, 0]);
    assert_eq!(values(x.outer_product(&y)), vec![0, 0, 1]);
    assert_eq!(
        values(y.outer_product(&x)),
        vec![0, 0, Fp::new(1).neg().value()]
    );

    let a = fp_vec(&[1, 2, 3]);
    let b = fp_vec(&[4, 5, 6]);
    // (2*6-3*5, 3*4-1*6, 1*5-2*4) = (-3, 6, -3)
    let cross = values(a.outer_product(&b));
    assert_eq!(cross[0], Fp::new(3).neg().value());
    assert_eq!(cross[1], 6);
    assert_eq!(cross[2], Fp::new(3).neg().value());
}

#[test]
fn vector_size_and_access() {
    let mut v = fp_vec(&[7, 8, 9]);
    assert_eq!(v.size(), 3);
    assert_eq!(v.get(1).value(), 8);
    v.set(1, Fp::new(80));
    assert_eq!(v.get(1).value(), 80);
    assert_eq!(v.clone().get_data().len(), 3);
}
