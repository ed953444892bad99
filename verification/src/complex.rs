//! Complex numbers over an abstract scalar.
//!
//! A [`Complex`] is an ordered pair of scalars; its arithmetic is standard
//! complex-number algebra written over the scalar's ring operations, each
//! operation specified by its defining formula.  The polar helpers of a
//! floating-point complex number (`abs`, `phase`, `cis`, `from_polar`) are
//! transcendental and belong to a floating-point instantiation of the
//! scalar algebra; they have no exact counterpart here.

use vstd::prelude::*;
use crate::algebra::ScalarSpace;

verus! {

/// An ordered pair `(re, im)` of scalars with complex-number algebra.
#[derive(Clone, Copy, Debug)]
pub struct Complex<S> {
    /// The real part.
    pub re: S,
    /// The imaginary part.
    pub im: S,
}

impl<S: ScalarSpace> Complex<S> {
    /// The complex number `re + im * i`.
    pub fn new(re: S, im: S) -> (r: Self)
        ensures
            r.re == re,
            r.im == im,
    {
        Complex { re, im }
    }

    /// Zero.
    pub fn zero() -> (r: Self)
        ensures
            r.re == S::szero(),
            r.im == S::szero(),
    {
        Complex { re: S::zero(), im: S::zero() }
    }

    /// One.
    pub fn one() -> (r: Self)
        ensures
            r.re == S::sone(),
            r.im == S::szero(),
    {
        Complex { re: S::one(), im: S::zero() }
    }

    /// The imaginary unit.
    pub fn i() -> (r: Self)
        ensures
            r.re == S::szero(),
            r.im == S::sone(),
    {
        Complex { re: S::zero(), im: S::one() }
    }

    /// A real number as a complex number.
    pub fn from_real(re: S) -> (r: Self)
        ensures
            r.re == re,
            r.im == S::szero(),
    {
        Complex { re, im: S::zero() }
    }

    /// The complex conjugate: the imaginary part negated.
    pub fn conj(self) -> (r: Self)
        ensures
            r.re == self.re,
            r.im == self.im.sneg(),
    {
        Complex { re: self.re, im: self.im.neg() }
    }

    /// Negation of both parts.
    pub fn neg(self) -> (r: Self)
        ensures
            r.re == self.re.sneg(),
            r.im == self.im.sneg(),
    {
        Complex { re: self.re.neg(), im: self.im.neg() }
    }

    /// Componentwise addition.
    pub fn add(self, rhs: Self) -> (r: Self)
        ensures
            r.re == self.re.sadd(rhs.re),
            r.im == self.im.sadd(rhs.im),
    {
        Complex { re: self.re.add(rhs.re), im: self.im.add(rhs.im) }
    }

    /// Componentwise subtraction.
    pub fn sub(self, rhs: Self) -> (r: Self)
        ensures
            r.re == self.re.ssub(rhs.re),
            r.im == self.im.ssub(rhs.im),
    {
        Complex { re: self.re.sub(rhs.re), im: self.im.sub(rhs.im) }
    }

    /// Complex multiplication: `(ac - bd) + (ad + bc) i`.
    pub fn mul(self, rhs: Self) -> (r: Self)
        ensures
            r.re == self.re.smul(rhs.re).ssub(self.im.smul(rhs.im)),
            r.im == self.re.smul(rhs.im).sadd(self.im.smul(rhs.re)),
    {
        Complex {
            re: self.re.mul(rhs.re).sub(self.im.mul(rhs.im)),
            im: self.re.mul(rhs.im).add(self.im.mul(rhs.re)),
        }
    }

    /// Complex division: multiplication by the conjugate over the squared
    /// norm, `(ac + bd) / (c^2 + d^2) + ((bc - ad) / (c^2 + d^2)) i`.
    pub fn div(self, rhs: Self) -> (r: Self)
        ensures
            r.re == self.re.smul(rhs.re).sadd(self.im.smul(rhs.im)).smul(
                rhs.re.smul(rhs.re).sadd(rhs.im.smul(rhs.im)).sinv(),
            ),
            r.im == self.im.smul(rhs.re).ssub(self.re.smul(rhs.im)).smul(
                rhs.re.smul(rhs.re).sadd(rhs.im.smul(rhs.im)).sinv(),
            ),
    {
        let denom_inv = rhs.re.mul(rhs.re).add(rhs.im.mul(rhs.im)).inv();
        Complex {
            re: self.re.mul(rhs.re).add(self.im.mul(rhs.im)).mul(denom_inv),
            im: self.im.mul(rhs.re).sub(self.re.mul(rhs.im)).mul(denom_inv),
        }
    }

    /// Scaling by a real scalar.
    pub fn scale(self, k: S) -> (r: Self)
        ensures
            r.re == self.re.smul(k),
            r.im == self.im.smul(k),
    {
        Complex { re: self.re.mul(k), im: self.im.mul(k) }
    }

    /// The squared Euclidean norm, `re^2 + im^2`.
    pub fn abs_square(self) -> (r: S)
        ensures
            r == self.re.smul(self.re).sadd(self.im.smul(self.im)),
    {
        self.re.mul(self.re).add(self.im.mul(self.im))
    }
}

} // verus!
