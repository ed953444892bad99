//! The scalar capability traits that the transform kernels are generic over.
//!
//! [`ScalarSpace`] asks for the ring operations, a root of unity for each
//! transform size, and division by a size; every executable operation is
//! specified against a ghost counterpart.  [`ScalarLaws`] additionally asks
//! for proofs of the commutative-ring laws, which the transform lemmas rely
//! on.

use vstd::prelude::*;

verus! {

/// The arithmetic capabilities a scalar must offer to run through the
/// transform kernels.
///
/// Each executable operation (`add`, `mul`, ...) is pinned to a ghost
/// counterpart (`sadd`, `smul`, ...) that contracts and lemmas speak of.
/// `root_step(n)` supplies the base twiddle factor for block length `n`
/// (the counterpart of `cis(-2*pi/n)` for complex numbers), `root_step_inv`
/// its inverse-transform twin (positive angle), and `div_n` the scaling by
/// `1/n` that the inverse transform ends with.
pub trait ScalarSpace: Sized + Copy {
    /// The additive identity, as a ghost value.
    open spec fn szero() -> Self {
        vstd::pervasive::arbitrary()
    }

    /// The multiplicative identity, as a ghost value.
    open spec fn sone() -> Self {
        vstd::pervasive::arbitrary()
    }

    /// Ghost addition.
    open spec fn sadd(self, other: Self) -> Self {
        vstd::pervasive::arbitrary()
    }

    /// Ghost subtraction.
    open spec fn ssub(self, other: Self) -> Self {
        vstd::pervasive::arbitrary()
    }

    /// Ghost negation.
    open spec fn sneg(self) -> Self {
        vstd::pervasive::arbitrary()
    }

    /// Ghost multiplication.
    open spec fn smul(self, other: Self) -> Self {
        vstd::pervasive::arbitrary()
    }

    /// Ghost base twiddle factor of order `n` (forward transform).
    open spec fn sroot(n: nat) -> Self {
        vstd::pervasive::arbitrary()
    }

    /// Ghost base twiddle factor of order `n` (inverse transform).
    open spec fn sroot_inv(n: nat) -> Self {
        vstd::pervasive::arbitrary()
    }

    /// Ghost division by a transform size.
    open spec fn sdiv_n(self, n: nat) -> Self {
        vstd::pervasive::arbitrary()
    }

    /// Ghost multiplicative inverse (unconstrained at zero).
    open spec fn sinv(self) -> Self {
        vstd::pervasive::arbitrary()
    }

    /// The additive identity.
    fn zero() -> (r: Self)
        ensures
            r == Self::szero(),
    ;

    /// The multiplicative identity.
    fn one() -> (r: Self)
        ensures
            r == Self::sone(),
    ;

    /// Addition.
    fn add(self, other: Self) -> (r: Self)
        ensures
            r == self.sadd(other),
    ;

    /// Subtraction.
    fn sub(self, other: Self) -> (r: Self)
        ensures
            r == self.ssub(other),
    ;

    /// Negation.
    fn neg(self) -> (r: Self)
        ensures
            r == self.sneg(),
    ;

    /// Multiplication.
    fn mul(self, other: Self) -> (r: Self)
        ensures
            r == self.smul(other),
    ;

    /// The base twiddle factor of order `n` for the forward transform.
    fn root_step(n: usize) -> (r: Self)
        requires
            n >= 1,
        ensures
            r == Self::sroot(n as nat),
    ;

    /// The base twiddle factor of order `n` for the inverse transform.
    fn root_step_inv(n: usize) -> (r: Self)
        requires
            n >= 1,
        ensures
            r == Self::sroot_inv(n as nat),
    ;

    /// Division by a transform size, the final scaling of an inverse
    /// transform.
    fn div_n(self, n: usize) -> (r: Self)
        requires
            n >= 1,
        ensures
            r == self.sdiv_n(n as nat),
    ;

    /// The multiplicative inverse.
    fn inv(self) -> (r: Self)
        ensures
            r == self.sinv(),
    ;
}

/// The commutative-ring laws of a [`ScalarSpace`], as proof obligations.
///
/// The transform lemmas (impulse response, linearity) hold for every scalar
/// type that discharges these obligations.
///
/// `svalid` names the carrier of the ring.  For a type whose every value is
/// a ring element it is simply `true`; a type with an internal range
/// invariant (such as a residue stored in a wider machine integer) restricts
/// the laws to the values that respect it.  The operations must not leave
/// the carrier, and the identity laws are demanded on the carrier only.
pub trait ScalarLaws: ScalarSpace {
    /// Membership in the ring's carrier.
    spec fn svalid(self) -> bool;

    /// The transform orders whose roots of unity this scalar really
    /// carries.  The root laws below are demanded on these orders only: a
    /// finite ring supports orders up to the size of its multiplicative
    /// group, while for complex numbers every order is supported.
    open spec fn order_supported(n: nat) -> bool {
        true
    }

    /// The roots of order one, forward and inverse, are the identity.
    proof fn root_one()
        requires
            Self::order_supported(1),
        ensures
            Self::sroot(1) == Self::sone(),
            Self::sroot_inv(1) == Self::sone(),
    ;

    /// The roots of order two, forward and inverse, are minus one.
    proof fn root_two()
        requires
            Self::order_supported(2),
        ensures
            Self::sroot(2) == Self::sone().sneg(),
            Self::sroot_inv(2) == Self::sone().sneg(),
    ;

    /// Squaring a root of unity halves its order, in both directions.
    proof fn root_chain(len: nat)
        requires
            1 <= len,
            Self::order_supported(2 * len),
            Self::order_supported(len),
        ensures
            Self::sroot(2 * len).smul(Self::sroot(2 * len)) == Self::sroot(len),
            Self::sroot_inv(2 * len).smul(Self::sroot_inv(2 * len)) == Self::sroot_inv(len),
    ;

    /// Supported orders are closed under halving.
    proof fn order_supported_halves(len: nat)
        requires
            1 <= len,
            Self::order_supported(2 * len),
        ensures
            Self::order_supported(len),
    ;

    /// Zero lies in the carrier.
    proof fn valid_zero()
        ensures
            Self::szero().svalid(),
    ;

    /// One lies in the carrier.
    proof fn valid_one()
        ensures
            Self::sone().svalid(),
    ;

    /// The carrier is closed under addition.
    proof fn valid_add(a: Self, b: Self)
        requires
            a.svalid(),
            b.svalid(),
        ensures
            a.sadd(b).svalid(),
    ;

    /// The carrier is closed under subtraction.
    proof fn valid_sub(a: Self, b: Self)
        requires
            a.svalid(),
            b.svalid(),
        ensures
            a.ssub(b).svalid(),
    ;

    /// The carrier is closed under negation.
    proof fn valid_neg(a: Self)
        requires
            a.svalid(),
        ensures
            a.sneg().svalid(),
    ;

    /// The carrier is closed under multiplication.
    proof fn valid_mul(a: Self, b: Self)
        requires
            a.svalid(),
            b.svalid(),
        ensures
            a.smul(b).svalid(),
    ;

    /// Every base twiddle factor lies in the carrier.
    proof fn valid_root(n: nat)
        ensures
            Self::sroot(n).svalid(),
            Self::sroot_inv(n).svalid(),
    ;

    /// Addition commutes.
    proof fn add_commutes(a: Self, b: Self)
        ensures
            a.sadd(b) == b.sadd(a),
    ;

    /// Addition associates.
    proof fn add_associates(a: Self, b: Self, c: Self)
        ensures
            a.sadd(b).sadd(c) == a.sadd(b.sadd(c)),
    ;

    /// Zero is the additive identity on the carrier.
    proof fn add_zero(a: Self)
        requires
            a.svalid(),
        ensures
            a.sadd(Self::szero()) == a,
    ;

    /// Subtraction is addition of the negation.
    proof fn sub_is_add_neg(a: Self, b: Self)
        ensures
            a.ssub(b) == a.sadd(b.sneg()),
    ;

    /// Zero is its own negation.
    proof fn neg_zero()
        ensures
            Self::szero().sneg() == Self::szero(),
    ;

    /// Negation distributes over addition.
    proof fn neg_distributes(a: Self, b: Self)
        ensures
            a.sadd(b).sneg() == a.sneg().sadd(b.sneg()),
    ;

    /// Multiplication commutes.
    proof fn mul_commutes(a: Self, b: Self)
        ensures
            a.smul(b) == b.smul(a),
    ;

    /// Multiplication associates.
    proof fn mul_associates(a: Self, b: Self, c: Self)
        ensures
            a.smul(b).smul(c) == a.smul(b.smul(c)),
    ;

    /// One is the multiplicative identity on the carrier.
    proof fn mul_one(a: Self)
        requires
            a.svalid(),
        ensures
            a.smul(Self::sone()) == a,
    ;

    /// Zero annihilates products.
    proof fn mul_zero(a: Self)
        ensures
            Self::szero().smul(a) == Self::szero(),
    ;

    /// Multiplication distributes over addition.
    proof fn mul_distributes(a: Self, b: Self, c: Self)
        ensures
            a.sadd(b).smul(c) == a.smul(c).sadd(b.smul(c)),
    ;

    /// A negated factor negates the product.
    proof fn mul_neg(a: Self, b: Self)
        ensures
            a.sneg().smul(b) == a.smul(b).sneg(),
    ;
}

} // verus!
