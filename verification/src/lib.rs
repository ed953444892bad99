//! A spectral toolkit built around a verified Fast Fourier Transform engine.
//!
//! The transform kernels are generic over an abstract scalar algebra
//! ([`algebra::ScalarSpace`]): any type that supplies ring operations and
//! roots of unity can be pushed through the direct transform, the
//! Cooley-Tukey fast transform, and their 2D/3D axis-separable extensions.
//! For every scalar algebra that also proves the ring and root-of-unity
//! laws ([`algebra::ScalarLaws`]), the fast transforms are theorems, not
//! just code: they agree exactly with the defining sums of the direct
//! transforms ([`oracle`]), carry a unit impulse to the all-ones spectrum,
//! and are linear ([`laws`]).
//!
//! The crate ships one fully verified instance, arithmetic in the prime
//! field of integers modulo 65537 ([`fp::Fp`]), whose multiplicative group
//! contains an exact root of unity for every power-of-two order, so the
//! transforms are exact and exactly invertible over it.  Floating-point
//! scalars can instantiate the same engine from client code.

pub mod algebra;
pub mod complex;
pub mod fp;
pub mod vector;
pub mod fft;
pub mod field;
pub mod integrate;
pub mod laws;
pub mod oracle;
pub mod spectral;
