//! Frequency-domain index bookkeeping for spectral solvers.
//!
//! A solver that multiplies each mode of a transformed field by a function
//! of its spatial frequency must first fold the raw array index into a
//! signed wavenumber: indices past the midpoint stand for negative
//! frequencies.  The folding and the squared norm of a wavenumber triple
//! are exact integer computations and are verified here; what a solver
//! multiplies by (and how it treats the zero mode, where the squared norm
//! vanishes) is its own decision.

use vstd::prelude::*;

verus! {

/// Folds a raw frequency index into a signed wavenumber: `index` itself up
/// to the midpoint, `index - n` past it.
pub fn fold_wavenumber(index: usize, n: usize) -> (k: i64)
    requires
        index < n,
        n <= 0x7fff_ffff_ffff_ffff,
    ensures
        index <= n / 2 ==> k == index as int,
        index > n / 2 ==> k == index as int - n as int,
{
    if index <= n / 2 {
        index as i64
    } else {
        index as i64 - n as i64
    }
}

/// The squared norm of a wavenumber triple, `kx^2 + ky^2 + kz^2`.  It is
/// zero exactly on the zero mode, the mode a spectral Poisson solver must
/// decide how to treat before dividing by it.
pub fn wavenumber_norm_sq(kx: i64, ky: i64, kz: i64) -> (r: i64)
    requires
        -0x4000_0000 <= kx <= 0x4000_0000,
        -0x4000_0000 <= ky <= 0x4000_0000,
        -0x4000_0000 <= kz <= 0x4000_0000,
    ensures
        r == kx * kx + ky * ky + kz * kz,
        r == 0 <==> kx == 0 && ky == 0 && kz == 0,
{
    proof {
        assert(kx * kx <= 0x4000_0000 * 0x4000_0000 && kx * kx >= 0) by (nonlinear_arith)
            requires
                -0x4000_0000 <= kx <= 0x4000_0000,
        ;
        assert(ky * ky <= 0x4000_0000 * 0x4000_0000 && ky * ky >= 0) by (nonlinear_arith)
            requires
                -0x4000_0000 <= ky <= 0x4000_0000,
        ;
        assert(kz * kz <= 0x4000_0000 * 0x4000_0000 && kz * kz >= 0) by (nonlinear_arith)
            requires
                -0x4000_0000 <= kz <= 0x4000_0000,
        ;
        assert(kx != 0 ==> kx * kx > 0) by (nonlinear_arith);
        assert(ky != 0 ==> ky * ky > 0) by (nonlinear_arith);
        assert(kz != 0 ==> kz * kz > 0) by (nonlinear_arith);
    }
    kx * kx + ky * ky + kz * kz
}

} // verus!
