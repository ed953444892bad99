//! Time-stepping cores for first- and second-order ordinary differential
//! equations.
//!
//! A [`System`] supplies the derivative; what a step does with the
//! derivative values it has gathered is pure algebra, and each method's
//! combination is a verified function with the update formula as its
//! contract.  The `step` methods gather the derivative values and apply
//! the combination; nothing can be promised about a derivative an
//! implementor supplies, so the exact statements live on the combinations.

use vstd::prelude::*;
use crate::algebra::ScalarSpace;

verus! {

/// A second-order system `y'' = f(t, y, y')`, supplied by the user.
pub trait System<S> {
    /// The second derivative at `(t, y, y_prime)`.
    fn derivative(&self, t: S, y: S, y_prime: S) -> S;
}

/// The explicit Euler method.
pub struct EulerMethod;

/// The classical fourth-order Runge-Kutta method.
pub struct RK4Method;

/// Leapfrog integration (velocity Verlet): a half kick, a drift, and a
/// half kick.  Stable for oscillatory motion; the system's derivative must
/// not depend on `y_prime`.
pub struct LeapfrogMethod;

impl EulerMethod {
    /// The Euler update for derivative value `d = f(t, y, y')`:
    /// `y + y' * h` and `y' + d * h`.
    pub fn combine<S: ScalarSpace>(y: S, y_prime: S, d: S, h: S) -> (r: (S, S))
        ensures
            r.0 == y.sadd(y_prime.smul(h)),
            r.1 == y_prime.sadd(d.smul(h)),
    {
        (y.add(y_prime.mul(h)), y_prime.add(d.mul(h)))
    }

    /// One Euler step: evaluates the derivative once and applies
    /// [`EulerMethod::combine`].  The drift of `y` does not depend on the
    /// derivative and is pinned here; the kick of `y'` is pinned by the
    /// combination for whatever the system returned.
    pub fn step<S: ScalarSpace, Sys: System<S>>(
        &mut self,
        system: &Sys,
        t: S,
        y: S,
        y_prime: S,
        h: S,
    ) -> (r: (S, S))
        ensures
            r.0 == y.sadd(y_prime.smul(h)),
    {
        let d = system.derivative(t, y, y_prime);
        Self::combine(y, y_prime, d, h)
    }
}

impl RK4Method {
    /// The Runge-Kutta update for the four derivative values
    /// `k12, k22, k32, k42` gathered during the step: with
    /// `k11 = y'`, `k21 = y' + (k12 / 2) * h`, `k31 = y' + k22 * (h / 2)`
    /// and `k41 = y' + k32 * h`, the state advances by the weighted sums
    /// `(k11 + 2 k21 + 2 k31 + k41) * (h / 6)` and
    /// `(k12 + 2 k22 + 2 k32 + k42) * (h / 6)`.
    pub fn combine<S: ScalarSpace>(y: S, y_prime: S, k12: S, k22: S, k32: S, k42: S, h: S) -> (r: (
        S,
        S,
    ))
        ensures
            ({
                let k11 = y_prime;
                let k21 = y_prime.sadd(k12.sdiv_n(2).smul(h));
                let k31 = y_prime.sadd(k22.smul(h.sdiv_n(2)));
                let k41 = y_prime.sadd(k32.smul(h));
                r.0 == y.sadd(
                    k11.sadd(k21.smul(S::sone().sadd(S::sone()))).sadd(
                        k31.smul(S::sone().sadd(S::sone())),
                    ).sadd(k41).smul(h.sdiv_n(6)),
                )
            }),
            r.1 == y_prime.sadd(
                k12.sadd(k22.smul(S::sone().sadd(S::sone()))).sadd(
                    k32.smul(S::sone().sadd(S::sone())),
                ).sadd(k42).smul(h.sdiv_n(6)),
            ),
    {
        let two = S::one().add(S::one());
        let h6 = h.div_n(6);
        let k11 = y_prime;
        let k21 = y_prime.add(k12.div_n(2).mul(h));
        let k31 = y_prime.add(k22.mul(h.div_n(2)));
        let k41 = y_prime.add(k32.mul(h));
        let y_next = y.add(k11.add(k21.mul(two)).add(k31.mul(two)).add(k41).mul(h6));
        let y_prime_next = y_prime.add(k12.add(k22.mul(two)).add(k32.mul(two)).add(k42).mul(h6));
        (y_next, y_prime_next)
    }

    /// One Runge-Kutta step: evaluates the derivative at the four stage
    /// points the method prescribes and applies [`RK4Method::combine`].
    pub fn step<S: ScalarSpace, Sys: System<S>>(
        &mut self,
        system: &Sys,
        t: S,
        y: S,
        y_prime: S,
        h: S,
    ) -> (S, S) {
        let h2 = h.div_n(2);
        let k12 = system.derivative(t, y, y_prime);
        let mid = k12.div_n(2).mul(h);
        let k21 = y_prime.add(mid);
        let k22 = system.derivative(t.add(h2), y.add(mid), y_prime.add(mid));
        let k31 = y_prime.add(k22.mul(h2));
        let k32 = system.derivative(t.add(h2), y.add(k21.div_n(2).mul(h)), y_prime.add(k22.div_n(2).mul(h)));
        let k41 = y_prime.add(k32.mul(h));
        let k42 = system.derivative(t.add(h), y.add(k31.mul(h)), k41);
        Self::combine(y, y_prime, k12, k22, k32, k42, h)
    }
}

impl LeapfrogMethod {
    /// The first half of a leapfrog step, for derivative value
    /// `d1 = f(t, y, y')`: the half kick `y' + d1 * (h / 2)` and the drift
    /// `y + (y' + d1 * (h / 2)) * h`.
    pub fn kick_drift<S: ScalarSpace>(y: S, y_prime: S, d1: S, h: S) -> (r: (S, S))
        ensures
            r.1 == y_prime.sadd(d1.smul(h.sdiv_n(2))),
            r.0 == y.sadd(y_prime.sadd(d1.smul(h.sdiv_n(2))).smul(h)),
    {
        let half_kicked = y_prime.add(d1.mul(h.div_n(2)));
        (y.add(half_kicked.mul(h)), half_kicked)
    }

    /// The second half kick, for derivative value `d2` at the drifted
    /// position: `y' + d2 * (h / 2)`.
    pub fn kick<S: ScalarSpace>(y_prime: S, d2: S, h: S) -> (r: S)
        ensures
            r == y_prime.sadd(d2.smul(h.sdiv_n(2))),
    {
        y_prime.add(d2.mul(h.div_n(2)))
    }

    /// One leapfrog step: a half kick from the derivative at the start, a
    /// drift, and a half kick from the derivative at the end.
    pub fn step<S: ScalarSpace, Sys: System<S>>(
        &mut self,
        system: &Sys,
        t: S,
        y: S,
        y_prime: S,
        h: S,
    ) -> (S, S) {
        let d1 = system.derivative(t, y, y_prime);
        let (y_next, half_kicked) = Self::kick_drift(y, y_prime, d1, h);
        let d2 = system.derivative(t.add(h), y_next, half_kicked);
        (y_next, Self::kick(half_kicked, d2, h))
    }
}

} // verus!
