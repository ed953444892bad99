//! The integrator step cores: each method's combination formula on
//! concrete values, and a full step against a user-supplied system.

use spectral::algebra::ScalarSpace;
use spectral::fp::Fp;
use spectral::integrate::{EulerMethod, LeapfrogMethod, RK4Method, System};

#[test]
fn euler_combination_matches_the_formula() {
    // y + y' h = 1 + 2 * 4 = 9, y' + d h = 2 + 3 * 4 = 14
    let (y, yp) = EulerMethod::combine(Fp::new(1), Fp::new(2), Fp::new(3), Fp::new(4));
    assert_eq!(y.value(), 9);
    assert_eq!(yp.value(), 14);
}

#[test]
fn rk4_combination_matches_the_formula() {
    // With y = 0, y' = 0, every gathered derivative 12 and h = 6:
    // k11 = 0, k21 = (12/2)*6 = 36, k31 = 12*(6/2) = 36, k41 = 12*6 = 72,
    // y  <- (0 + 72 + 72 + 72) * (6/6) = 216
    // y' <- (12 + 24 + 24 + 12) * (6/6) = 72
    let k = Fp::new(12);
    let (y, yp) = RK4Method::combine(Fp::zero(), Fp::zero(), k, k, k, k, Fp::new(6));
    assert_eq!(y.value(), 216);
    assert_eq!(yp.value(), 72);
}

#[test]
fn leapfrog_combination_matches_the_formula() {
    // half kick: 2 + 4 * (2/2) = 6; drift: 1 + 6 * 2 = 13
    let (y, half) = LeapfrogMethod::kick_drift(Fp::new(1), Fp::new(2), Fp::new(4), Fp::new(2));
    assert_eq!(half.value(), 6);
    assert_eq!(y.value(), 13);
    // closing kick: 6 + 10 * (2/2) = 16
    assert_eq!(LeapfrogMethod::kick(half, Fp::new(10), Fp::new(2)).value(), 16);
}

/// y'' = -y, the harmonic oscillator, over the modular scalar.
struct ModularOscillator;

impl System<Fp> for ModularOscillator {
    fn derivative(&self, _t: Fp, y: Fp, _y_prime: Fp) -> Fp {
        y.neg()
    }
}

#[test]
fn euler_step_drives_a_system() {
    let system = ModularOscillator;
    let mut method = EulerMethod;
    // y = 5, y' = 3, h = 2: y <- 5 + 3*2 = 11, y' <- 3 + (-5)*2 = -7
    let (y, yp) = method.step(&system, Fp::zero(), Fp::new(5), Fp::new(3), Fp::new(2));
    assert_eq!(y.value(), 11);
    assert_eq!(yp.value(), Fp::new(7).neg().value());
}

#[test]
fn leapfrog_step_drives_a_system() {
    let system = ModularOscillator;
    let mut method = LeapfrogMethod;
    // half kick: 3 + (-5)*1 = -2; drift: 5 + (-2)*2 = 1;
    // closing kick: -2 + (-1)*1 = -3
    let (y, yp) = method.step(&system, Fp::zero(), Fp::new(5), Fp::new(3), Fp::new(2));
    assert_eq!(y.value(), 1);
    assert_eq!(yp.value(), Fp::new(3).neg().value());
}

#[test]
fn rk4_step_drives_a_system() {
    let system = ModularOscillator;
    let mut method = RK4Method;
    let (y, yp) = method.step(&system, Fp::zero(), Fp::new(1), Fp::zero(), Fp::new(1));
    // One RK4 step of y'' = -y from (1, 0) with h = 1:
    // k12 = -1, k21 = -1/2, k22 = -(1 - 1/2) = -3/2... all exact in the
    // field; check against the combination formula evaluated by hand.
    let half = Fp::new(1).div_n(2);
    let k12 = Fp::new(1).neg();
    let mid = k12.div_n(2);
    let k21 = mid;
    let k22 = Fp::new(1).add(mid).neg();
    let k31 = k22.div_n(2);
    let k32 = Fp::new(1).add(k21.div_n(2)).neg();
    let k41 = k32;
    let k42 = Fp::new(1).add(k31).neg();
    let two = Fp::new(2);
    let sixth = Fp::new(1).div_n(6);
    let expect_y = Fp::new(1).add(
        Fp::zero().add(k21.mul(two)).add(k31.mul(two)).add(k41).mul(sixth),
    );
    let expect_yp = Fp::zero().add(
        k12.add(k22.mul(two)).add(k32.mul(two)).add(k42).mul(sixth),
    );
    let _ = half;
    assert_eq!(y.value(), expect_y.value());
    assert_eq!(yp.value(), expect_yp.value());
}
