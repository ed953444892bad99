//! An exact scalar instance: the field of integers modulo 65537.
//!
//! 65537 is prime and its multiplicative group has order 65536 = 2^16, so
//! an exact root of unity exists for every power-of-two order up to 2^16
//! (3 generates the group).  Every transform size the engine accepts is a
//! power of two, every such size is invertible, and the arithmetic has no
//! rounding: over [`Fp`] the transforms are exact and exactly invertible,
//! which makes this instance both a verified witness that the
//! [`crate::algebra::ScalarLaws`] obligations are satisfiable and an exact
//! test bed for the transform kernels.

use vstd::prelude::*;
use vstd::arithmetic::div_mod::{
    lemma_add_mod_noop, lemma_add_mod_noop_right, lemma_fundamental_div_mod, lemma_mod_mod,
    lemma_mod_multiples_vanish, lemma_mul_mod_noop_left, lemma_mul_mod_noop_right, lemma_small_mod,
};
use vstd::arithmetic::mul::{
    lemma_mul_is_associative, lemma_mul_is_distributive_add_other_way, lemma_mul_unary_negation,
};
use crate::algebra::{ScalarLaws, ScalarSpace};

verus! {

/// The modulus: 2^16 + 1, a Fermat prime.
pub const FP_MODULUS: u64 = 65537;

/// A residue modulo 65537, held in canonical form (`v < 65537`).
#[derive(Clone, Copy, PartialEq, Eq, Structural, Debug)]
pub struct Fp {
    v: u64,
}

/// `b^e` reduced modulo 65537.
pub open spec fn pow_mod(b: nat, e: nat) -> nat
    decreases e,
{
    if e == 0 {
        1
    } else {
        (pow_mod(b, (e - 1) as nat) * (b % 65537)) % 65537
    }
}

pub proof fn lemma_pow_mod_bound(b: nat, e: nat)
    ensures
        pow_mod(b, e) < 65537,
    decreases e,
{
    if e > 0 {
        lemma_pow_mod_bound(b, (e - 1) as nat);
    }
}

/// Exponents add: `b^(e1+e2)` is the product of `b^e1` and `b^e2`, all
/// reduced modulo 65537.
proof fn lemma_pow_mod_add(b: nat, e1: nat, e2: nat)
    ensures
        pow_mod(b, e1 + e2) == (pow_mod(b, e1) * pow_mod(b, e2)) % 65537,
    decreases e2,
{
    lemma_pow_mod_bound(b, e1);
    if e2 == 0 {
        lemma_small_mod(pow_mod(b, e1), 65537);
        assert(pow_mod(b, e2) == 1);
        assert(pow_mod(b, e1 + e2) == (pow_mod(b, e1) * pow_mod(b, e2)) % 65537);
    } else {
        lemma_pow_mod_add(b, e1, (e2 - 1) as nat);
        let p1 = pow_mod(b, e1) as int;
        let p2 = pow_mod(b, (e2 - 1) as nat) as int;
        let bm = (b % 65537) as int;
        assert(pow_mod(b, e1 + e2) == ((p1 * p2) % 65537 * bm) % 65537);
        lemma_mul_mod_noop_left(p1 * p2, bm, 65537);
        lemma_mul_is_associative(p1, p2, bm);
        lemma_mul_mod_noop_right(p1, p2 * bm, 65537);
        assert(pow_mod(b, e1 + e2) == (p1 * ((p2 * bm) % 65537)) % 65537);
        assert(pow_mod(b, e2) == (p2 * bm) % 65537);
        assert(pow_mod(b, e1 + e2) == (pow_mod(b, e1) * pow_mod(b, e2)) % 65537);
    }
}

/// The square chain of the generator 3: in particular `3^32768 = -1` and
/// `3^65536 = 1` modulo 65537, so 3 has multiplicative order 65536.
proof fn lemma_generator_chain()
    ensures
        pow_mod(3, 32768) == 65536,
        pow_mod(3, 65536) == 1,
{
    reveal_with_fuel(pow_mod, 2);
    assert(pow_mod(3, 1) == 3);
    lemma_pow_mod_add(3, 1, 1);
    assert(pow_mod(3, 2) == 9);
    lemma_pow_mod_add(3, 2, 2);
    assert(pow_mod(3, 4) == 81);
    lemma_pow_mod_add(3, 4, 4);
    assert(pow_mod(3, 8) == 6561);
    lemma_pow_mod_add(3, 8, 8);
    assert(pow_mod(3, 16) == 54449);
    lemma_pow_mod_add(3, 16, 16);
    assert(pow_mod(3, 32) == 61869);
    lemma_pow_mod_add(3, 32, 32);
    assert(pow_mod(3, 64) == 19139);
    lemma_pow_mod_add(3, 64, 64);
    assert(pow_mod(3, 128) == 15028);
    lemma_pow_mod_add(3, 128, 128);
    assert(pow_mod(3, 256) == 282);
    lemma_pow_mod_add(3, 256, 256);
    assert(pow_mod(3, 512) == 13987);
    lemma_pow_mod_add(3, 512, 512);
    assert(pow_mod(3, 1024) == 8224);
    lemma_pow_mod_add(3, 1024, 1024);
    assert(pow_mod(3, 2048) == 65529);
    lemma_pow_mod_add(3, 2048, 2048);
    assert(pow_mod(3, 4096) == 64);
    lemma_pow_mod_add(3, 4096, 4096);
    assert(pow_mod(3, 8192) == 4096);
    lemma_pow_mod_add(3, 8192, 8192);
    assert(pow_mod(3, 16384) == 65281);
    lemma_pow_mod_add(3, 16384, 16384);
    assert(pow_mod(3, 32768) == 65536);
    lemma_pow_mod_add(3, 32768, 32768);
    assert(pow_mod(3, 65536) == 1);
}

/// The first half of the square chain of 21846, the inverse of the
/// generator 3.
proof fn lemma_inverse_chain_low()
    ensures
        pow_mod(21846, 256) == 64375,
{
    reveal_with_fuel(pow_mod, 2);
    assert(pow_mod(21846, 1) == 21846);
    lemma_pow_mod_add(21846, 1, 1);
    assert(pow_mod(21846, 2) == 7282);
    lemma_pow_mod_add(21846, 2, 2);
    assert(pow_mod(21846, 4) == 8091);
    lemma_pow_mod_add(21846, 4, 4);
    assert(pow_mod(21846, 8) == 58355);
    lemma_pow_mod_add(21846, 8, 8);
    assert(pow_mod(21846, 16) == 3505);
    lemma_pow_mod_add(21846, 16, 16);
    assert(pow_mod(21846, 32) == 29606);
    lemma_pow_mod_add(21846, 32, 32);
    assert(pow_mod(21846, 64) == 23398);
    lemma_pow_mod_add(21846, 64, 64);
    assert(pow_mod(21846, 128) == 35843);
    lemma_pow_mod_add(21846, 128, 128);
    assert(pow_mod(21846, 256) == 64375);
}

/// The rest of the square chain of 21846: like 3 itself, its inverse has
/// multiplicative order 65536 and squares to -1 halfway.
#[verifier::rlimit(100)]
proof fn lemma_inverse_generator_chain()
    ensures
        pow_mod(21846, 32768) == 65536,
        pow_mod(21846, 65536) == 1,
{
    lemma_inverse_chain_low();
    assert(pow_mod(21846, 512) == 39504) by {
        lemma_pow_mod_add(21846, 256, 256);
    }
    assert(pow_mod(21846, 1024) == 64509) by {
        lemma_pow_mod_add(21846, 512, 512);
    }
    assert(pow_mod(21846, 2048) == 8192) by {
        lemma_pow_mod_add(21846, 1024, 1024);
    }
    assert(pow_mod(21846, 4096) == 64513) by {
        lemma_pow_mod_add(21846, 2048, 2048);
    }
    assert(pow_mod(21846, 8192) == 65521) by {
        lemma_pow_mod_add(21846, 4096, 4096);
    }
    assert(pow_mod(21846, 16384) == 256) by {
        lemma_pow_mod_add(21846, 8192, 8192);
    }
    assert(pow_mod(21846, 32768) == 65536) by {
        lemma_pow_mod_add(21846, 16384, 16384);
    }
    assert(pow_mod(21846, 65536) == 1) by {
        lemma_pow_mod_add(21846, 32768, 32768);
    }
}

/// `(65537 - x % 65537) % 65537` is the canonical residue of `-x`.
proof fn lemma_neg_mod(x: int)
    requires
        x >= 0,
    ensures
        (65537 - (x % 65537)) % 65537 == (-x) % 65537,
{
    let p = 65537int;
    lemma_fundamental_div_mod(x, p);
    assert(p - (x % p) == p * (1 + x / p) + (-x));
    lemma_mod_multiples_vanish(1 + x / p, -x, p);
}

/// `b^e` computed by repeated modular multiplication.
fn pow_fp(base: u64, e: usize) -> (r: u64)
    ensures
        r as nat == pow_mod(base as nat, e as nat),
        r < 65537,
{
    let b: u64 = base % 65537;
    let mut r: u64 = 1;
    let mut i: usize = 0;
    while i < e
        invariant
            i <= e,
            b == base % 65537,
            r as nat == pow_mod(base as nat, i as nat),
            r < 65537,
        decreases e - i,
    {
        assert(r * b < 65537 * 65537) by (nonlinear_arith)
            requires
                r < 65537,
                b < 65537,
        ;
        r = (r * b) % 65537;
        i = i + 1;
    }
    r
}

impl Fp {
    #[verifier::type_invariant]
    spec fn canonical(self) -> bool {
        self.v < 65537
    }

    /// The residue of `value` modulo 65537.
    pub fn new(value: u64) -> (r: Self)
        ensures
            r.residue() == value as nat % 65537,
    {
        Fp { v: value % 65537 }
    }

    /// The canonical representative, in `[0, 65537)`.
    pub fn value(self) -> (r: u64)
        ensures
            r as nat == self.residue(),
            r < 65537,
    {
        proof {
            use_type_invariant(self);
        }
        self.v
    }

    /// The representative as a ghost integer.
    pub closed spec fn residue(self) -> nat {
        self.v as nat
    }
}

impl ScalarSpace for Fp {
    closed spec fn szero() -> Self {
        Fp { v: 0 }
    }

    closed spec fn sone() -> Self {
        Fp { v: 1 }
    }

    closed spec fn sadd(self, other: Self) -> Self {
        Fp { v: ((self.v + other.v) % 65537) as u64 }
    }

    closed spec fn ssub(self, other: Self) -> Self {
        self.sadd(other.sneg())
    }

    closed spec fn sneg(self) -> Self {
        Fp { v: ((65537 - (self.v % 65537)) % 65537) as u64 }
    }

    closed spec fn smul(self, other: Self) -> Self {
        Fp { v: ((self.v * other.v) % 65537) as u64 }
    }

    closed spec fn sroot(n: nat) -> Self {
        Fp { v: (pow_mod(3, 65536 as nat / n) % 65537) as u64 }
    }

    closed spec fn sroot_inv(n: nat) -> Self {
        Fp { v: (pow_mod(21846, 65536 as nat / n) % 65537) as u64 }
    }

    closed spec fn sdiv_n(self, n: nat) -> Self {
        Fp { v: ((self.v * pow_mod(n % 65537, 65535)) % 65537) as u64 }
    }

    closed spec fn sinv(self) -> Self {
        Fp { v: (pow_mod(self.v as nat, 65535) % 65537) as u64 }
    }

    fn zero() -> (r: Self) {
        Fp { v: 0 }
    }

    fn one() -> (r: Self) {
        Fp { v: 1 }
    }

    fn add(self, other: Self) -> (r: Self) {
        proof {
            use_type_invariant(self);
            use_type_invariant(other);
        }
        Fp { v: (self.v + other.v) % 65537 }
    }

    fn sub(self, other: Self) -> (r: Self) {
        proof {
            use_type_invariant(self);
            use_type_invariant(other);
            lemma_small_mod(other.v as nat, 65537);
            if other.v == 0 {
                lemma_mod_multiples_vanish(1, self.v as int, 65537);
            }
        }
        Fp { v: (self.v + 65537 - other.v) % 65537 }
    }

    fn neg(self) -> (r: Self) {
        proof {
            use_type_invariant(self);
            lemma_small_mod(self.v as nat, 65537);
        }
        Fp { v: (65537 - self.v) % 65537 }
    }

    fn mul(self, other: Self) -> (r: Self) {
        proof {
            use_type_invariant(self);
            use_type_invariant(other);
            assert(self.v * other.v < 65537 * 65537) by (nonlinear_arith)
                requires
                    self.v < 65537,
                    other.v < 65537,
            ;
        }
        Fp { v: (self.v * other.v) % 65537 }
    }

    fn root_step(n: usize) -> (r: Self) {
        let v = pow_fp(3, 65536 / n);
        proof {
            lemma_small_mod(pow_mod(3, 65536 as nat / n as nat), 65537);
        }
        Fp { v }
    }

    fn root_step_inv(n: usize) -> (r: Self) {
        let v = pow_fp(21846, 65536 / n);
        proof {
            lemma_small_mod(pow_mod(21846, 65536 as nat / n as nat), 65537);
        }
        Fp { v }
    }

    fn div_n(self, n: usize) -> (r: Self) {
        proof {
            use_type_invariant(self);
        }
        let inv = pow_fp((n % 65537) as u64, 65535);
        assert(self.v * inv < 65537 * 65537) by (nonlinear_arith)
            requires
                self.v < 65537,
                inv < 65537,
        ;
        Fp { v: (self.v * inv) % 65537 }
    }

    fn inv(self) -> (r: Self) {
        let v = pow_fp(self.v, 65535);
        proof {
            lemma_small_mod(pow_mod(self.v as nat, 65535), 65537);
        }
        Fp { v }
    }
}

impl ScalarLaws for Fp {
    closed spec fn svalid(self) -> bool {
        self.v < 65537
    }

    proof fn valid_zero() {
    }

    proof fn valid_one() {
    }

    proof fn valid_add(a: Self, b: Self) {
    }

    proof fn valid_sub(a: Self, b: Self) {
    }

    proof fn valid_neg(a: Self) {
    }

    proof fn valid_mul(a: Self, b: Self) {
    }

    proof fn valid_root(n: nat) {
    }

    open spec fn order_supported(n: nat) -> bool {
        1 <= n && (65536 as nat) % n == 0
    }

    proof fn root_one() {
        lemma_generator_chain();
        lemma_inverse_generator_chain();
        lemma_small_mod(1, 65537);
        assert(65536 as nat / 1 == 65536);
        assert(Fp::sroot(1).v == (pow_mod(3, 65536 as nat) % 65537) as u64);
        assert(Fp::sroot_inv(1).v == (pow_mod(21846, 65536 as nat) % 65537) as u64);
    }

    proof fn root_two() {
        lemma_generator_chain();
        lemma_inverse_generator_chain();
        lemma_small_mod(65536, 65537);
        lemma_small_mod(1, 65537);
        assert(65536 as nat / 2 == 32768);
        assert(Fp::sroot(2).v == (pow_mod(3, 32768 as nat) % 65537) as u64);
        assert(Fp::sroot_inv(2).v == (pow_mod(21846, 32768 as nat) % 65537) as u64);
        assert(Fp::sone().sneg().v == ((65537 - (1int % 65537)) % 65537) as u64);
    }

    proof fn root_chain(len: nat) {
        let e2 = 65536 as nat / (2 * len);
        let q = 65536 as nat / len;
        lemma_fundamental_div_mod(65536, 2 * len as int);
        lemma_fundamental_div_mod(65536, len as int);
        assert(65536 == (2 * len) * e2);
        assert(q == 2 * e2) by (nonlinear_arith)
            requires
                65536 == (2 * len) * e2,
                65536 == len * q,
                1 <= len,
        ;
        lemma_pow_mod_bound(3, e2);
        lemma_small_mod(pow_mod(3, e2), 65537);
        lemma_pow_mod_add(3, e2, e2);
        lemma_small_mod(pow_mod(3, q), 65537);
        lemma_small_mod(pow_mod(3, 2 * e2), 65537);
        lemma_pow_mod_bound(21846, e2);
        lemma_small_mod(pow_mod(21846, e2), 65537);
        lemma_pow_mod_add(21846, e2, e2);
        lemma_small_mod(pow_mod(21846, q), 65537);
        lemma_small_mod(pow_mod(21846, 2 * e2), 65537);
    }

    proof fn order_supported_halves(len: nat) {
        lemma_mod_mod(65536, len as int, 2);
        assert((65536 as nat) % (2 * len) == 0);
        assert(65536int % ((len as int) * 2) == 0) by (nonlinear_arith)
            requires
                (65536 as nat) % (2 * len) == 0,
        ;
        assert(0int % (len as int) == 0) by (nonlinear_arith)
            requires
                1 <= len,
        ;
        assert((65536 as nat) % len == 0);
    }

    proof fn add_commutes(a: Self, b: Self) {
    }

    proof fn add_associates(a: Self, b: Self, c: Self) {
        let (x, y, z) = (a.v as int, b.v as int, c.v as int);
        lemma_add_mod_noop_right(z, x + y, 65537);
        lemma_add_mod_noop_right(x, y + z, 65537);
        assert(a.sadd(b).sadd(c).v == (z + (x + y) % 65537) % 65537);
        assert(a.sadd(b.sadd(c)).v == (x + (y + z) % 65537) % 65537);
    }

    proof fn add_zero(a: Self) {
        lemma_small_mod(a.v as nat, 65537);
    }

    proof fn sub_is_add_neg(a: Self, b: Self) {
    }

    proof fn neg_zero() {
        lemma_small_mod(0, 65537);
    }

    proof fn neg_distributes(a: Self, b: Self) {
        let (x, y) = (a.v as int, b.v as int);
        lemma_neg_mod(x + y);
        lemma_small_mod(((x + y) % 65537) as nat, 65537);
        lemma_neg_mod(x);
        lemma_neg_mod(y);
        lemma_add_mod_noop(-x, -y, 65537);
    }

    proof fn mul_commutes(a: Self, b: Self) {
        lemma_mul_is_associative(1, a.v as int, b.v as int);
    }

    proof fn mul_associates(a: Self, b: Self, c: Self) {
        let (x, y, z) = (a.v as int, b.v as int, c.v as int);
        lemma_mul_mod_noop_left(x * y, z, 65537);
        lemma_mul_mod_noop_right(x, y * z, 65537);
        lemma_mul_is_associative(x, y, z);
    }

    proof fn mul_one(a: Self) {
        lemma_small_mod(a.v as nat, 65537);
    }

    proof fn mul_zero(a: Self) {
        lemma_small_mod(0, 65537);
    }

    proof fn mul_distributes(a: Self, b: Self, c: Self) {
        let (x, y, z) = (a.v as int, b.v as int, c.v as int);
        lemma_mul_mod_noop_left(x + y, z, 65537);
        lemma_mul_is_distributive_add_other_way(z, x, y);
        lemma_add_mod_noop(x * z, y * z, 65537);
    }

    proof fn mul_neg(a: Self, b: Self) {
        let (x, y) = (a.v as int, b.v as int);
        lemma_neg_mod(x);
        lemma_mul_mod_noop_left(-x, y, 65537);
        lemma_mul_unary_negation(x, y);
        lemma_neg_mod(x * y);
        lemma_small_mod(((x * y) % 65537) as nat, 65537);
    }
}

} // verus!
