//! Algebraic laws of the fast transform, proved from the ring laws alone.
//!
//! These hold for every scalar type that discharges the
//! [`ScalarLaws`] obligations, whatever its roots of unity are: the
//! transform of a unit impulse is the all-ones spectrum, and the transform
//! is linear.

use vstd::prelude::*;
use vstd::arithmetic::div_mod::{lemma_fundamental_div_mod, lemma_mod_multiples_basic};
use vstd::arithmetic::power2::{lemma_pow2_strictly_increases, pow2};
use crate::algebra::{ScalarLaws, ScalarSpace};
use crate::fft::{
    bit_rev, bit_rev_perm, butterfly_pass, fft_spec, is_power_of_two, lemma_bit_rev_bound,
    lemma_bit_rev_involution, lemma_log2_pow2, lemma_stages_len, log2, pow_s, stage_root, stages,
};

verus! {

/// Every element lies in the scalar carrier.
pub open spec fn all_valid<S: ScalarLaws>(x: Seq<S>) -> bool {
    forall|i: int| 0 <= i < x.len() ==> (#[trigger] x[i]).svalid()
}

/// The unit impulse: one at index zero, zero everywhere else.
pub open spec fn impulse<S: ScalarSpace>(n: nat) -> Seq<S> {
    Seq::new(
        n,
        |t: int|
            if t == 0 {
                S::sone()
            } else {
                S::szero()
            },
    )
}

/// The constant all-ones sequence.
pub open spec fn all_ones<S: ScalarSpace>(n: nat) -> Seq<S> {
    Seq::new(n, |t: int| S::sone())
}

/// The elementwise combination `a * x + b * y`.
pub open spec fn lincomb<S: ScalarSpace>(a: S, b: S, x: Seq<S>, y: Seq<S>) -> Seq<S> {
    Seq::new(x.len(), |i: int| a.smul(x[i]).sadd(b.smul(y[i])))
}

/// Ones on the first `len` positions, zeros beyond: the shape the impulse
/// takes after the passes up to width `len`.
spec fn ones_then_zeros<S: ScalarSpace>(n: nat, len: nat) -> Seq<S> {
    Seq::new(
        n,
        |t: int|
            if t < len {
                S::sone()
            } else {
                S::szero()
            },
    )
}

/// A smaller power of two divides a larger one.
proof fn lemma_pow2_divides(a: nat, b: nat)
    requires
        is_power_of_two(a),
        is_power_of_two(b),
        a <= b,
    ensures
        b % a == 0,
{
    lemma_log2_pow2(a);
    lemma_log2_pow2(b);
    let la = log2(a);
    let lb = log2(b);
    if la > lb {
        lemma_pow2_strictly_increases(lb, la);
        assert(false);
    }
    vstd::arithmetic::power2::lemma_pow2_adds(la, (lb - la) as nat);
    assert(b == pow2((lb - la) as nat) * a) by (nonlinear_arith)
        requires
            b == pow2(la) * pow2((lb - la) as nat),
            a == pow2(la),
    ;
    lemma_mod_multiples_basic(pow2((lb - la) as nat) as int, a as int);
}

/// The block containing index `t` is whole: it starts at a multiple of
/// `len` and ends within the sequence.
proof fn lemma_block_bounds(t: int, len: int, n: int)
    requires
        0 <= t < n,
        1 <= len,
        n % len == 0,
    ensures
        0 <= t % len < len,
        0 <= t - t % len,
        (t - t % len) + len <= n,
        (t - t % len) % len == 0,
        t - t % len == 0 || t - t % len >= len,
{
    lemma_fundamental_div_mod(t, len);
    lemma_fundamental_div_mod(n, len);
    lemma_mod_multiples_basic(t / len, len);
    let q = t / len;
    let qn = n / len;
    assert((t - t % len) + len <= n) by (nonlinear_arith)
        requires
            t == len * q + t % len,
            n == len * qn,
            0 <= t % len < len,
            0 <= t < n,
            1 <= len,
    ;
    assert(t - t % len == 0 || t - t % len >= len) by (nonlinear_arith)
        requires
            t == len * q + t % len,
            0 <= t % len < len,
            0 <= t,
            1 <= len,
    ;
}

/// Powers of a carrier element stay in the carrier.
pub proof fn lemma_pow_valid<S: ScalarLaws>(w: S, e: nat)
    requires
        w.svalid(),
    ensures
        pow_s(w, e).svalid(),
    decreases e,
{
    if e == 0 {
        S::valid_one();
    } else {
        lemma_pow_valid(w, (e - 1) as nat);
        S::valid_mul(pow_s(w, (e - 1) as nat), w);
    }
}

/// A butterfly pass keeps every element in the carrier.
proof fn lemma_pass_valid<S: ScalarLaws>(x: Seq<S>, len: nat, w: S)
    requires
        all_valid(x),
        w.svalid(),
        2 <= len,
        x.len() % len == 0,
    ensures
        all_valid(butterfly_pass(x, len, w)),
{
    let n = x.len() as int;
    assert forall|t: int| 0 <= t < n implies (#[trigger] butterfly_pass(x, len, w)[t]).svalid() by {
        lemma_block_bounds(t, len as int, n);
        let r = t % (len as int);
        let b = t - r;
        let h = len as int / 2;
        if r < h {
            lemma_pow_valid(w, r as nat);
            S::valid_mul(x[b + r + h], pow_s(w, r as nat));
            S::valid_add(x[b + r], x[b + r + h].smul(pow_s(w, r as nat)));
        } else {
            lemma_pow_valid(w, (r - h) as nat);
            S::valid_mul(x[b + r], pow_s(w, (r - h) as nat));
            S::valid_sub(x[b + r - h], x[b + r].smul(pow_s(w, (r - h) as nat)));
        }
    }
}

/// All butterfly passes keep every element in the carrier.
proof fn lemma_stages_valid<S: ScalarLaws>(x: Seq<S>, len: nat, inverse: bool)
    requires
        all_valid(x),
        is_power_of_two(x.len()),
        is_power_of_two(len),
        len <= x.len(),
    ensures
        all_valid(stages(x, len, inverse)),
    decreases len,
{
    if len >= 2 {
        lemma_stages_valid(x, len / 2, inverse);
        lemma_stages_len(x, len / 2, inverse);
        S::valid_root(len);
        lemma_pow2_divides(len, x.len());
        lemma_pass_valid(stages(x, len / 2, inverse), len, stage_root::<S>(len, inverse));
    }
}

/// Reversing the bits of zero gives zero.
proof fn lemma_bit_rev_zero(bits: nat)
    ensures
        bit_rev(0, bits) == 0,
    decreases bits,
{
    if bits > 0 {
        lemma_bit_rev_zero((bits - 1) as nat);
        assert((0nat % 2) * pow2((bits - 1) as nat) == 0) by (nonlinear_arith);
    }
}

/// The impulse is a fixed point of the bit-reversal permutation.
proof fn lemma_bit_rev_perm_impulse<S: ScalarSpace>(n: nat)
    requires
        is_power_of_two(n),
    ensures
        bit_rev_perm(impulse::<S>(n)) =~= impulse::<S>(n),
{
    lemma_log2_pow2(n);
    let lg = log2(n);
    lemma_bit_rev_zero(lg);
    assert forall|t: int| 0 <= t < n implies #[trigger] bit_rev_perm(impulse::<S>(n))[t]
        == impulse::<S>(n)[t] by {
        lemma_bit_rev_bound(t as nat, lg);
        lemma_bit_rev_involution(t as nat, lg);
        if bit_rev(t as nat, lg) == 0 {
            assert(t == 0);
        }
    }
}

/// Subtracting zero changes nothing, on the carrier.
proof fn lemma_sub_zero<S: ScalarLaws>(u: S)
    requires
        u.svalid(),
    ensures
        u.ssub(S::szero()) == u,
{
    S::sub_is_add_neg(u, S::szero());
    S::neg_zero();
    S::add_zero(u);
}

/// One butterfly pass carries `ones_then_zeros(n, len / 2)` to
/// `ones_then_zeros(n, len)`: within the leading block the zero half
/// contributes nothing, and every later block is all zeros.
proof fn lemma_pass_impulse<S: ScalarLaws>(n: nat, len: nat)
    requires
        is_power_of_two(n),
        is_power_of_two(len),
        2 <= len <= n,
    ensures
        butterfly_pass(
            ones_then_zeros::<S>(n, len / 2),
            len,
            stage_root::<S>(len, false),
        ) =~= ones_then_zeros::<S>(n, len),
{
    let y = ones_then_zeros::<S>(n, len / 2);
    let w = stage_root::<S>(len, false);
    lemma_pow2_divides(len, n);
    S::valid_zero();
    S::valid_one();
    assert forall|t: int| 0 <= t < n implies #[trigger] butterfly_pass(y, len, w)[t]
        == ones_then_zeros::<S>(n, len)[t] by {
        lemma_block_bounds(t, len as int, n as int);
        let r = t % (len as int);
        let b = t - r;
        let h = len as int / 2;
        if r < h {
            if b == 0 {
                S::mul_zero(pow_s(w, r as nat));
                S::add_zero(S::sone());
            } else {
                S::mul_zero(pow_s(w, r as nat));
                S::add_zero(S::szero());
            }
        } else {
            if b == 0 {
                S::mul_zero(pow_s(w, (r - h) as nat));
                lemma_sub_zero(S::sone());
            } else {
                S::mul_zero(pow_s(w, (r - h) as nat));
                lemma_sub_zero(S::szero());
            }
        }
    }
}

/// After the passes up to width `len`, the transform of the impulse is
/// ones on the first `len` positions and zeros beyond.
proof fn lemma_stages_impulse<S: ScalarLaws>(n: nat, len: nat)
    requires
        is_power_of_two(n),
        is_power_of_two(len),
        len <= n,
    ensures
        stages(impulse::<S>(n), len, false) =~= ones_then_zeros::<S>(n, len),
    decreases len,
{
    if len < 2 {
        assert(impulse::<S>(n) =~= ones_then_zeros::<S>(n, 1));
    } else {
        lemma_stages_impulse::<S>(n, len / 2);
        lemma_pass_impulse::<S>(n, len);
        assert(butterfly_pass(
            stages(impulse::<S>(n), len / 2, false),
            len,
            stage_root::<S>(len, false),
        ) =~= butterfly_pass(ones_then_zeros::<S>(n, len / 2), len, stage_root::<S>(len, false)));
    }
}

/// Impulse response: the forward transform of a unit impulse is the
/// all-ones spectrum, for every valid size and every scalar algebra that
/// satisfies the ring laws.
pub proof fn lemma_fft_impulse<S: ScalarLaws>(n: nat)
    requires
        is_power_of_two(n),
    ensures
        fft_spec(impulse::<S>(n)) == all_ones::<S>(n),
{
    lemma_bit_rev_perm_impulse::<S>(n);
    assert(stages(bit_rev_perm(impulse::<S>(n)), n, false) == stages(impulse::<S>(n), n, false));
    lemma_stages_impulse::<S>(n, n);
    assert(ones_then_zeros::<S>(n, n) =~= all_ones::<S>(n));
}

/// Rearranging a sum of four carrier terms.
proof fn lemma_add_rearrange<S: ScalarLaws>(p: S, q: S, r: S, t: S)
    ensures
        p.sadd(q).sadd(r.sadd(t)) == p.sadd(r).sadd(q.sadd(t)),
{
    S::add_associates(p.sadd(q), r, t);
    S::add_associates(p, q, r);
    S::add_commutes(q, r);
    S::add_associates(p, r, q);
    S::add_associates(p.sadd(r), q, t);
}

/// Multiplication from the left distributes over addition.
proof fn lemma_mul_distributes_left<S: ScalarLaws>(a: S, p: S, q: S)
    ensures
        a.smul(p.sadd(q)) == a.smul(p).sadd(a.smul(q)),
{
    S::mul_commutes(a, p.sadd(q));
    S::mul_distributes(p, q, a);
    S::mul_commutes(p, a);
    S::mul_commutes(q, a);
}

/// Negation moves through a product's right factor.
proof fn lemma_mul_neg_right<S: ScalarLaws>(a: S, z: S)
    ensures
        a.smul(z).sneg() == a.smul(z.sneg()),
{
    S::mul_commutes(a, z);
    S::mul_neg(z, a);
    S::mul_commutes(z.sneg(), a);
}

/// One butterfly pass is linear in the field.
proof fn lemma_pass_linear<S: ScalarLaws>(a: S, b: S, u: Seq<S>, v: Seq<S>, len: nat, w: S)
    requires
        u.len() == v.len(),
        2 <= len,
        u.len() % len == 0,
    ensures
        butterfly_pass(lincomb(a, b, u, v), len, w) =~= lincomb(
            a,
            b,
            butterfly_pass(u, len, w),
            butterfly_pass(v, len, w),
        ),
{
    let n = u.len() as int;
    let l = lincomb(a, b, u, v);
    assert forall|t: int| 0 <= t < n implies #[trigger] butterfly_pass(l, len, w)[t] == lincomb(
        a,
        b,
        butterfly_pass(u, len, w),
        butterfly_pass(v, len, w),
    )[t] by {
        lemma_block_bounds(t, len as int, n);
        let r = t % (len as int);
        let bk = t - r;
        let h = len as int / 2;
        if r < h {
            let wp = pow_s(w, r as nat);
            let u1 = u[bk + r];
            let u2 = u[bk + r + h];
            let v1 = v[bk + r];
            let v2 = v[bk + r + h];
            // (a*u2 + b*v2) * w^r == a*(u2*w^r) + b*(v2*w^r)
            S::mul_distributes(a.smul(u2), b.smul(v2), wp);
            S::mul_associates(a, u2, wp);
            S::mul_associates(b, v2, wp);
            // regroup the four summands
            lemma_add_rearrange(a.smul(u1), b.smul(v1), a.smul(u2.smul(wp)), b.smul(v2.smul(wp)));
            // fold each pair back under its scalar
            lemma_mul_distributes_left(a, u1, u2.smul(wp));
            lemma_mul_distributes_left(b, v1, v2.smul(wp));
        } else {
            let wp = pow_s(w, (r - h) as nat);
            let u1 = u[bk + r - h];
            let u2 = u[bk + r];
            let v1 = v[bk + r - h];
            let v2 = v[bk + r];
            // (a*u2 + b*v2) * w^p == a*(u2*w^p) + b*(v2*w^p)
            S::mul_distributes(a.smul(u2), b.smul(v2), wp);
            S::mul_associates(a, u2, wp);
            S::mul_associates(b, v2, wp);
            // push subtraction through as addition of the negation
            S::sub_is_add_neg(
                a.smul(u1).sadd(b.smul(v1)),
                a.smul(u2.smul(wp)).sadd(b.smul(v2.smul(wp))),
            );
            S::neg_distributes(a.smul(u2.smul(wp)), b.smul(v2.smul(wp)));
            lemma_mul_neg_right(a, u2.smul(wp));
            lemma_mul_neg_right(b, v2.smul(wp));
            lemma_add_rearrange(
                a.smul(u1),
                b.smul(v1),
                a.smul(u2.smul(wp).sneg()),
                b.smul(v2.smul(wp).sneg()),
            );
            lemma_mul_distributes_left(a, u1, u2.smul(wp).sneg());
            lemma_mul_distributes_left(b, v1, v2.smul(wp).sneg());
            S::sub_is_add_neg(u1, u2.smul(wp));
            S::sub_is_add_neg(v1, v2.smul(wp));
        }
    }
}

/// All butterfly passes are linear in the field.
proof fn lemma_stages_linear<S: ScalarLaws>(
    a: S,
    b: S,
    u: Seq<S>,
    v: Seq<S>,
    len: nat,
    inverse: bool,
)
    requires
        u.len() == v.len(),
        is_power_of_two(u.len()),
        is_power_of_two(len),
        len <= u.len(),
        all_valid(u),
        all_valid(v),
    ensures
        stages(lincomb(a, b, u, v), len, inverse) =~= lincomb(
            a,
            b,
            stages(u, len, inverse),
            stages(v, len, inverse),
        ),
    decreases len,
{
    if len >= 2 {
        lemma_stages_linear(a, b, u, v, len / 2, inverse);
        lemma_stages_valid(u, len / 2, inverse);
        lemma_stages_valid(v, len / 2, inverse);
        lemma_stages_len(u, len / 2, inverse);
        lemma_stages_len(v, len / 2, inverse);
        lemma_stages_len(lincomb(a, b, u, v), len / 2, inverse);
        lemma_pow2_divides(len, u.len());
        let w = stage_root::<S>(len, inverse);
        lemma_pass_linear(a, b, stages(u, len / 2, inverse), stages(v, len / 2, inverse), len, w);
        assert(butterfly_pass(stages(lincomb(a, b, u, v), len / 2, inverse), len, w)
            =~= butterfly_pass(
            lincomb(a, b, stages(u, len / 2, inverse), stages(v, len / 2, inverse)),
            len,
            w,
        ));
    }
}

/// The bit-reversal permutation is linear in the field.
proof fn lemma_bit_rev_perm_linear<S: ScalarSpace>(a: S, b: S, x: Seq<S>, y: Seq<S>)
    requires
        x.len() == y.len(),
        is_power_of_two(x.len()),
    ensures
        bit_rev_perm(lincomb(a, b, x, y)) =~= lincomb(a, b, bit_rev_perm(x), bit_rev_perm(y)),
{
    let n = x.len();
    lemma_log2_pow2(n);
    let lg = log2(n);
    assert forall|t: int| 0 <= t < n implies #[trigger] bit_rev_perm(lincomb(a, b, x, y))[t]
        == lincomb(a, b, bit_rev_perm(x), bit_rev_perm(y))[t] by {
        lemma_bit_rev_bound(t as nat, lg);
    }
}

/// Linearity: the forward transform of `a * x + b * y` is `a` times the
/// transform of `x` plus `b` times the transform of `y`, for every pair of
/// equal-length fields of valid size and every scalar algebra that
/// satisfies the ring laws.
pub proof fn lemma_fft_linear<S: ScalarLaws>(a: S, b: S, x: Seq<S>, y: Seq<S>)
    requires
        x.len() == y.len(),
        is_power_of_two(x.len()),
        all_valid(x),
        all_valid(y),
    ensures
        fft_spec(lincomb(a, b, x, y)) == lincomb(a, b, fft_spec(x), fft_spec(y)),
{
    let n = x.len();
    lemma_bit_rev_perm_linear(a, b, x, y);
    lemma_log2_pow2(n);
    assert forall|t: int| 0 <= t < n implies (#[trigger] bit_rev_perm(x)[t]).svalid() by {
        lemma_bit_rev_bound(t as nat, log2(n));
    }
    assert forall|t: int| 0 <= t < n implies (#[trigger] bit_rev_perm(y)[t]).svalid() by {
        lemma_bit_rev_bound(t as nat, log2(n));
    }
    assert(all_valid(bit_rev_perm(x)));
    assert(all_valid(bit_rev_perm(y)));
    lemma_stages_linear(a, b, bit_rev_perm(x), bit_rev_perm(y), n, false);
    assert(stages(bit_rev_perm(lincomb(a, b, x, y)), n, false) == stages(
        lincomb(a, b, bit_rev_perm(x), bit_rev_perm(y)),
        n,
        false,
    ));
}

} // verus!
