//! The one-dimensional transform kernels.
//!
//! [`dft1d`] and [`idft1d`] are the direct O(N^2) transforms, specified by
//! the defining sums; they serve as the correctness oracle.  [`fft1d`] and
//! [`ifft1d`] are the Cooley-Tukey radix-2 decimation-in-time transforms:
//! a bit-reversal permutation followed by butterfly passes of doubling
//! width, in place, with the inverse transform differing only in the
//! twiddle direction and a final division by the length.  Each kernel's
//! contract pins the result, element by element, to the ghost description
//! of its algorithm; every length that is not a positive power of two is
//! rejected before any element is touched.

use vstd::prelude::*;
use vstd::arithmetic::div_mod::{
    lemma_div_denominator, lemma_div_multiples_vanish, lemma_fundamental_div_mod, lemma_mod_breakdown,
    lemma_mod_multiples_basic, lemma_mod_multiples_vanish, lemma_small_mod,
};
use vstd::arithmetic::power2::{
    lemma2_to64, lemma2_to64_rest, lemma_pow2_adds, lemma_pow2_pos, lemma_pow2_strictly_increases, pow2,
};
use crate::algebra::ScalarSpace;
use crate::vector::Vector;

verus! {

/// Why a transform request was rejected.
#[derive(Clone, Copy, Debug, PartialEq, Eq, Structural)]
pub enum TransformError {
    /// The length is zero or not a power of two.
    InvalidLength,
}

/// Whether `n` is a positive power of two, the lengths the kernels accept.
pub open spec fn is_power_of_two(n: nat) -> bool
    decreases n,
{
    if n == 0 {
        false
    } else if n == 1 {
        true
    } else {
        n % 2 == 0 && is_power_of_two(n / 2)
    }
}

/// The base-two logarithm, rounded down.
pub open spec fn log2(n: nat) -> nat
    decreases n,
{
    if n <= 1 {
        0
    } else {
        1 + log2(n / 2)
    }
}

/// `b` raised to the `e`-th power in the scalar algebra.
pub open spec fn pow_s<S: ScalarSpace>(b: S, e: nat) -> S
    decreases e,
{
    if e == 0 {
        S::sone()
    } else {
        pow_s(b, (e - 1) as nat).smul(b)
    }
}

/// `i` with its lowest `bits` binary digits reversed.
pub open spec fn bit_rev(i: nat, bits: nat) -> nat
    decreases bits,
{
    if bits == 0 {
        0
    } else {
        bit_rev(i / 2, (bits - 1) as nat) + (i % 2) * pow2((bits - 1) as nat)
    }
}

/// The bit-reversal permutation of a sequence whose length is a power of
/// two: the element at `i` moves to `bit_rev(i)`.
pub open spec fn bit_rev_perm<S>(x: Seq<S>) -> Seq<S> {
    Seq::new(x.len(), |i: int| x[bit_rev(i as nat, log2(x.len())) as int])
}

/// One element of a butterfly pass of width `len` with base twiddle `w`:
/// within each block of `len` elements, position `r` of the first half
/// becomes `u + v * w^r` and its partner in the second half `u - v * w^r`,
/// where `u` and `v` are the old pair.
pub open spec fn pass_elem<S: ScalarSpace>(x: Seq<S>, len: nat, w: S, t: int) -> S {
    let r = t % (len as int);
    let b = t - r;
    let h = len as int / 2;
    if r < h {
        x[b + r].sadd(x[b + r + h].smul(pow_s(w, r as nat)))
    } else {
        x[b + r - h].ssub(x[b + r].smul(pow_s(w, (r - h) as nat)))
    }
}

/// A whole butterfly pass of width `len` over the sequence.
pub open spec fn butterfly_pass<S: ScalarSpace>(x: Seq<S>, len: nat, w: S) -> Seq<S> {
    Seq::new(x.len(), |t: int| pass_elem(x, len, w, t))
}

/// The base twiddle of a pass: the forward or the inverse root of unity.
pub open spec fn stage_root<S: ScalarSpace>(len: nat, inverse: bool) -> S {
    if inverse {
        S::sroot_inv(len)
    } else {
        S::sroot(len)
    }
}

/// All butterfly passes of widths 2, 4, ..., `len`, in that order.
pub open spec fn stages<S: ScalarSpace>(x: Seq<S>, len: nat, inverse: bool) -> Seq<S>
    decreases len,
{
    if len < 2 {
        x
    } else {
        butterfly_pass(stages(x, len / 2, inverse), len, stage_root::<S>(len, inverse))
    }
}

/// Every element divided by `n`, the final scaling of an inverse transform.
pub open spec fn scale_spec<S: ScalarSpace>(x: Seq<S>, n: nat) -> Seq<S> {
    Seq::new(x.len(), |t: int| x[t].sdiv_n(n))
}

/// The fast forward transform: bit-reversal, then all butterfly passes.
pub open spec fn fft_spec<S: ScalarSpace>(x: Seq<S>) -> Seq<S> {
    stages(bit_rev_perm(x), x.len(), false)
}

/// The fast inverse transform: the same passes with inverse twiddles, then
/// division by the length.
pub open spec fn ifft_spec<S: ScalarSpace>(x: Seq<S>) -> Seq<S> {
    scale_spec(stages(bit_rev_perm(x), x.len(), true), x.len())
}

/// The partial defining sum of one output element of the direct transform:
/// the first `m` terms of `sum_t x[t] * wk^t`, where `wk` is the base root
/// raised to the output index.
pub open spec fn dft_sum<S: ScalarSpace>(x: Seq<S>, wk: S, m: nat) -> S
    decreases m,
{
    if m == 0 {
        S::szero()
    } else {
        dft_sum(x, wk, (m - 1) as nat).sadd(x[m - 1].smul(pow_s(wk, (m - 1) as nat)))
    }
}

/// The direct forward transform, by its defining sums.
pub open spec fn dft_spec<S: ScalarSpace>(x: Seq<S>) -> Seq<S> {
    Seq::new(x.len(), |k: int| dft_sum(x, pow_s(S::sroot(x.len()), k as nat), x.len()))
}

/// The direct inverse transform: positive-angle sums, then division by the
/// length.
pub open spec fn idft_spec<S: ScalarSpace>(x: Seq<S>) -> Seq<S> {
    Seq::new(
        x.len(),
        |k: int| dft_sum(x, pow_s(S::sroot_inv(x.len()), k as nat), x.len()).sdiv_n(x.len()),
    )
}

/// Butterfly passes preserve the length of the sequence.
pub proof fn lemma_stages_len<S: ScalarSpace>(x: Seq<S>, len: nat, inverse: bool)
    ensures
        stages(x, len, inverse).len() == x.len(),
    decreases len,
{
    if len >= 2 {
        lemma_stages_len(x, len / 2, inverse);
    }
}

/// Both fast transforms preserve the length of the sequence.
pub proof fn lemma_fft_spec_len<S: ScalarSpace>(x: Seq<S>)
    ensures
        fft_spec(x).len() == x.len(),
        ifft_spec(x).len() == x.len(),
{
    lemma_stages_len(bit_rev_perm(x), x.len(), false);
    lemma_stages_len(bit_rev_perm(x), x.len(), true);
}

/// A power of two is exactly `pow2` of its logarithm.
pub proof fn lemma_log2_pow2(n: nat)
    requires
        is_power_of_two(n),
    ensures
        pow2(log2(n)) == n,
    decreases n,
{
    if n == 1 {
        lemma2_to64();
    } else {
        lemma_log2_pow2(n / 2);
        lemma_pow2_adds(1, log2(n / 2));
        lemma2_to64();
    }
}

/// A reversed `bits`-bit index is again a `bits`-bit index.
pub proof fn lemma_bit_rev_bound(i: nat, bits: nat)
    ensures
        bit_rev(i, bits) < pow2(bits),
    decreases bits,
{
    lemma_pow2_pos(bits);
    if bits > 0 {
        let b1 = (bits - 1) as nat;
        lemma_bit_rev_bound(i / 2, b1);
        lemma_pow2_adds(1, b1);
        lemma2_to64();
        assert((i % 2) * pow2(b1) <= pow2(b1)) by (nonlinear_arith)
            requires
                0 <= i % 2 <= 1,
                pow2(b1) >= 0,
        ;
    }
}

/// Prepending a most significant bit appends a least significant bit to
/// the reversal.
proof fn lemma_bit_rev_msb(x: nat, c: nat, bits: nat)
    requires
        x < pow2(bits),
        c <= 1,
    ensures
        bit_rev(x + c * pow2(bits), bits + 1) == c + 2 * bit_rev(x, bits),
    decreases bits,
{
    let m = x + c * pow2(bits);
    if bits == 0 {
        lemma2_to64();
        assert(c * pow2(bits) == c) by (nonlinear_arith)
            requires
                pow2(bits) == 1,
        ;
        assert(m == c);
    } else {
        lemma_pow2_adds(1, (bits - 1) as nat);
        lemma2_to64();
        assert(pow2(bits) == 2 * pow2((bits - 1) as nat));
        // m / 2 == x / 2 + c * pow2(bits - 1) and m % 2 == x % 2
        assert(m == 2 * (c * pow2((bits - 1) as nat)) + x) by (nonlinear_arith)
            requires
                m == x + c * 2 * pow2((bits - 1) as nat),
        ;
        lemma_mod_multiples_vanish(c * pow2((bits - 1) as nat) as int, x as int, 2);
        assert(m % 2 == x % 2);
        lemma_fundamental_div_mod(x as int, 2);
        lemma_fundamental_div_mod(m as int, 2);
        assert(m / 2 == x / 2 + c * pow2((bits - 1) as nat)) by (nonlinear_arith)
            requires
                m == 2 * (c * pow2((bits - 1) as nat)) + x,
                m == 2 * (m / 2) + m % 2,
                x == 2 * (x / 2) + x % 2,
                m % 2 == x % 2,
        ;
        lemma_pow2_pos((bits - 1) as nat);
        assert(x / 2 < pow2((bits - 1) as nat)) by (nonlinear_arith)
            requires
                x < 2 * pow2((bits - 1) as nat),
                x == 2 * (x / 2) + x % 2,
                0 <= x % 2,
        ;
        lemma_bit_rev_msb(x / 2, c, (bits - 1) as nat);
        assert((x % 2) * pow2(bits) == 2 * ((x % 2) * pow2((bits - 1) as nat))) by (nonlinear_arith)
            requires
                pow2(bits) == 2 * pow2((bits - 1) as nat),
        ;
        assert(bit_rev(m, bits + 1) == bit_rev(m / 2, bits) + (m % 2) * pow2(bits));
        assert(bit_rev(m / 2, bits) == c + 2 * bit_rev(x / 2, (bits - 1) as nat));
        assert(bit_rev(x, bits) == bit_rev(x / 2, (bits - 1) as nat) + (x % 2) * pow2((bits - 1) as nat));
        assert(bit_rev(m, bits + 1) == c + 2 * bit_rev(x, bits));
    }
}

/// Bit reversal is an involution on `bits`-bit indices.
pub proof fn lemma_bit_rev_involution(i: nat, bits: nat)
    requires
        i < pow2(bits),
    ensures
        bit_rev(bit_rev(i, bits), bits) == i,
    decreases bits,
{
    if bits == 0 {
        lemma2_to64();
    } else {
        let b1 = (bits - 1) as nat;
        lemma_pow2_adds(1, b1);
        lemma2_to64();
        lemma_pow2_pos(b1);
        assert(i / 2 < pow2(b1)) by (nonlinear_arith)
            requires
                i < 2 * pow2(b1),
                0 <= i % 2,
                i == 2 * (i / 2) + i % 2,
        {
            lemma_fundamental_div_mod(i as int, 2);
        }
        lemma_fundamental_div_mod(i as int, 2);
        let a = bit_rev(i / 2, b1);
        lemma_bit_rev_bound(i / 2, b1);
        assert(bit_rev(i, bits) == a + (i % 2) * pow2(b1));
        lemma_bit_rev_msb(a, i % 2, b1);
        lemma_bit_rev_involution(i / 2, b1);
    }
}

/// Runtime check of the kernels' length precondition.
pub(crate) fn check_power_of_two(n: usize) -> (r: bool)
    ensures
        r == is_power_of_two(n as nat),
{
    if n == 0 {
        return false;
    }
    let mut m = n;
    while m > 1
        invariant
            m >= 1,
            is_power_of_two(n as nat) == is_power_of_two(m as nat),
        decreases m,
    {
        if m % 2 == 1 {
            return false;
        }
        m = m / 2;
    }
    true
}

/// The base-two logarithm of a positive number.
fn log2_exec(n: usize) -> (r: usize)
    requires
        n >= 1,
    ensures
        r == log2(n as nat),
        pow2(r as nat) <= n,
{
    let mut m = n;
    let mut lg: usize = 0;
    proof {
        lemma2_to64();
    }
    while m > 1
        invariant
            m >= 1,
            lg <= 64,
            log2(n as nat) == lg + log2(m as nat),
            m * pow2(lg as nat) <= n,
        decreases m,
    {
        proof {
            lemma_pow2_adds(1, lg as nat);
            lemma2_to64();
            assert((m / 2) * pow2((lg + 1) as nat) <= m * pow2(lg as nat)) by (nonlinear_arith)
                requires
                    m >= 1,
                    pow2((lg + 1) as nat) == 2 * pow2(lg as nat),
                    pow2(lg as nat) >= 0,
            ;
            if lg >= 64 {
                lemma2_to64_rest();
                lemma_pow2_pos(lg as nat);
                assert(m * pow2(lg as nat) >= pow2(lg as nat)) by (nonlinear_arith)
                    requires
                        m >= 1,
                        pow2(lg as nat) >= 1,
                ;
                if lg > 64 {
                    lemma_pow2_strictly_increases(64, lg as nat);
                }
                assert(false);
            }
        }
        m = m / 2;
        lg = lg + 1;
    }
    proof {
        lemma_pow2_pos(lg as nat);
        assert(pow2(lg as nat) <= n) by (nonlinear_arith)
            requires
                m >= 1,
                m * pow2(lg as nat) <= n,
                pow2(lg as nat) >= 1,
        ;
    }
    lg
}

/// The logarithm inverts `pow2`.
pub proof fn lemma_log2_pow2_inv(k: nat)
    ensures
        log2(pow2(k)) == k,
    decreases k,
{
    lemma2_to64();
    if k > 0 {
        lemma_log2_pow2_inv((k - 1) as nat);
        lemma_pow2_adds(1, (k - 1) as nat);
        lemma_pow2_pos((k - 1) as nat);
        lemma_div_multiples_vanish(pow2((k - 1) as nat) as int, 2);
        assert(pow2(k) / 2 == pow2((k - 1) as nat));
    }
}

/// Reverses the low `lg` bits of `i`, for an index into a buffer of length
/// `n == pow2(lg)`.
fn bit_reverse_index(i: usize, lg: usize, n: usize) -> (r: usize)
    requires
        n == pow2(lg as nat),
        i < n,
    ensures
        r as nat == bit_rev(i as nat, lg as nat),
        r < n,
{
    let mut j: usize = 0;
    let mut ii: usize = i;
    let mut b: usize = 0;
    proof {
        lemma2_to64();
    }
    while b < lg
        invariant
            b <= lg,
            n == pow2(lg as nat),
            i < n,
            j as nat == bit_rev((i as nat) % pow2(b as nat), b as nat),
            (j as nat) < pow2(b as nat),
            ii as nat == (i as nat) / pow2(b as nat),
        decreases lg - b,
    {
        proof {
            lemma_pow2_adds(b as nat, 1);
            lemma2_to64();
            lemma_pow2_pos(b as nat);
            lemma_mod_breakdown(i as int, pow2(b as nat) as int, 2);
            lemma_bit_rev_msb(
                (i as nat) % pow2(b as nat),
                ((i as nat) / pow2(b as nat)) % 2,
                b as nat,
            );
            lemma_div_denominator(i as int, pow2(b as nat) as int, 2);
            if b + 1 < lg {
                lemma_pow2_strictly_increases((b + 1) as nat, lg as nat);
            }
        }
        j = 2 * j + (ii % 2);
        ii = ii / 2;
        b = b + 1;
    }
    proof {
        lemma_small_mod(i as nat, pow2(lg as nat));
    }
    j
}

/// Applies the bit-reversal permutation in place.  Each pair `(i, rev(i))`
/// with `i < rev(i)` is swapped exactly once.
fn bit_reverse_permute<S: Copy>(x: &mut Vec<S>, lg: usize)
    requires
        old(x)@.len() == pow2(lg as nat),
    ensures
        final(x)@ == bit_rev_perm(old(x)@),
{
    let n = x.len();
    let ghost x0 = x@;
    let ghost lgn = lg as nat;
    let mut i: usize = 0;
    while i < n
        invariant
            x@.len() == n,
            n == pow2(lgn),
            lgn == lg as nat,
            x0.len() == n,
            i <= n,
            forall|t: int|
                0 <= t < n ==> #[trigger] x@[t] == (if t < i || (bit_rev(t as nat, lgn) as int) < i {
                    x0[bit_rev(t as nat, lgn) as int]
                } else {
                    x0[t]
                }),
        decreases n - i,
    {
        let j = bit_reverse_index(i, lg, n);
        proof {
            lemma_bit_rev_involution(i as nat, lgn);
        }
        if i < j {
            let a = x[i];
            let bv = x[j];
            x[i] = bv;
            x[j] = a;
        }
        proof {
            assert forall|t: int|
                0 <= t < n implies #[trigger] x@[t] == (if t < i + 1 || (bit_rev(t as nat, lgn) as int)
                < i + 1 {
                x0[bit_rev(t as nat, lgn) as int]
            } else {
                x0[t]
            }) by {
                lemma_bit_rev_bound(t as nat, lgn);
                lemma_bit_rev_involution(t as nat, lgn);
            }
        }
        i = i + 1;
    }
    proof {
        lemma_log2_pow2_inv(lgn);
        assert forall|t: int| 0 <= t < n implies #[trigger] bit_rev(t as nat, lgn) < n by {
            lemma_bit_rev_bound(t as nat, lgn);
        }
        assert(x@ =~= bit_rev_perm(x0));
    }
}

/// One butterfly pass of width `len` over the whole buffer, with base
/// twiddle `w`: within each block, combines element `j` of the first half
/// with element `j` of the second half through the running twiddle `w^j`.
fn one_pass<S: ScalarSpace>(x: &mut Vec<S>, len: usize, w: S)
    requires
        2 <= len,
        len % 2 == 0,
        old(x)@.len() % (len as nat) == 0,
    ensures
        final(x)@ == butterfly_pass(old(x)@, len as nat, w),
{
    let n = x.len();
    let ghost x0 = x@;
    let ghost bp = butterfly_pass(x0, len as nat, w);
    let half = len / 2;
    let mut i: usize = 0;
    while i < n
        invariant
            x@.len() == n,
            x0.len() == n,
            2 <= len,
            len % 2 == 0,
            half == len / 2,
            n as nat % (len as nat) == 0,
            i <= n,
            i % len == 0,
            bp == butterfly_pass(x0, len as nat, w),
            forall|t: int| 0 <= t < n ==> #[trigger] x@[t] == (if t < i {
                bp[t]
            } else {
                x0[t]
            }),
        decreases n - i,
    {
        proof {
            let qi = (i / len) as int;
            let qn = (n / len) as int;
            lemma_fundamental_div_mod(i as int, len as int);
            lemma_fundamental_div_mod(n as int, len as int);
            assert(i + len <= n) by (nonlinear_arith)
                requires
                    i == (len as int) * qi,
                    n == (len as int) * qn,
                    i < n,
                    len >= 1,
            ;
        }
        let mut wj = S::one();
        let mut j: usize = 0;
        while j < half
            invariant
                x@.len() == n,
                x0.len() == n,
                2 <= len,
                len % 2 == 0,
                half == len / 2,
                i < n,
                i % len == 0,
                i + len <= n,
                j <= half,
                wj == pow_s(w, j as nat),
                bp == butterfly_pass(x0, len as nat, w),
                forall|t: int| 0 <= t < n ==> #[trigger] x@[t] == (if t < i
                    || (i <= t < i + j)
                    || (i + half <= t < i + half + j) {
                    bp[t]
                } else {
                    x0[t]
                }),
            decreases half - j,
        {
            let u = x[i + j];
            let v = x[i + j + half].mul(wj);
            x[i + j] = u.add(v);
            x[i + j + half] = u.sub(v);
            proof {
                lemma_fundamental_div_mod(i as int, len as int);
                lemma_mod_multiples_vanish((i / len) as int, j as int, len as int);
                lemma_mod_multiples_vanish((i / len) as int, (j + half) as int, len as int);
                lemma_small_mod(j as nat, len as nat);
                lemma_small_mod((j + half) as nat, len as nat);
                assert((i as int + j as int) % (len as int) == j as int);
                assert((i as int + j as int + half as int) % (len as int) == j as int + half as int);
                assert(bp[i as int + j as int] == pass_elem(x0, len as nat, w, i as int + j as int));
                assert(bp[i as int + j as int + half as int] == pass_elem(
                    x0,
                    len as nat,
                    w,
                    i as int + j as int + half as int,
                ));
            }
            wj = wj.mul(w);
            j = j + 1;
        }
        proof {
            lemma_mod_multiples_vanish(1, i as int, len as int);
        }
        i = i + len;
    }
    proof {
        assert(x@ =~= bp);
    }
}

/// The shared in-place fast-transform body: bit-reversal, then butterfly
/// passes of doubling width.  The forward and the inverse transform differ
/// only in which root of unity seeds each pass.
pub(crate) fn transform_in_place<S: ScalarSpace>(x: &mut Vec<S>, inverse: bool)
    requires
        is_power_of_two(old(x)@.len()),
    ensures
        final(x)@ == stages(bit_rev_perm(old(x)@), old(x)@.len(), inverse),
{
    let n = x.len();
    proof {
        lemma_log2_pow2(n as nat);
    }
    let lg = log2_exec(n);
    bit_reverse_permute(x, lg);
    let ghost y0 = x@;
    if n >= 2 {
        let mut len: usize = 2;
        let ghost mut s: nat = 1;
        proof {
            lemma2_to64();
        }
        loop
            invariant_except_break
                x@.len() == n,
                y0.len() == n,
                n == pow2(lg as nat),
                2 <= len <= n,
                len as nat == pow2(s),
                1 <= s <= lg as nat,
                x@ == stages(y0, (len / 2) as nat, inverse),
            ensures
                x@ == stages(y0, n as nat, inverse),
            decreases n - len,
        {
            proof {
                lemma_pow2_adds(s, (lg as nat - s) as nat);
                lemma_mod_multiples_basic(pow2((lg as nat - s) as nat) as int, len as int);
                lemma_pow2_adds(1, (s - 1) as nat);
                lemma2_to64();
                assert(len % 2 == 0);
                if s == lg as nat {
                    assert(len == n);
                }
            }
            let w = if inverse {
                S::root_step_inv(len)
            } else {
                S::root_step(len)
            };
            one_pass(x, len, w);
            proof {
                assert(stages(y0, len as nat, inverse) == butterfly_pass(
                    stages(y0, (len / 2) as nat, inverse),
                    len as nat,
                    stage_root::<S>(len as nat, inverse),
                ));
            }
            if len == n {
                break;
            }
            proof {
                assert(s < lg as nat);
                if s + 1 < lg as nat {
                    lemma_pow2_strictly_increases(s + 1, lg as nat);
                }
                lemma_pow2_adds(s, 1);
                lemma2_to64();
                s = s + 1;
            }
            len = len * 2;
        }
    }
}

/// Divides every element by `n` in place.
pub(crate) fn scale_in_place<S: ScalarSpace>(x: &mut Vec<S>, n: usize)
    requires
        n >= 1,
    ensures
        final(x)@ == scale_spec(old(x)@, n as nat),
{
    let ghost x0 = x@;
    let m = x.len();
    let mut t: usize = 0;
    while t < m
        invariant
            x@.len() == m,
            x0.len() == m,
            t <= m,
            n >= 1,
            forall|u: int| 0 <= u < m ==> #[trigger] x@[u] == (if u < t {
                x0[u].sdiv_n(n as nat)
            } else {
                x0[u]
            }),
        decreases m - t,
    {
        let val = x[t];
        x[t] = val.div_n(n);
        t = t + 1;
    }
    proof {
        assert(x@ =~= scale_spec(x0, n as nat));
    }
}

/// The whole 1D fast transform on a raw buffer: the shared body, and for
/// the inverse direction the final scaling.
pub(crate) fn fft1d_in_place<S: ScalarSpace>(x: &mut Vec<S>, inverse: bool)
    requires
        is_power_of_two(old(x)@.len()),
    ensures
        final(x)@ == (if inverse {
            ifft_spec(old(x)@)
        } else {
            fft_spec(old(x)@)
        }),
{
    let n = x.len();
    transform_in_place(x, inverse);
    if inverse {
        scale_in_place(x, n);
    }
}

/// The fast forward transform (Cooley-Tukey radix-2, decimation in time):
/// a bit-reversal permutation followed by butterfly passes of width 2, 4,
/// ..., N, each pass combining pairs with a running twiddle factor.
/// Returns `Err(InvalidLength)`, with nothing computed, unless the length
/// is a positive power of two.
pub fn fft1d<S: ScalarSpace>(x: Vector<S>) -> (r: Result<Vector<S>, TransformError>)
    ensures
        match r {
            Ok(y) => is_power_of_two(x@.len()) && y@ == fft_spec(x@),
            Err(e) => !is_power_of_two(x@.len()) && e == TransformError::InvalidLength,
        },
{
    let mut x = x;
    let n = x.size();
    if !check_power_of_two(n) {
        return Err(TransformError::InvalidLength);
    }
    transform_in_place(x.data_mut(), false);
    Ok(x)
}

/// The fast inverse transform: identical control flow to [`fft1d`] with the
/// opposite twiddle direction, then division of every element by the
/// length.
pub fn ifft1d<S: ScalarSpace>(x: Vector<S>) -> (r: Result<Vector<S>, TransformError>)
    ensures
        match r {
            Ok(y) => is_power_of_two(x@.len()) && y@ == ifft_spec(x@),
            Err(e) => !is_power_of_two(x@.len()) && e == TransformError::InvalidLength,
        },
{
    let mut x = x;
    let n = x.size();
    if !check_power_of_two(n) {
        return Err(TransformError::InvalidLength);
    }
    transform_in_place(x.data_mut(), true);
    scale_in_place(x.data_mut(), n);
    Ok(x)
}

/// The direct discrete transform: output `k` is the defining sum
/// `sum_t x[t] * (root^k)^t` over the forward root of unity of order `N`.
/// The O(N^2) oracle the fast transform is tested against.
pub fn dft1d<S: ScalarSpace>(x: Vector<S>) -> (r: Result<Vector<S>, TransformError>)
    ensures
        match r {
            Ok(y) => is_power_of_two(x@.len()) && y@ == dft_spec(x@),
            Err(e) => !is_power_of_two(x@.len()) && e == TransformError::InvalidLength,
        },
{
    let n = x.size();
    if !check_power_of_two(n) {
        return Err(TransformError::InvalidLength);
    }
    let w = S::root_step(n);
    let mut out: Vec<S> = Vec::new();
    let mut wk = S::one();
    let mut k: usize = 0;
    while k < n
        invariant
            k <= n,
            n == x@.len(),
            w == S::sroot(n as nat),
            wk == pow_s(w, k as nat),
            out@.len() == k,
            forall|t: int| 0 <= t < k ==> out@[t] == dft_sum(x@, pow_s(w, t as nat), n as nat),
        decreases n - k,
    {
        let mut acc = S::zero();
        let mut wkm = S::one();
        let mut m: usize = 0;
        while m < n
            invariant
                m <= n,
                n == x@.len(),
                acc == dft_sum(x@, wk, m as nat),
                wkm == pow_s(wk, m as nat),
            decreases n - m,
        {
            acc = acc.add(x.get(m).mul(wkm));
            wkm = wkm.mul(wk);
            m = m + 1;
        }
        out.push(acc);
        wk = wk.mul(w);
        k = k + 1;
    }
    proof {
        assert(out@ =~= dft_spec(x@));
    }
    Ok(Vector::new(out))
}

/// The direct inverse transform: positive-angle sums followed by division
/// by the length.
pub fn idft1d<S: ScalarSpace>(x: Vector<S>) -> (r: Result<Vector<S>, TransformError>)
    ensures
        match r {
            Ok(y) => is_power_of_two(x@.len()) && y@ == idft_spec(x@),
            Err(e) => !is_power_of_two(x@.len()) && e == TransformError::InvalidLength,
        },
{
    let n = x.size();
    if !check_power_of_two(n) {
        return Err(TransformError::InvalidLength);
    }
    let w = S::root_step_inv(n);
    let mut out: Vec<S> = Vec::new();
    let mut wk = S::one();
    let mut k: usize = 0;
    while k < n
        invariant
            k <= n,
            n == x@.len(),
            w == S::sroot_inv(n as nat),
            wk == pow_s(w, k as nat),
            out@.len() == k,
            forall|t: int| 0 <= t < k ==> out@[t] == dft_sum(
                x@,
                pow_s(w, t as nat),
                n as nat,
            ).sdiv_n(n as nat),
        decreases n - k,
    {
        let mut acc = S::zero();
        let mut wkm = S::one();
        let mut m: usize = 0;
        while m < n
            invariant
                m <= n,
                n == x@.len(),
                acc == dft_sum(x@, wk, m as nat),
                wkm == pow_s(wk, m as nat),
            decreases n - m,
        {
            acc = acc.add(x.get(m).mul(wkm));
            wkm = wkm.mul(wk);
            m = m + 1;
        }
        out.push(acc.div_n(n));
        wk = wk.mul(w);
        k = k + 1;
    }
    proof {
        assert(out@ =~= idft_spec(x@));
    }
    Ok(Vector::new(out))
}

} // verus!
