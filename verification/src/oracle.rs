//! The fast transform agrees with the direct transform.
//!
//! This is the correctness theorem of the Cooley-Tukey algorithm, proved
//! from the ring laws and the root-of-unity laws alone: over any scalar
//! algebra that satisfies them, bit reversal followed by the butterfly
//! passes computes exactly the defining sums of the discrete transform.
//! The proof follows the decimation-in-time argument: after the passes up
//! to width `len`, each block of `len` elements holds the direct transform
//! of one stride-decimated subsequence of the input, the subsequence
//! selected by the bit-reversed block index; each butterfly pass merges
//! two such transforms into one of twice the width.

use vstd::prelude::*;
use vstd::arithmetic::div_mod::{
    lemma_div_multiples_vanish, lemma_fundamental_div_mod, lemma_fundamental_div_mod_converse,
};
use vstd::arithmetic::power2::{lemma_pow2_adds, lemma_pow2_pos, pow2};
use crate::algebra::ScalarLaws;
use crate::fft::{
    bit_rev, bit_rev_perm, butterfly_pass, dft_spec, dft_sum, fft_spec, idft_spec, ifft_spec,
    is_power_of_two, lemma_bit_rev_bound, lemma_log2_pow2, lemma_stages_len, log2, pow_s,
    stage_root, stages,
};
use crate::laws::{all_valid, lemma_pow_valid};

verus! {

/// The stride-decimated subsequence `x[off], x[off + stride], ...` of
/// length `m`.
pub open spec fn strided<S>(x: Seq<S>, off: nat, stride: nat, m: nat) -> Seq<S> {
    Seq::new(m, |j: int| x[off + j * stride])
}

/// The even-indexed elements.
spec fn evens<S>(z: Seq<S>) -> Seq<S> {
    Seq::new(z.len() / 2, |u: int| z[2 * u])
}

/// The odd-indexed elements.
spec fn odds<S>(z: Seq<S>) -> Seq<S> {
    Seq::new(z.len() / 2, |u: int| z[2 * u + 1])
}

/// Exponents add under the scalar power.
proof fn lemma_pow_s_add<S: ScalarLaws>(w: S, a: nat, b: nat)
    requires
        w.svalid(),
    ensures
        pow_s(w, a + b) == pow_s(w, a).smul(pow_s(w, b)),
    decreases b,
{
    if b == 0 {
        lemma_pow_valid(w, a);
        S::mul_one(pow_s(w, a));
    } else {
        lemma_pow_s_add(w, a, (b - 1) as nat);
        S::mul_associates(pow_s(w, a), pow_s(w, (b - 1) as nat), w);
    }
}

/// A product of two products, regrouped.
proof fn lemma_mul_rearrange<S: ScalarLaws>(p: S, q: S, r: S, t: S)
    ensures
        p.smul(q).smul(r.smul(t)) == p.smul(r).smul(q.smul(t)),
{
    S::mul_associates(p.smul(q), r, t);
    S::mul_associates(p, q, r);
    S::mul_commutes(q, r);
    S::mul_associates(p, r, q);
    S::mul_associates(p.smul(r), q, t);
}

/// A doubled exponent is an exponent of the square.
proof fn lemma_pow_s_square<S: ScalarLaws>(w: S, e: nat)
    ensures
        pow_s(w, 2 * e) == pow_s(w.smul(w), e),
    decreases e,
{
    if e > 0 {
        lemma_pow_s_square(w, (e - 1) as nat);
        let e2 = (2 * e - 2) as nat;
        assert(e2 == 2 * ((e - 1) as nat));
        assert(pow_s(w, 2 * e) == pow_s(w, (2 * e - 1) as nat).smul(w));
        assert(pow_s(w, (2 * e - 1) as nat) == pow_s(w, e2).smul(w));
        S::mul_associates(pow_s(w, e2), w, w);
        assert(pow_s(w.smul(w), e) == pow_s(w.smul(w), (e - 1) as nat).smul(w.smul(w)));
    }
}

/// The square of a power is the power of the square.
proof fn lemma_pow_s_sq_of_pow<S: ScalarLaws>(w: S, e: nat)
    ensures
        pow_s(w, e).smul(pow_s(w, e)) == pow_s(w.smul(w), e),
    decreases e,
{
    if e == 0 {
        S::valid_one();
        S::mul_one(S::sone());
    } else {
        lemma_pow_s_sq_of_pow(w, (e - 1) as nat);
        lemma_mul_rearrange(pow_s(w, (e - 1) as nat), w, pow_s(w, (e - 1) as nat), w);
    }
}

/// A root of unity raised to its order is one, in either direction.
proof fn lemma_root_order<S: ScalarLaws>(len: nat, inverse: bool)
    requires
        is_power_of_two(len),
        S::order_supported(len),
    ensures
        pow_s(stage_root::<S>(len, inverse), len) == S::sone(),
    decreases len,
{
    let w = stage_root::<S>(len, inverse);
    if len == 1 {
        S::root_one();
        S::valid_root(1);
        assert(pow_s(w, 1) == pow_s(w, 0).smul(w));
        assert(pow_s(w, 0) == S::sone());
        assert(w == S::sone());
        S::mul_commutes(S::sone(), w);
        S::mul_one(w);
    } else {
        let m = len / 2;
        assert(2 * m == len);
        S::order_supported_halves(m);
        S::root_chain(m);
        lemma_pow_s_square(w, m);
        assert(pow_s(w, len) == pow_s(w.smul(w), m));
        assert(w.smul(w) == stage_root::<S>(m, inverse));
        lemma_root_order::<S>(m, inverse);
    }
}

/// A root of unity raised to half its order is minus one, in either
/// direction.
proof fn lemma_root_half<S: ScalarLaws>(m: nat, inverse: bool)
    requires
        is_power_of_two(m),
        S::order_supported(2 * m),
    ensures
        pow_s(stage_root::<S>(2 * m, inverse), m) == S::sone().sneg(),
    decreases m,
{
    let w = stage_root::<S>(2 * m, inverse);
    if m == 1 {
        S::root_two();
        S::valid_root(2);
        assert(pow_s(w, 1) == pow_s(w, 0).smul(w));
        assert(pow_s(w, 0) == S::sone());
        assert(w == S::sone().sneg());
        S::mul_commutes(S::sone(), w);
        S::mul_one(w);
    } else {
        let k = m / 2;
        assert(2 * k == m);
        S::order_supported_halves(m);
        S::root_chain(m);
        lemma_pow_s_square(w, k);
        assert(pow_s(w, m) == pow_s(w.smul(w), k));
        assert(w.smul(w) == stage_root::<S>(m, inverse));
        lemma_root_half::<S>(k, inverse);
    }
}

/// Every partial defining sum of carrier elements lies in the carrier.
proof fn lemma_dft_sum_valid<S: ScalarLaws>(z: Seq<S>, w: S, m: nat)
    requires
        w.svalid(),
        forall|j: int| 0 <= j < m ==> (#[trigger] z[j]).svalid(),
        m <= z.len(),
    ensures
        dft_sum(z, w, m).svalid(),
    decreases m,
{
    if m == 0 {
        S::valid_zero();
    } else {
        lemma_dft_sum_valid(z, w, (m - 1) as nat);
        lemma_pow_valid(w, (m - 1) as nat);
        S::valid_mul(z[m - 1], pow_s(w, (m - 1) as nat));
        S::valid_add(dft_sum(z, w, (m - 1) as nat), z[m - 1].smul(pow_s(w, (m - 1) as nat)));
    }
}

/// Splitting the defining sum by parity of the index: a sum of `2m` terms
/// with base `w` is the even half's sum with base `w^2`, plus `w` times
/// the odd half's sum with base `w^2`.
proof fn lemma_dft_sum_split<S: ScalarLaws>(z: Seq<S>, w: S, m: nat)
    requires
        2 * m <= z.len(),
    ensures
        dft_sum(z, w, 2 * m) == dft_sum(evens(z), w.smul(w), m).sadd(
            w.smul(dft_sum(odds(z), w.smul(w), m)),
        ),
    decreases m,
{
    let w2 = w.smul(w);
    if m == 0 {
        S::valid_zero();
        S::mul_commutes(w, S::szero());
        S::mul_zero(w);
        S::add_zero(S::szero());
    } else {
        let j = (m - 1) as nat;
        let ji = j as int;
        lemma_dft_sum_split(z, w, j);
        let ej = dft_sum(evens(z), w2, j);
        let oj = dft_sum(odds(z), w2, j);
        let et = evens(z)[ji].smul(pow_s(w2, j));
        let ot = odds(z)[ji].smul(pow_s(w2, j));
        // the two new terms of the long sum are the new even and odd terms
        assert(2 * m == (2 * j + 1) + 1);
        assert(dft_sum(z, w, 2 * m) == dft_sum(z, w, (2 * m - 1) as nat).sadd(
            z[2 * m - 1].smul(pow_s(w, (2 * m - 1) as nat)),
        ));
        assert(dft_sum(z, w, (2 * m - 1) as nat) == dft_sum(z, w, (2 * m - 2) as nat).sadd(
            z[2 * m - 2].smul(pow_s(w, (2 * m - 2) as nat)),
        ));
        assert((2 * m - 2) as nat == 2 * j && (2 * m - 1) as nat == (2 * j + 1) as nat);
        assert(dft_sum(z, w, 2 * m) == dft_sum(z, w, 2 * j).sadd(
            z[2 * ji].smul(pow_s(w, 2 * j)),
        ).sadd(z[2 * ji + 1].smul(pow_s(w, (2 * j + 1) as nat))));
        lemma_pow_s_square(w, j);
        assert(evens(z)[ji] == z[2 * ji]);
        assert(odds(z)[ji] == z[2 * ji + 1]);
        assert(z[2 * ji].smul(pow_s(w, 2 * j)) == et);
        // z[2j+1] * w^(2j+1) == w * (odds[j] * (w^2)^j)
        assert(pow_s(w, (2 * j + 1) as nat) == pow_s(w, 2 * j).smul(w));
        S::mul_associates(z[2 * ji + 1], pow_s(w, 2 * j), w);
        S::mul_commutes(z[2 * ji + 1].smul(pow_s(w, 2 * j)), w);
        assert(z[2 * ji + 1].smul(pow_s(w, (2 * j + 1) as nat)) == w.smul(ot));
        // fold the new terms into the split form
        lemma_add_regroup(ej, w.smul(oj), et, w.smul(ot));
        lemma_mul_left_distrib(w, oj, ot);
        assert(dft_sum(evens(z), w2, m) == ej.sadd(et));
        assert(dft_sum(odds(z), w2, m) == oj.sadd(ot));
    }
}

/// Every element of a decimated subsequence that starts below its stride
/// and covers the whole input lies in the carrier.
proof fn lemma_strided_valid<S: ScalarLaws>(x: Seq<S>, off: nat, stride: nat, m: nat)
    requires
        all_valid(x),
        off < stride,
        m * stride == x.len(),
    ensures
        forall|j: int| 0 <= j < m ==> (#[trigger] strided(x, off, stride, m)[j]).svalid(),
{
    assert forall|j: int| 0 <= j < m implies (#[trigger] strided(x, off, stride, m)[j]).svalid() by {
        assert(off + j * stride < x.len()) by (nonlinear_arith)
            requires
                off < stride,
                0 <= j < m,
                m * stride == x.len(),
        ;
        assert(0 <= j * stride) by (nonlinear_arith)
            requires
                0 <= j,
                0 <= stride,
        ;
    }
}

/// One butterfly pass merges a pair of half-width decimated transforms
/// into one of full width: the decimation-in-time step, for one output
/// position.
#[verifier::rlimit(60)]
proof fn lemma_merge_one<S: ScalarLaws>(x: Seq<S>, half: nat, inverse: bool, p: int)
    requires
        is_power_of_two(x.len()),
        is_power_of_two(half),
        2 * half <= x.len(),
        all_valid(x),
        S::order_supported(2 * half),
        0 <= p < x.len(),
        forall|q: int| 0 <= q < x.len() ==> #[trigger] stages(bit_rev_perm(x), half, inverse)[q]
            == dft_sum(
            strided(
                x,
                bit_rev((q / half as int) as nat, (log2(x.len()) - log2(half)) as nat),
                x.len() / half,
                half,
            ),
            pow_s(stage_root::<S>(half, inverse), (q % half as int) as nat),
            half,
        ),
    ensures
        stages(bit_rev_perm(x), 2 * half, inverse)[p] == dft_sum(
            strided(
                x,
                bit_rev((p / (2 * half) as int) as nat, (log2(x.len()) - log2(2 * half)) as nat),
                x.len() / (2 * half),
                2 * half,
            ),
            pow_s(stage_root::<S>(2 * half, inverse), (p % (2 * half) as int) as nat),
            2 * half,
        ),
{
    let n = x.len() as int;
    let len: nat = 2 * half;
    let leni = len as int;
    let halfi = half as int;
    let y = bit_rev_perm(x);
    let prev = stages(y, half, inverse);
    let w = stage_root::<S>(len, inverse);
    let wl = stage_root::<S>(half, inverse);
    // the power-of-two bookkeeping of sizes, strides and logarithms
    lemma_div_multiples_vanish(halfi, 2);
    assert(len / 2 == half);
    assert(is_power_of_two(len));
    let lgn = log2(x.len());
    let lglen = log2(len);
    let lgl = log2(half);
    assert(lglen == 1 + lgl);
    lemma_log2_pow2(x.len());
    lemma_log2_pow2(len);
    lemma_log2_pow2(half);
    if lglen > lgn {
        vstd::arithmetic::power2::lemma_pow2_strictly_increases(lgn, lglen);
        assert(false);
    }
    let k = (lgn - lglen) as nat;
    let kl = (lgn - lgl) as nat;
    assert(kl == k + 1);
    lemma_pow2_adds(k, lglen);
    assert(x.len() == pow2(k) * len);
    lemma_pow2_pos(k);
    let s2 = pow2(k) as int;
    assert(n == leni * s2) by (nonlinear_arith)
        requires
            n == (pow2(k) * len) as int,
            s2 == pow2(k) as int,
            leni == len as int,
    ;
    lemma_div_multiples_vanish(s2, leni);
    assert(n / leni == s2);
    lemma_pow2_adds(1, k);
    vstd::arithmetic::power2::lemma2_to64();
    assert(pow2(kl) == 2 * pow2(k));
    lemma_pow2_adds(kl, lgl);
    assert(x.len() == pow2(kl) * half);
    assert(n == halfi * (2 * s2)) by (nonlinear_arith)
        requires
            n == (pow2(kl) * half) as int,
            2 * s2 == pow2(kl) as int,
            halfi == half as int,
    ;
    lemma_div_multiples_vanish(2 * s2, halfi);
    assert(n / halfi == 2 * s2);
    // the block and offset of position p
    lemma_fundamental_div_mod(p, leni);
    vstd::arithmetic::div_mod::lemma_mod_bound(p, leni);
    vstd::arithmetic::div_mod::lemma_div_pos_is_pos(p, leni);
    let bq = p / leni;
    let t = p % leni;
    assert(bq < s2) by (nonlinear_arith)
        requires
            p == leni * bq + t,
            0 <= t < leni,
            p < n,
            n == leni * s2,
            0 < leni,
            0 <= bq,
    ;
    let bk = p - t;
    assert(bk == leni * bq);
    assert(bk + leni <= n) by (nonlinear_arith)
        requires
            bk == leni * bq,
            bq < s2,
            n == leni * s2,
            0 < leni,
    ;
    // the pass value at p
    lemma_stages_len(y, half, inverse);
    assert(stages(y, len, inverse) == butterfly_pass(prev, len, stage_root::<S>(len, inverse)));
    assert(stage_root::<S>(len, inverse) == w);
    assert(stages(y, len, inverse)[p] == crate::fft::pass_elem(prev, len, w, p));
    // the reversed block indices of the two merged half-blocks
    let brb = bit_rev(bq as nat, k);
    lemma_bit_rev_bound(bq as nat, k);
    assert(2 * bq == bq * 2 + 0) by (nonlinear_arith);
    lemma_fundamental_div_mod_converse(2 * bq, 2, bq, 0);
    assert(bit_rev((2 * bq) as nat, kl) == bit_rev(bq as nat, k) + 0 * pow2(k));
    assert(0 * pow2(k) == 0) by (nonlinear_arith);
    assert(bit_rev((2 * bq) as nat, kl) == brb);
    assert(2 * bq + 1 == bq * 2 + 1) by (nonlinear_arith);
    lemma_fundamental_div_mod_converse(2 * bq + 1, 2, bq, 1);
    assert(bit_rev((2 * bq + 1) as nat, kl) == bit_rev(bq as nat, k) + 1 * pow2(k));
    assert(1 * pow2(k) == pow2(k)) by (nonlinear_arith);
    assert(bit_rev((2 * bq + 1) as nat, kl) == brb + s2);
    // the target subsequence and its parity halves
    let z = strided(x, brb as nat, s2 as nat, len);
    assert(z.len() == len);
    let tt = if t < halfi { t } else { t - halfi };
    assert(0 <= tt < halfi);
    let wt = pow_s(w, t as nat);
    let q1 = bk + tt;
    let q2 = bk + tt + halfi;
    assert(q1 == (2 * bq) * halfi + tt) by (nonlinear_arith)
        requires
            q1 == leni * bq + tt,
            leni == 2 * halfi,
    ;
    lemma_fundamental_div_mod_converse(q1, halfi, 2 * bq, tt);
    assert(q2 == (2 * bq + 1) * halfi + tt) by (nonlinear_arith)
        requires
            q2 == leni * bq + tt + halfi,
            leni == 2 * halfi,
    ;
    lemma_fundamental_div_mod_converse(q2, halfi, 2 * bq + 1, tt);
    assert(0 <= q1 < n && 0 <= q2 < n);
    let se = strided(x, brb as nat, (2 * s2) as nat, half);
    let so = strided(x, (brb + s2) as nat, (2 * s2) as nat, half);
    let esum = dft_sum(se, pow_s(wl, tt as nat), half);
    let osum = dft_sum(so, pow_s(wl, tt as nat), half);
    assert(prev[q1] == esum);
    assert(prev[q2] == osum);
    // the parity halves of the full subsequence are the two half-blocks
    assert(evens(z) =~= se) by {
        assert forall|u: int| 0 <= u < half implies evens(z)[u] == se[u] by {
            assert((2 * u) * s2 == u * (2 * s2)) by (nonlinear_arith);
        }
    }
    assert(odds(z) =~= so) by {
        assert forall|u: int| 0 <= u < half implies odds(z)[u] == so[u] by {
            assert((2 * u + 1) * s2 == s2 + u * (2 * s2)) by (nonlinear_arith);
        }
    }
    // split the full sum by parity
    lemma_dft_sum_split(z, wt, half);
    // the squared base of the split halves is the half-order base
    lemma_pow_s_sq_of_pow(w, t as nat);
    assert(half >= 1);
    S::order_supported_halves(half);
    S::root_chain(half);
    assert(w.smul(w) == wl);
    assert(stage_root::<S>(half, inverse) == wl);
    S::valid_root(half);
    S::valid_root(2 * half);
    if t < halfi {
        assert(tt == t);
        assert(crate::fft::pass_elem(prev, len, w, p) == prev[q1].sadd(prev[q2].smul(wt)));
        S::mul_commutes(osum, wt);
        assert(dft_sum(z, wt, len) == esum.sadd(osum.smul(wt)));
    } else {
        assert(t == tt + halfi);
        let wtl = pow_s(w, tt as nat);
        assert(crate::fft::pass_elem(prev, len, w, p) == prev[q1].ssub(prev[q2].smul(wtl)));
        // the split base at exponent t reduces to exponent t - half
        lemma_pow_s_add(wl, tt as nat, half);
        lemma_root_order::<S>(half, inverse);
        lemma_pow_valid(wl, tt as nat);
        S::mul_one(pow_s(wl, tt as nat));
        assert(pow_s(wl, t as nat) == pow_s(wl, tt as nat));
        // the twiddle at exponent t is minus the twiddle at t - half
        lemma_pow_s_add(w, tt as nat, half);
        lemma_root_half::<S>(half, inverse);
        assert(wt == wtl.smul(S::sone().sneg()));
        // osum lies in the carrier
        assert(half * (2 * s2) as nat == x.len()) by (nonlinear_arith)
            requires
                n == halfi * (2 * s2),
                halfi == half as int,
                n == x.len() as int,
                0 <= s2,
        ;
        assert(brb + s2 < 2 * s2);
        lemma_strided_valid(x, (brb + s2) as nat, (2 * s2) as nat, half);
        lemma_dft_sum_valid(so, pow_s(wl, tt as nat), half);
        // fold the sign into the odd half
        S::mul_associates(wtl, S::sone().sneg(), osum);
        S::mul_neg(S::sone(), osum);
        S::mul_commutes(S::sone(), osum);
        S::mul_one(osum);
        assert(wt.smul(osum) == wtl.smul(osum.sneg()));
        S::sub_is_add_neg(esum, osum.smul(wtl));
        S::mul_neg(osum, wtl);
        S::mul_commutes(osum.sneg(), wtl);
        assert(prev[q1].ssub(prev[q2].smul(wtl)) == esum.sadd(wtl.smul(osum.sneg())));
        assert(dft_sum(z, wt, len) == esum.sadd(wtl.smul(osum.sneg())));
    }
}

/// Rearranging a sum of four terms.
proof fn lemma_add_regroup<S: ScalarLaws>(p: S, q: S, r: S, t: S)
    ensures
        p.sadd(q).sadd(r).sadd(t) == p.sadd(r).sadd(q.sadd(t)),
{
    S::add_associates(p, q, r);
    S::add_commutes(q, r);
    S::add_associates(p, r, q);
    S::add_associates(p.sadd(r), q, t);
}

/// Multiplication from the left distributes over addition.
proof fn lemma_mul_left_distrib<S: ScalarLaws>(a: S, p: S, q: S)
    ensures
        a.smul(p.sadd(q)) == a.smul(p).sadd(a.smul(q)),
{
    S::mul_commutes(a, p.sadd(q));
    S::mul_distributes(p, q, a);
    S::mul_commutes(p, a);
    S::mul_commutes(q, a);
}

/// After the passes up to width `len`, each block of `len` positions
/// holds the direct transform of one stride-decimated subsequence of the
/// input, selected by the bit-reversed block index.
proof fn lemma_stages_strided<S: ScalarLaws>(x: Seq<S>, len: nat, inverse: bool)
    requires
        is_power_of_two(x.len()),
        is_power_of_two(len),
        len <= x.len(),
        all_valid(x),
        S::order_supported(len),
    ensures
        forall|p: int| 0 <= p < x.len() ==> #[trigger] stages(bit_rev_perm(x), len, inverse)[p]
            == dft_sum(
            strided(
                x,
                bit_rev((p / len as int) as nat, (log2(x.len()) - log2(len)) as nat),
                x.len() / len,
                len,
            ),
            pow_s(stage_root::<S>(len, inverse), (p % len as int) as nat),
            len,
        ),
    decreases len,
{
    let n = x.len() as int;
    let y = bit_rev_perm(x);
    lemma_log2_pow2(x.len());
    let lgn = log2(x.len());
    if len == 1 {
        assert(stages(y, 1, inverse) == y);
        S::valid_zero();
        assert forall|p: int| 0 <= p < n implies #[trigger] stages(y, 1, inverse)[p] == dft_sum(
            strided(x, bit_rev((p / 1) as nat, (lgn - log2(1)) as nat), x.len() / 1, 1),
            pow_s(stage_root::<S>(1, inverse), (p % 1) as nat),
            1,
        ) by {
            lemma_fundamental_div_mod_converse(p, 1, p, 0);
            let off = bit_rev(p as nat, lgn);
            lemma_bit_rev_bound(p as nat, lgn);
            let zz = strided(x, off, x.len() / 1, 1);
            let w1 = stage_root::<S>(1, inverse);
            assert(zz[0] == x[off as int]) by {
                assert(0 * ((x.len() / 1) as int) == 0) by (nonlinear_arith);
            }
            assert(dft_sum(zz, pow_s(w1, 0), 0) == S::szero());
            assert(dft_sum(zz, pow_s(w1, 0), 1) == S::szero().sadd(
                zz[0].smul(pow_s(pow_s(w1, 0), 0)),
            ));
            assert(pow_s(pow_s(w1, 0), 0) == S::sone());
            S::mul_one(zz[0]);
            S::add_commutes(S::szero(), zz[0]);
            S::add_zero(zz[0]);
            assert(y[p] == x[off as int]);
        }
    } else {
        let half = len / 2;
        assert(2 * half == len);
        S::order_supported_halves(half);
        lemma_stages_strided::<S>(x, half, inverse);
        assert forall|p: int| 0 <= p < n implies #[trigger] stages(y, len, inverse)[p] == dft_sum(
            strided(
                x,
                bit_rev((p / len as int) as nat, (lgn - log2(len)) as nat),
                x.len() / len,
                len,
            ),
            pow_s(stage_root::<S>(len, inverse), (p % len as int) as nat),
            len,
        ) by {
            lemma_merge_one::<S>(x, half, inverse, p);
        }
    }
}

/// Oracle agreement, as a theorem: the fast transform computes exactly
/// the defining sums of the direct transform, over every scalar algebra
/// that satisfies the ring and root-of-unity laws and every input of
/// supported power-of-two length whose elements lie in the carrier.
pub proof fn lemma_fft_agrees_with_dft<S: ScalarLaws>(x: Seq<S>)
    requires
        is_power_of_two(x.len()),
        all_valid(x),
        S::order_supported(x.len()),
    ensures
        fft_spec(x) == dft_spec(x),
{
    let n = x.len() as int;
    lemma_stages_strided::<S>(x, x.len(), false);
    lemma_log2_pow2(x.len());
    lemma_stages_len(bit_rev_perm(x), x.len(), false);
    assert forall|kk: int| 0 <= kk < n implies #[trigger] fft_spec(x)[kk] == dft_spec(x)[kk] by {
        lemma_fundamental_div_mod_converse(kk, n, 0, kk);
        let off = bit_rev((kk / n) as nat, (log2(x.len()) - log2(x.len())) as nat);
        assert(bit_rev(0, 0) == 0);
        assert(off == 0);
        let zz = strided(x, 0, x.len() / x.len(), x.len());
        vstd::arithmetic::div_mod::lemma_div_by_self(n);
        assert(zz =~= x) by {
            assert forall|j: int| 0 <= j < n implies zz[j] == x[j] by {
                assert(j * 1 == j) by (nonlinear_arith);
            }
        }
        assert(fft_spec(x)[kk] == stages(bit_rev_perm(x), x.len(), false)[kk]);
        assert(dft_spec(x)[kk] == dft_sum(x, pow_s(S::sroot(x.len()), kk as nat), x.len()));
    }
    assert(fft_spec(x) =~= dft_spec(x));
}

/// Oracle agreement for the inverse direction: the fast inverse transform
/// computes exactly the defining sums of the direct inverse transform,
/// including the final division by the length.
pub proof fn lemma_ifft_agrees_with_idft<S: ScalarLaws>(x: Seq<S>)
    requires
        is_power_of_two(x.len()),
        all_valid(x),
        S::order_supported(x.len()),
    ensures
        ifft_spec(x) == idft_spec(x),
{
    let n = x.len() as int;
    lemma_stages_strided::<S>(x, x.len(), true);
    lemma_log2_pow2(x.len());
    lemma_stages_len(bit_rev_perm(x), x.len(), true);
    let st = stages(bit_rev_perm(x), x.len(), true);
    assert forall|kk: int| 0 <= kk < n implies #[trigger] ifft_spec(x)[kk] == idft_spec(x)[kk] by {
        lemma_fundamental_div_mod_converse(kk, n, 0, kk);
        let off = bit_rev((kk / n) as nat, (log2(x.len()) - log2(x.len())) as nat);
        assert(bit_rev(0, 0) == 0);
        assert(off == 0);
        let zz = strided(x, 0, x.len() / x.len(), x.len());
        vstd::arithmetic::div_mod::lemma_div_by_self(n);
        assert(zz =~= x) by {
            assert forall|j: int| 0 <= j < n implies zz[j] == x[j] by {
                assert(j * 1 == j) by (nonlinear_arith);
            }
        }
        assert(st[kk] == dft_sum(x, pow_s(S::sroot_inv(x.len()), kk as nat), x.len()));
        assert(ifft_spec(x)[kk] == st[kk].sdiv_n(x.len()));
        assert(idft_spec(x)[kk] == dft_sum(
            x,
            pow_s(S::sroot_inv(x.len()), kk as nat),
            x.len(),
        ).sdiv_n(x.len()));
    }
    assert(ifft_spec(x) =~= idft_spec(x));
}

} // verus!
