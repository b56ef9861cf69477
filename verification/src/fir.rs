//! Frequency-sampling FIR filter designer.
//!
//! Built from a response curve sampled at evenly spaced angular
//! frequencies. At run time each output sample is
//! `coeff * (H(0) + 2 * sum_k H(omega_k) * cos(omega_k * x))`, taking
//! the sample value itself as the phase argument. Note that phase
//! choice well: it is not a time-domain convolution over a window of
//! past samples, and the two behave audibly differently; this
//! waveshaping reading of the frequency-sampling formula is the
//! brightness effect this engine wants.

use vstd::prelude::*;
use vstd::arithmetic::div_mod::{
    lemma_div_is_ordered, lemma_div_multiples_vanish, lemma_fundamental_div_mod,
};
use vstd::arithmetic::mul::lemma_mul_inequality;
use crate::fixed::{
    FIX_ONE, PI_FIX, SIG_LIMIT, iabs, sample_ok, samples_ok, tdiv, qmul, cos_fix_spec, cos_fix,
    tdiv64, qmul64, lemma_tdiv_bound, lemma_iabs_mul_le, lemma_qmul_unit, lemma_cos_fix_range,
};
use crate::filters::Filter;

verus! {

/// Most one-sided taps a designer will sample; keeps every product in
/// the evaluation inside `i64`.
pub const FIR_MAX_TAPS: usize = 100000000;

/// A desired frequency-response curve: magnitude (at most one) per
/// angular frequency, both in fixed point.
pub trait ResponseCurve: Sized {
    /// The curve as a mathematical function.
    spec fn model(self, w: i64) -> int;

    /// Sample the curve at one angular frequency.
    fn at(&self, w: i64) -> (r: i64)
        ensures
            r as int == self.model(w),
            0 <= r <= FIX_ONE;
}

/// An ideal low-pass response: unit magnitude up to the cutoff, zero
/// above it.
pub struct BrickWallCurve {
    pub cutoff: i64,
}

impl ResponseCurve for BrickWallCurve {
    open spec fn model(self, w: i64) -> int {
        if w <= self.cutoff {
            FIX_ONE as int
        } else {
            0
        }
    }

    fn at(&self, w: i64) -> (r: i64) {
        if w <= self.cutoff {
            FIX_ONE
        } else {
            0
        }
    }
}

/// The angular frequency of the `k`-th sampling point out of `m`.
pub open spec fn fir_omega(k: int, m: int) -> int
    recommends
        m > 0,
{
    (k * (PI_FIX as int)) / m
}

/// Frequency-sampling FIR filter state: one (response, frequency)
/// pair per tap, the DC response, and the normalisation coefficient.
/// Immutable after construction.
pub struct FIR {
    pub omegas: Vec<(i64, i64)>,
    pub freq0: i64,
    pub coeff: i64,
}

/// Mathematical state of a FIR filter.
pub struct FirModel {
    pub omegas: Seq<(i64, i64)>,
    pub freq0: i64,
    pub coeff: i64,
}

impl View for FIR {
    type V = FirModel;

    open spec fn view(&self) -> FirModel {
        FirModel { omegas: self.omegas@, freq0: self.freq0, coeff: self.coeff }
    }
}

/// FIR invariant: responses within [0, 1], frequencies within
/// [0, pi], and the coefficient normalising the sum back under one.
pub open spec fn fir_wf(m: FirModel) -> bool {
    &&& m.omegas.len() <= FIR_MAX_TAPS
    &&& forall|j: int| 0 <= j < m.omegas.len() ==> 0 <= (#[trigger] m.omegas[j]).0 <= FIX_ONE
    &&& forall|j: int| 0 <= j < m.omegas.len() ==> 0 <= (#[trigger] m.omegas[j]).1 <= PI_FIX
    &&& 0 <= m.freq0 <= FIX_ONE
    &&& 0 <= m.coeff
    &&& m.coeff * (2 * m.omegas.len() + 1) <= FIX_ONE
}

/// One tap's contribution for input sample `x`.
pub open spec fn fir_term(e: (i64, i64), x: i64) -> int {
    qmul(e.0 as int, cos_fix_spec(tdiv(e.1 * x, FIX_ONE as int)))
}

/// Sum of the first `k` taps' contributions for input sample `x`.
pub open spec fn fir_sum(omegas: Seq<(i64, i64)>, x: i64, k: int) -> int
    decreases k,
{
    if k <= 0 {
        0
    } else {
        fir_sum(omegas, x, k - 1) + fir_term(omegas[k - 1], x)
    }
}

/// What the filter emits for input sample `x`.
pub open spec fn fir_eval(m: FirModel, x: i64) -> int {
    tdiv(m.coeff * (m.freq0 + 2 * fir_sum(m.omegas, x, m.omegas.len() as int)), FIX_ONE as int)
}

/// A tap's contribution is within [-FIX_ONE, FIX_ONE].
pub proof fn lemma_fir_term_unit(e: (i64, i64), x: i64)
    requires
        0 <= e.0 <= FIX_ONE,
    ensures
        -FIX_ONE <= fir_term(e, x) <= FIX_ONE,
{
    lemma_cos_fix_range(tdiv(e.1 * x, FIX_ONE as int));
    lemma_qmul_unit(e.0 as int, cos_fix_spec(tdiv(e.1 * x, FIX_ONE as int)));
}

/// The tap sum grows at most one unit per tap.
pub proof fn lemma_fir_sum_bound(omegas: Seq<(i64, i64)>, x: i64, k: int)
    requires
        0 <= k <= omegas.len(),
        forall|j: int| 0 <= j < omegas.len() ==> 0 <= (#[trigger] omegas[j]).0 <= FIX_ONE,
    ensures
        -(k * FIX_ONE as int) <= fir_sum(omegas, x, k) <= k * FIX_ONE as int,
    decreases k,
{
    if k > 0 {
        lemma_fir_sum_bound(omegas, x, k - 1);
        lemma_fir_term_unit(omegas[k - 1], x);
        assert((k - 1) * FIX_ONE as int + FIX_ONE as int == k * FIX_ONE as int) by (nonlinear_arith);
    }
}

/// A well-formed filter's output is within [-FIX_ONE, FIX_ONE].
pub proof fn lemma_fir_eval_ok(m: FirModel, x: i64)
    requires
        fir_wf(m),
    ensures
        -FIX_ONE <= fir_eval(m, x) <= FIX_ONE,
        sample_ok(fir_eval(m, x)),
{
    let n = m.omegas.len() as int;
    let one = FIX_ONE as int;
    lemma_fir_sum_bound(m.omegas, x, n);
    let s = fir_sum(m.omegas, x, n);
    let inner = m.freq0 + 2 * s;
    assert(iabs(inner) <= (2 * n + 1) * one) by (nonlinear_arith)
        requires
            -(n * one) <= s <= n * one,
            0 <= m.freq0 <= one,
            inner == m.freq0 + 2 * s,
            one > 0,
            n >= 0,
    ;
    assert(m.coeff <= FIX_ONE) by (nonlinear_arith)
        requires
            0 <= m.coeff,
            m.coeff * (2 * n + 1) <= FIX_ONE,
            n >= 0,
    ;
    lemma_iabs_mul_le(m.coeff as int, inner, m.coeff as int, (2 * n + 1) * one);
    assert(m.coeff * ((2 * n + 1) * one) >= 0) by (nonlinear_arith)
        requires
            0 <= m.coeff,
            n >= 0,
            one > 0,
    ;
    lemma_tdiv_bound(m.coeff * inner, one, m.coeff * ((2 * n + 1) * one));
    assert((m.coeff * ((2 * n + 1) * one)) / one == m.coeff * (2 * n + 1)) by {
        lemma_div_multiples_vanish(m.coeff * (2 * n + 1), one);
        assert(m.coeff * ((2 * n + 1) * one) == one * (m.coeff * (2 * n + 1))) by (nonlinear_arith);
    }
}

impl FIR {
    /// Design a filter with `taps` one-sided taps from a response
    /// curve: sample the curve at `omega_k = k*pi/(2*taps+1)` for
    /// `k = 1..taps` and at zero, and normalise by the total number of
    /// samples.
    pub fn new<C: ResponseCurve>(taps: usize, curve: &C) -> (r: FIR)
        requires
            1 <= taps <= FIR_MAX_TAPS,
        ensures
            r@.omegas.len() == taps,
            forall|j: int|
                0 <= j < taps ==> (#[trigger] r@.omegas[j]).1 as int == fir_omega(
                    j + 1,
                    2 * taps as int + 1,
                ),
            forall|j: int|
                0 <= j < taps ==> (#[trigger] r@.omegas[j]).0 as int == curve.model(
                    r@.omegas[j].1,
                ),
            r@.freq0 as int == curve.model(0i64),
            r@.coeff as int == (FIX_ONE as int) / (2 * taps as int + 1),
            fir_wf(r@),
    {
        let m_total: usize = 2 * taps + 1;
        let mut omegas: Vec<(i64, i64)> = Vec::new();
        let mut k: usize = 1;
        while k <= taps
            invariant
                1 <= k <= taps + 1,
                taps <= FIR_MAX_TAPS,
                m_total == 2 * taps + 1,
                omegas@.len() == k - 1,
                forall|j: int|
                    0 <= j < k - 1 ==> (#[trigger] omegas@[j]).1 as int == fir_omega(
                        j + 1,
                        2 * taps as int + 1,
                    ),
                forall|j: int|
                    0 <= j < k - 1 ==> (#[trigger] omegas@[j]).0 as int == curve.model(
                        omegas@[j].1,
                    ),
                forall|j: int| 0 <= j < k - 1 ==> 0 <= (#[trigger] omegas@[j]).0 <= FIX_ONE,
                forall|j: int| 0 <= j < k - 1 ==> 0 <= (#[trigger] omegas@[j]).1 <= PI_FIX,
            decreases taps + 1 - k,
        {
            let w64: u64 = ((k as u64) * (PI_FIX as u64)) / (m_total as u64);
            proof {
                lemma_mul_inequality(k as int, m_total as int, PI_FIX as int);
                lemma_div_is_ordered(
                    k as int * PI_FIX as int,
                    m_total as int * PI_FIX as int,
                    m_total as int,
                );
                lemma_div_multiples_vanish(PI_FIX as int, m_total as int);
                lemma_div_is_ordered(0, k as int * PI_FIX as int, m_total as int);
            }
            let w: i64 = w64 as i64;
            let resp: i64 = curve.at(w);
            omegas.push((resp, w));
            k += 1;
        }
        let freq0 = curve.at(0);
        let coeff: i64 = ((FIX_ONE as u64) / (m_total as u64)) as i64;
        proof {
            lemma_div_is_ordered(0, FIX_ONE as int, m_total as int);
            lemma_div_is_ordered(FIX_ONE as int, FIX_ONE as int, 1);
            lemma_fundamental_div_mod(FIX_ONE as int, m_total as int);
            vstd::arithmetic::div_mod::lemma_mod_bound(FIX_ONE as int, m_total as int);
            assert(((FIX_ONE as int) / (m_total as int)) * (2 * taps as int + 1) == (m_total as int)
                * ((FIX_ONE as int) / (m_total as int))) by (nonlinear_arith)
                requires
                    m_total == 2 * taps as int + 1,
            ;
            lemma_div_is_ordered(FIX_ONE as int, FIX_ONE as int * m_total as int, m_total as int);
            lemma_div_multiples_vanish(FIX_ONE as int, m_total as int);
            assert(FIX_ONE as int * m_total as int == m_total as int * FIX_ONE as int)
                by (nonlinear_arith);
        }
        FIR { omegas, freq0, coeff }
    }
}

impl Filter for FIR {
    open spec fn wf(self) -> bool {
        fir_wf(self@)
    }

    open spec fn out(self, input: Seq<i64>) -> Seq<i64> {
        Seq::new(input.len(), |i: int| fir_eval(self@, input[i]) as i64)
    }

    open spec fn steps_to(self, input: Seq<i64>, next: Self) -> bool {
        next@ == self@
    }

    proof fn out_ok(self, input: Seq<i64>) {
        assert forall|i: int| 0 <= i < self.out(input).len() implies sample_ok(
            #[trigger] self.out(input)[i] as int,
        ) by {
            lemma_fir_eval_ok(self@, input[i]);
        }
    }

    proof fn steps_wf(self, input: Seq<i64>, next: Self) {
    }

    fn process(&mut self, samples: &mut Vec<i64>) {
        let ghost m0 = self@;
        let ghost input = samples@;
        let len = samples.len();
        let n = self.omegas.len();
        let mut i: usize = 0;
        while i < len
            invariant
                i <= len,
                len == samples@.len(),
                input.len() == len,
                samples_ok(input),
                self@ == m0,
                fir_wf(m0),
                n == m0.omegas.len(),
                forall|t: int| 0 <= t < i ==> samples@[t] == fir_eval(m0, input[t]) as i64,
                forall|t: int| i <= t < len ==> samples@[t] == input[t],
            decreases len - i,
        {
            let x = samples[i];
            proof {
                assert(samples@[i as int] == input[i as int]);
                assert(sample_ok(x as int));
            }
            let mut sum: i64 = 0;
            let mut k: usize = 0;
            while k < n
                invariant
                    k <= n,
                    n == self.omegas@.len(),
                    self@ == m0,
                    fir_wf(m0),
                    sample_ok(x as int),
                    sum as int == fir_sum(m0.omegas, x, k as int),
                    -(k as int * FIX_ONE as int) <= sum as int <= k as int * FIX_ONE as int,
                decreases n - k,
            {
                let pair = self.omegas[k];
                let resp = pair.0;
                let w = pair.1;
                proof {
                    lemma_iabs_mul_le(w as int, x as int, PI_FIX as int, SIG_LIMIT as int);
                    lemma_tdiv_bound(
                        w as int * x as int,
                        FIX_ONE as int,
                        PI_FIX as int * SIG_LIMIT as int,
                    );
                    lemma_div_is_ordered(
                        0,
                        PI_FIX as int * SIG_LIMIT as int,
                        FIX_ONE as int,
                    );
                }
                let arg = tdiv64(w * x, FIX_ONE);
                let c = cos_fix(arg);
                proof {
                    lemma_iabs_mul_le(resp as int, c as int, FIX_ONE as int, FIX_ONE as int);
                    lemma_fir_term_unit(pair, x);
                    assert((k as int) * FIX_ONE as int + FIX_ONE as int == (k as int + 1)
                        * FIX_ONE as int) by (nonlinear_arith);
                    assert((k as int + 1) * FIX_ONE as int <= (n as int) * FIX_ONE as int)
                        by (nonlinear_arith)
                        requires
                            k as int + 1 <= n as int,
                            n as int <= FIR_MAX_TAPS as int,
                    ;
                    assert((n as int) * FIX_ONE as int <= 0x1000_0000_0000_0000int)
                        by (nonlinear_arith)
                        requires
                            0 <= n as int <= FIR_MAX_TAPS as int,
                    ;
                }
                let term = qmul64(resp, c);
                sum = sum + term;
                k += 1;
            }
            proof {
                lemma_fir_eval_ok(m0, x);
                assert((n as int) * FIX_ONE as int <= 0x1000_0000_0000_0000int)
                    by (nonlinear_arith)
                    requires
                        0 <= n as int <= FIR_MAX_TAPS as int,
                ;
                let inner = m0.freq0 + 2 * (sum as int);
                assert(m0.coeff <= FIX_ONE) by (nonlinear_arith)
                    requires
                        0 <= m0.coeff,
                        m0.coeff * (2 * n as int + 1) <= FIX_ONE,
                        n >= 0,
                ;
                lemma_iabs_mul_le(
                    m0.coeff as int,
                    inner,
                    FIX_ONE as int,
                    (2 * n as int + 1) * FIX_ONE as int,
                );
                assert(iabs(inner) <= (2 * n as int + 1) * FIX_ONE as int) by (nonlinear_arith)
                    requires
                        -(n as int * FIX_ONE as int) <= sum as int <= n as int * FIX_ONE as int,
                        0 <= m0.freq0 <= FIX_ONE,
                        inner == m0.freq0 + 2 * (sum as int),
                        n >= 0,
                ;
                assert(FIX_ONE as int * ((2 * n as int + 1) * FIX_ONE as int)
                    <= 0x4000_0000_0000_0000int) by (nonlinear_arith)
                    requires
                        0 <= n as int <= FIR_MAX_TAPS as int,
                ;
            }
            let inner: i64 = self.freq0 + 2 * sum;
            let y = tdiv64(self.coeff * inner, FIX_ONE);
            samples.set(i, y);
            i += 1;
        }
        proof {
            assert(samples@ =~= old(self).out(input));
        }
    }
}

/// A filter designed from an everywhere-zero response curve is
/// silent: every output sample is exactly zero, whatever the input.
pub proof fn fir_zero_response_is_silent(m: FirModel, x: i64)
    requires
        fir_wf(m),
        m.freq0 == 0i64,
        forall|j: int| 0 <= j < m.omegas.len() ==> (#[trigger] m.omegas[j]).0 == 0i64,
    ensures
        fir_eval(m, x) == 0,
{
    lemma_fir_sum_zero(m.omegas, x, m.omegas.len() as int);
    assert(m.coeff * (0 + 2 * 0) == 0) by (nonlinear_arith);
}

/// The tap sum of an all-zero response is zero.
proof fn lemma_fir_sum_zero(omegas: Seq<(i64, i64)>, x: i64, k: int)
    requires
        0 <= k <= omegas.len(),
        forall|j: int| 0 <= j < omegas.len() ==> (#[trigger] omegas[j]).0 == 0i64,
    ensures
        fir_sum(omegas, x, k) == 0,
    decreases k,
{
    if k > 0 {
        lemma_fir_sum_zero(omegas, x, k - 1);
        assert(fir_term(omegas[k - 1], x) == 0) by {
            lemma_tdiv_bound(
                0 * cos_fix_spec(tdiv(omegas[k - 1].1 * x, FIX_ONE as int)),
                FIX_ONE as int,
                0,
            );
            assert(0 * cos_fix_spec(tdiv(omegas[k - 1].1 * x, FIX_ONE as int)) == 0)
                by (nonlinear_arith);
        }
    }
}

} // verus!
