//! Fixed-point sample arithmetic.
//!
//! A sample is an `i64` holding a real value scaled by `FIX_ONE` (16
//! fractional bits), so the conventional audio range [-1, 1] is
//! [-FIX_ONE, FIX_ONE]. Every operation the engine performs on samples
//! is defined here as ordinary integer arithmetic with an exact
//! specification: truncating division, fixed-point multiplication, a
//! clamped addition used when mixing, and a polynomial cosine.

use vstd::prelude::*;
use vstd::arithmetic::div_mod::{lemma_div_is_ordered, lemma_div_multiples_vanish};
use vstd::arithmetic::mul::lemma_mul_inequality;

verus! {

/// One in fixed-point representation (2^16).
pub const FIX_ONE: i64 = 65536;

/// One half in fixed-point representation.
pub const FIX_HALF: i64 = 32768;

/// Largest magnitude a sample may take anywhere in the engine.
/// Leaves ample headroom (2^14 full-scale units) above the nominal
/// [-FIX_ONE, FIX_ONE] range while keeping every product of a sample
/// and a gain inside `i64`.
pub const SIG_LIMIT: i64 = 1073741824;

/// Pi scaled by `FIX_ONE`.
pub const PI_FIX: i64 = 205887;

/// Two pi scaled by `FIX_ONE` (exactly twice `PI_FIX`).
pub const TWO_PI_FIX: i64 = 411774;

/// Half pi scaled by `FIX_ONE`, rounded up so that folding an angle
/// from [0, PI_FIX] leaves an argument the quarter-wave polynomial
/// accepts.
pub const HALF_PI_FIX: i64 = 102944;

/// Absolute value of a mathematical integer.
pub open spec fn iabs(x: int) -> int {
    if x >= 0 {
        x
    } else {
        -x
    }
}

/// Division truncating toward zero, as Rust's `/` on signed integers.
pub open spec fn tdiv(p: int, d: int) -> int
    recommends
        d > 0,
{
    if p >= 0 {
        p / d
    } else {
        -((-p) / d)
    }
}

/// Fixed-point product: the scaled-back product of two samples.
pub open spec fn qmul(a: int, b: int) -> int {
    tdiv(a * b, FIX_ONE as int)
}

/// A value within the engine's sample range.
pub open spec fn sample_ok(x: int) -> bool {
    -SIG_LIMIT <= x <= SIG_LIMIT
}

/// Every element of a sample sequence is within the engine's range.
pub open spec fn samples_ok(s: Seq<i64>) -> bool {
    forall|i: int| 0 <= i < s.len() ==> sample_ok(#[trigger] s[i] as int)
}

/// Clamp a value into the engine's sample range.
pub open spec fn clamp(v: int) -> int {
    if v > SIG_LIMIT as int {
        SIG_LIMIT as int
    } else if v < -(SIG_LIMIT as int) {
        -(SIG_LIMIT as int)
    } else {
        v
    }
}

/// Clamped (saturating) addition used when mixing parallel branches.
pub open spec fn cadd(a: int, b: int) -> int {
    clamp(a + b)
}

/// Truncating division of possibly-negative values never grows the
/// magnitude of the bound that the dividend obeys.
pub proof fn lemma_tdiv_bound(p: int, d: int, b: int)
    requires
        d > 0,
        0 <= b,
        -b <= p <= b,
    ensures
        -(b / d) <= tdiv(p, d) <= b / d,
{
    if p >= 0 {
        lemma_div_is_ordered(0, p, d);
        lemma_div_is_ordered(p, b, d);
    } else {
        lemma_div_is_ordered(0, -p, d);
        lemma_div_is_ordered(-p, b, d);
    }
}

/// The fixed-point product of two values within [-FIX_ONE, FIX_ONE]
/// stays within [-FIX_ONE, FIX_ONE].
pub proof fn lemma_qmul_unit(a: int, b: int)
    requires
        -(FIX_ONE as int) <= a <= FIX_ONE as int,
        -(FIX_ONE as int) <= b <= FIX_ONE as int,
    ensures
        -(FIX_ONE as int) <= qmul(a, b) <= FIX_ONE as int,
{
    lemma_iabs_mul_le(a, b, FIX_ONE as int, FIX_ONE as int);
    lemma_tdiv_bound(a * b, FIX_ONE as int, FIX_ONE as int * FIX_ONE as int);
    assert((FIX_ONE as int * FIX_ONE as int) / (FIX_ONE as int) == FIX_ONE as int) by {
        lemma_div_multiples_vanish(FIX_ONE as int, FIX_ONE as int);
    }
}

/// Bounding both factors bounds the product.
pub proof fn lemma_iabs_mul_le(a: int, b: int, ba: int, bb: int)
    requires
        iabs(a) <= ba,
        iabs(b) <= bb,
    ensures
        -(ba * bb) <= a * b <= ba * bb,
{
    lemma_mul_inequality(iabs(a), ba, iabs(b));
    lemma_mul_inequality(iabs(b), bb, ba);
    assert(iabs(a) * iabs(b) <= ba * iabs(b));
    assert(ba * iabs(b) == iabs(b) * ba) by (nonlinear_arith);
    assert(iabs(b) * ba <= bb * ba);
    assert(a * b == iabs(a) * iabs(b) || a * b == -(iabs(a) * iabs(b))) by (nonlinear_arith);
    assert(bb * ba == ba * bb) by (nonlinear_arith);
}

/// Truncating division, computed through unsigned division so that the
/// result is pinned exactly by `tdiv`.
pub fn tdiv64(p: i64, d: i64) -> (r: i64)
    requires
        d > 0,
        p > i64::MIN,
    ensures
        r as int == tdiv(p as int, d as int),
{
    if p >= 0 {
        let q: u64 = (p as u64) / (d as u64);
        proof {
            lemma_div_is_ordered(p as int, i64::MAX as int, d as int);
            lemma_div_is_ordered(0, p as int, d as int);
        }
        q as i64
    } else {
        let n: u64 = (-p) as u64;
        let q: u64 = n / (d as u64);
        proof {
            lemma_div_is_ordered(n as int, i64::MAX as int, d as int);
            lemma_div_is_ordered(0, n as int, d as int);
        }
        -(q as i64)
    }
}

/// Fixed-point multiply of two samples, exact per `qmul`.
pub fn qmul64(a: i64, b: i64) -> (r: i64)
    requires
        -(0x4000_0000_0000_0000) <= a * b <= 0x4000_0000_0000_0000,
    ensures
        r as int == qmul(a as int, b as int),
{
    let p: i64 = a * b;
    tdiv64(p, FIX_ONE)
}

/// Quarter-wave cosine: a fourth-order polynomial approximation of
/// the cosine of `t` (fixed-point radians in [0, HALF_PI_FIX]).
pub open spec fn cos_quart(t: int) -> int
    recommends
        0 <= t <= HALF_PI_FIX,
{
    let q = (t * t) / (FIX_ONE as int);
    FIX_ONE - q / 2 + ((q * q) / (FIX_ONE as int)) / 24
}

/// Cosine over a half turn, by quarter-wave symmetry.
pub open spec fn cos_pi(t: int) -> int
    recommends
        0 <= t <= PI_FIX,
{
    if t <= HALF_PI_FIX {
        cos_quart(t)
    } else {
        -cos_quart(PI_FIX - t)
    }
}

/// The engine's cosine of an arbitrary fixed-point angle: reduced
/// into one turn by evenness and periodicity, then folded onto the
/// quarter-wave polynomial.
pub open spec fn cos_fix_spec(x: int) -> int {
    let a = iabs(x);
    let r = a % (TWO_PI_FIX as int);
    if r <= PI_FIX {
        cos_pi(r)
    } else {
        cos_pi(TWO_PI_FIX - r)
    }
}

/// The quarter-wave polynomial stays within [-FIX_ONE, FIX_ONE].
pub proof fn lemma_cos_quart_range(t: int)
    requires
        0 <= t <= HALF_PI_FIX,
    ensures
        -FIX_ONE <= cos_quart(t) <= FIX_ONE,
{
    let one = FIX_ONE as int;
    let q = (t * t) / one;
    lemma_mul_nonnegative_simple(t, t);
    lemma_mul_inequality(t, HALF_PI_FIX as int, t);
    assert(t * (HALF_PI_FIX as int) == (HALF_PI_FIX as int) * t) by (nonlinear_arith);
    lemma_mul_inequality(t, HALF_PI_FIX as int, HALF_PI_FIX as int);
    assert(t * t <= (HALF_PI_FIX as int) * (HALF_PI_FIX as int));
    lemma_div_is_ordered(0, t * t, one);
    lemma_div_is_ordered(t * t, (HALF_PI_FIX as int) * (HALF_PI_FIX as int), one);
    assert(((HALF_PI_FIX as int) * (HALF_PI_FIX as int)) / one == 161704);
    assert(0 <= q <= 161704);
    let z = (q * q) / one;
    lemma_mul_nonnegative_simple(q, q);
    lemma_mul_inequality(q, 786432, q);
    lemma_div_is_ordered(0, q * q, one);
    lemma_div_is_ordered(q * q, 786432 * q, one);
    assert((786432 * q) / one == 12 * q) by {
        lemma_div_multiples_vanish(12 * q, one);
        assert(786432 * q == one * (12 * q)) by (nonlinear_arith)
            requires
                one == 65536,
        ;
    }
    assert(0 <= z <= 12 * q);
    lemma_div_is_ordered(0, z, 24);
    lemma_div_is_ordered(z, 12 * q, 24);
    assert((12 * q) / 24 == q / 2) by (nonlinear_arith)
        requires
            q >= 0,
    ;
    lemma_div_is_ordered(0, q, 2);
    lemma_div_is_ordered(q, 161704, 2);
}

/// Products of equal-sign factors are nonnegative.
proof fn lemma_mul_nonnegative_simple(a: int, b: int)
    requires
        (a >= 0 && b >= 0) || (a <= 0 && b <= 0),
    ensures
        a * b >= 0,
{
    assert(a * b >= 0) by (nonlinear_arith)
        requires
            (a >= 0 && b >= 0) || (a <= 0 && b <= 0),
    ;
}

/// The engine's cosine stays within [-FIX_ONE, FIX_ONE].
pub proof fn lemma_cos_fix_range(x: int)
    ensures
        -FIX_ONE <= cos_fix_spec(x) <= FIX_ONE,
{
    let a = iabs(x);
    vstd::arithmetic::div_mod::lemma_mod_bound(a, TWO_PI_FIX as int);
    let r = a % (TWO_PI_FIX as int);
    if r <= PI_FIX {
        if r <= HALF_PI_FIX {
            lemma_cos_quart_range(r);
        } else {
            lemma_cos_quart_range(PI_FIX - r);
        }
    } else {
        let t = TWO_PI_FIX - r;
        if t <= HALF_PI_FIX {
            lemma_cos_quart_range(t);
        } else {
            lemma_cos_quart_range(PI_FIX - t);
        }
    }
}

/// Quarter-wave cosine, exact per `cos_quart`.
fn cos_quart64(t: i64) -> (r: i64)
    requires
        0 <= t <= HALF_PI_FIX,
    ensures
        r as int == cos_quart(t as int),
        -FIX_ONE <= r <= FIX_ONE,
{
    proof {
        lemma_cos_quart_range(t as int);
        lemma_mul_nonnegative_simple(t as int, t as int);
        lemma_mul_inequality(t as int, HALF_PI_FIX as int, t as int);
        assert((t as int) * (HALF_PI_FIX as int) == (HALF_PI_FIX as int) * (t as int))
            by (nonlinear_arith);
        lemma_mul_inequality(t as int, HALF_PI_FIX as int, HALF_PI_FIX as int);
        lemma_div_is_ordered(0, t as int * t as int, FIX_ONE as int);
        lemma_div_is_ordered(
            t as int * t as int,
            (HALF_PI_FIX as int) * (HALF_PI_FIX as int),
            FIX_ONE as int,
        );
    }
    let q: i64 = (((t * t) as u64) / (FIX_ONE as u64)) as i64;
    proof {
        lemma_mul_nonnegative_simple(q as int, q as int);
        lemma_mul_inequality(q as int, 161704, q as int);
        assert((q as int) * 161704 == 161704 * (q as int)) by (nonlinear_arith);
        lemma_mul_inequality(q as int, 161704, 161704);
        lemma_div_is_ordered(0, q as int * q as int, FIX_ONE as int);
        lemma_div_is_ordered(q as int * q as int, 161704int * 161704, FIX_ONE as int);
    }
    let h: i64 = ((q as u64) / 2) as i64;
    let z: i64 = (((q * q) as u64) / (FIX_ONE as u64)) as i64;
    let c: i64 = ((z as u64) / 24) as i64;
    proof {
        lemma_div_is_ordered(0, q as int, 2);
        lemma_div_is_ordered(q as int, 161704, 2);
        lemma_div_is_ordered(0, z as int, 24);
        lemma_div_is_ordered(z as int, 161704int * 161704 / (FIX_ONE as int), 24);
    }
    FIX_ONE - h + c
}

/// The engine's cosine, exact per `cos_fix_spec` and within
/// [-FIX_ONE, FIX_ONE].
pub fn cos_fix(x: i64) -> (r: i64)
    requires
        -0x4000_0000_0000_0000 <= x <= 0x4000_0000_0000_0000,
    ensures
        r as int == cos_fix_spec(x as int),
        -FIX_ONE <= r <= FIX_ONE,
{
    proof {
        lemma_cos_fix_range(x as int);
        vstd::arithmetic::div_mod::lemma_mod_bound(iabs(x as int), TWO_PI_FIX as int);
    }
    let a: i64 = if x >= 0 {
        x
    } else {
        -x
    };
    let r: i64 = ((a as u64) % (TWO_PI_FIX as u64)) as i64;
    let t: i64 = if r <= PI_FIX {
        r
    } else {
        TWO_PI_FIX - r
    };
    if t <= HALF_PI_FIX {
        cos_quart64(t)
    } else {
        let v = cos_quart64(PI_FIX - t);
        -v
    }
}

/// Clamped addition of two in-range samples, exact per `cadd`.
pub fn cadd64(a: i64, b: i64) -> (r: i64)
    requires
        sample_ok(a as int),
        sample_ok(b as int),
    ensures
        r as int == cadd(a as int, b as int),
        sample_ok(r as int),
{
    let s: i64 = a + b;
    if s > SIG_LIMIT {
        SIG_LIMIT
    } else if s < -SIG_LIMIT {
        -SIG_LIMIT
    } else {
        s
    }
}

} // verus!
