//! Tests for the composition filters, the voice builder, and the FIR
//! designer.

use synthtoy::compose::{Pipe, SplitJoin, SynthBuilder};
use synthtoy::filters::{Filter, NoopFilter, Scale, SquareWave};
use synthtoy::fir::{BrickWallCurve, FIR};
use synthtoy::fixed::{FIX_HALF, FIX_ONE};

#[test]
fn test_split_join_of_noops_multiplies() {
    // Three identical pass-through branches: every sample comes out
    // three times as large.
    let mut sj = SplitJoin(vec![NoopFilter, NoopFilter, NoopFilter]);
    let mut buf: Vec<i64> = vec![10, -20, 0, 5];
    sj.process(&mut buf);
    assert_eq!(buf, vec![30, -60, 0, 15]);
}

#[test]
fn test_split_join_empty_is_silence() {
    let mut sj: SplitJoin<NoopFilter> = SplitJoin(vec![]);
    let mut buf: Vec<i64> = vec![1, 2, 3];
    sj.process(&mut buf);
    assert_eq!(buf, vec![0, 0, 0]);
}

#[test]
fn test_pipe_applies_in_order() {
    let mut p = Pipe::new(vec![Scale(FIX_HALF), Scale(FIX_HALF)]);
    let mut buf: Vec<i64> = vec![FIX_ONE, -FIX_ONE];
    p.process(&mut buf);
    assert_eq!(buf, vec![FIX_ONE / 4, -FIX_ONE / 4]);
}

#[test]
fn test_chain_applies_latest_first() {
    // chain(A).chain(B) must run B first, then A. Here B overwrites
    // the buffer with a square wave at -40000 and A halves, giving
    // -20000; the other order would give -40000 untouched by A's
    // halving... which is observably different.
    let a = Scale(FIX_HALF);
    let b = SquareWave { phase_inc: 0, phase: 0, volume: 40000 };
    let mut voice = SynthBuilder::new(NoopFilter).chain(a).chain(b).build();
    let mut buf: Vec<i64> = vec![123, 456];
    voice.process(&mut buf);
    assert_eq!(buf, vec![-20000, -20000]);
}

#[test]
fn test_chain_opposite_order_differs() {
    // Adding the square wave first and the halver afterwards makes
    // the square wave run last, wiping out the halving entirely.
    let a = Scale(FIX_HALF);
    let b = SquareWave { phase_inc: 0, phase: 0, volume: 40000 };
    let mut voice = SynthBuilder::new(NoopFilter).chain(b).chain(a).build();
    let mut buf: Vec<i64> = vec![123, 456];
    voice.process(&mut buf);
    assert_eq!(buf, vec![-40000, -40000]);
}

#[test]
fn test_fir_design_samples_curve() {
    // One tap out of three points: omega_1 = pi/3, response one below
    // the cutoff, coefficient a third.
    let fir = FIR::new(1, &BrickWallCurve { cutoff: FIX_ONE * 1000 });
    assert_eq!(fir.omegas, vec![(FIX_ONE, 68629)]);
    assert_eq!(fir.freq0, FIX_ONE);
    assert_eq!(fir.coeff, 21845);
}

#[test]
fn test_fir_unity_response_at_zero() {
    // With a constant-unity response the formula gives
    // coeff * (1 + 2) at a zero sample: one, up to the coefficient
    // rounding — not the input value, since this designer feeds the
    // sample itself to the cosine.
    let mut fir = FIR::new(1, &BrickWallCurve { cutoff: FIX_ONE * 1000 });
    let mut buf: Vec<i64> = vec![0];
    fir.process(&mut buf);
    assert_eq!(buf, vec![65535]);
}

#[test]
fn test_fir_zero_response_is_silent() {
    let mut fir = FIR::new(4, &BrickWallCurve { cutoff: -1 });
    let mut buf: Vec<i64> = vec![FIX_ONE, -12345, 0, 777];
    fir.process(&mut buf);
    assert_eq!(buf, vec![0, 0, 0, 0]);
}
