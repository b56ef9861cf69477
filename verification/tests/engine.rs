//! Tests for the fixed-point arithmetic and the primitive filters.

use synthtoy::filters::{DelayLine, Filter, LowPass, NoopFilter, Rng, Scale, Snoop, SquareWave};
use synthtoy::fixed::{cadd64, cos_fix, qmul64, tdiv64, FIX_HALF, FIX_ONE, SIG_LIMIT};

#[test]
fn test_tdiv_truncates_toward_zero() {
    assert_eq!(tdiv64(7, 2), 3);
    assert_eq!(tdiv64(-7, 2), -3);
    assert_eq!(tdiv64(65536, 65536), 1);
    assert_eq!(tdiv64(-1, 65536), 0);
}

#[test]
fn test_qmul_exact() {
    assert_eq!(qmul64(FIX_ONE, FIX_ONE), FIX_ONE);
    assert_eq!(qmul64(FIX_ONE, FIX_HALF), FIX_HALF);
    assert_eq!(qmul64(-FIX_ONE, FIX_HALF), -FIX_HALF);
}

#[test]
fn test_cadd_clamps() {
    assert_eq!(cadd64(1, 2), 3);
    assert_eq!(cadd64(SIG_LIMIT, SIG_LIMIT), SIG_LIMIT);
    assert_eq!(cadd64(-SIG_LIMIT, -SIG_LIMIT), -SIG_LIMIT);
}

#[test]
fn test_cos_fix_values() {
    assert_eq!(cos_fix(0), FIX_ONE);
    assert_eq!(cos_fix(205887), -FIX_ONE);
    assert_eq!(cos_fix(102944), 1308);
    assert_eq!(cos_fix(FIX_ONE), 35498);
    // Evenness and periodicity.
    assert_eq!(cos_fix(-FIX_ONE), cos_fix(FIX_ONE));
    assert_eq!(cos_fix(FIX_ONE + 411774), cos_fix(FIX_ONE));
}

#[test]
fn test_delay_line_reproduces_after_len_minus_one() {
    // A delay line of four slots reproduces the input three samples
    // later; the first three outputs are the zeroed buffer contents.
    let mut d = DelayLine::new(1);
    d.set_len(4);
    let input: Vec<i64> = vec![10, 20, 30, 40, 50, 60, 70, 80];
    let mut buf = input.clone();
    d.process(&mut buf);
    assert_eq!(buf, vec![0, 0, 0, 10, 20, 30, 40, 50]);
}

#[test]
fn test_delay_line_single_slot_is_identity() {
    let mut d = DelayLine::new(1);
    let mut buf: Vec<i64> = vec![5, -6, 7];
    d.process(&mut buf);
    assert_eq!(buf, vec![5, -6, 7]);
}

#[test]
fn test_delay_line_set_len_keeps_contents() {
    let mut d = DelayLine::new(3);
    let mut buf: Vec<i64> = vec![1, 2, 3];
    d.process(&mut buf);
    // Buffer now holds the three inputs; shrinking keeps a prefix.
    assert_eq!(d.len(), 3);
    d.set_len(2);
    assert_eq!(d.len(), 2);
    d.set_len(5);
    assert_eq!(d.len(), 5);
}

#[test]
fn test_low_pass_gain_clamped() {
    let lp = LowPass::new(FIX_HALF);
    assert_eq!(lp.gain, 32702);
    let lp2 = LowPass::new(1000);
    assert_eq!(lp2.gain, 1000);
    let lp3 = LowPass::new(-FIX_ONE);
    assert_eq!(lp3.gain, -32702);
}

#[test]
fn test_low_pass_constant_input_settles() {
    // Gain one quarter, constant full-scale input: the output settles
    // at exactly twice the gain (one half) from the second sample on.
    let mut lp = LowPass::new(16384);
    let mut buf: Vec<i64> = vec![FIX_ONE; 6];
    lp.process(&mut buf);
    assert_eq!(buf[0], 16384);
    for i in 1..6 {
        assert_eq!(buf[i], 32768);
    }
}

#[test]
fn test_low_pass_stability_bound() {
    // No output ever exceeds twice the gain times the input bound.
    let mut lp = LowPass::new(FIX_HALF);
    let mut buf: Vec<i64> = vec![FIX_ONE, -FIX_ONE, FIX_ONE, -FIX_ONE, FIX_ONE];
    lp.process(&mut buf);
    for s in &buf {
        assert!(s.abs() <= FIX_ONE);
    }
}

#[test]
fn test_scale_multiplies() {
    let mut sc = Scale(FIX_HALF);
    let mut buf: Vec<i64> = vec![FIX_ONE, -FIX_ONE, 0];
    sc.process(&mut buf);
    assert_eq!(buf, vec![FIX_HALF, -FIX_HALF, 0]);
}

#[test]
fn test_square_wave_overwrites() {
    // Phase starts low, increments a quarter cycle per sample.
    let mut sq = SquareWave { phase_inc: 16384, phase: 0, volume: 1000 };
    let mut buf: Vec<i64> = vec![7; 6];
    sq.process(&mut buf);
    // Phase: 0, 1/4, 1/2, 3/4, 0, 1/4 -> emits -v until phase > 1/2.
    assert_eq!(buf, vec![-1000, -1000, -1000, 1000, -1000, -1000]);
}

#[test]
fn test_square_wave_wraps_large_increments() {
    // An increment above one cycle wraps modulo the cycle: one and a
    // quarter cycles per sample behaves as a quarter cycle.
    let mut sq = SquareWave { phase_inc: FIX_ONE + 16384, phase: 0, volume: 1000 };
    let mut buf: Vec<i64> = vec![0; 6];
    sq.process(&mut buf);
    assert_eq!(buf, vec![-1000, -1000, -1000, 1000, -1000, -1000]);
}

#[test]
fn test_rng_deterministic_from_seed() {
    let mut a = Rng::default();
    let mut b = Rng::default();
    assert_eq!(a.v, 0xdeadbeef);
    let first = a.next();
    assert_eq!(a.v, 0x477d20b7);
    assert_eq!(first, 36602);
    assert_eq!(b.next(), first);
    assert_eq!(a.next(), b.next());
}

#[test]
fn test_noop_filter_is_identity() {
    let mut n = NoopFilter;
    let mut buf: Vec<i64> = vec![1, -2, 3];
    n.process(&mut buf);
    assert_eq!(buf, vec![1, -2, 3]);
}

#[test]
fn test_snoop_logs_and_passes_through() {
    let mut s = Snoop::new("tap.wav".to_string());
    let mut buf: Vec<i64> = vec![1, 2, 3];
    s.process(&mut buf);
    assert_eq!(buf, vec![1, 2, 3]);
    let mut buf2: Vec<i64> = vec![4, 5];
    s.process(&mut buf2);
    assert_eq!(s.samples, vec![1, 2, 3, 4, 5]);
}

#[test]
fn test_snoop_drain_empties_log() {
    // Two drains in a row: the second one hands back nothing.
    let mut s = Snoop::new("tap.wav".to_string());
    let mut buf: Vec<i64> = vec![9, 8, 7];
    s.process(&mut buf);
    let taken = s.drain();
    assert_eq!(taken, vec![9, 8, 7]);
    let taken_again = s.drain();
    assert_eq!(taken_again, Vec::<i64>::new());
}
