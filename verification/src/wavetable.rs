//! Wavetable sample sources: periodic waveforms read out by index
//! over a fixed period of 4096 steps.

use vstd::prelude::*;
use crate::fixed::FIX_ONE;

verus! {

/// Number of steps in one waveform period (one full turn).
pub const PERIOD_SAMPLE_SIZE: usize = 4096;

/// A periodic waveform, sampled by index; one period is
/// `PERIOD_SAMPLE_SIZE` steps and values stay within [-1, 1].
pub trait WavetableSource: Sized {
    /// The waveform as a mathematical function of the index.
    spec fn model(self, index: int) -> i64;

    /// Read the waveform at one index.
    fn sample(&self, index: usize) -> (r: i64)
        ensures
            r == self.model(index as int),
            -FIX_ONE <= r <= FIX_ONE;
}

/// A full-scale square wave: low for the first half of each period,
/// high for the second.
pub struct SquareWave;

impl WavetableSource for SquareWave {
    open spec fn model(self, index: int) -> i64 {
        if index % (PERIOD_SAMPLE_SIZE as int) < PERIOD_SAMPLE_SIZE as int / 2 {
            (-FIX_ONE) as i64
        } else {
            FIX_ONE
        }
    }

    fn sample(&self, index: usize) -> (r: i64) {
        if index % PERIOD_SAMPLE_SIZE < PERIOD_SAMPLE_SIZE / 2 {
            -FIX_ONE
        } else {
            FIX_ONE
        }
    }
}

/// A wavetable over some waveform source.
pub struct WaveTable<Wave: WavetableSource>(pub Wave);

impl<W: WavetableSource> WaveTable<W> {
    /// Wrap a waveform source as a wavetable.
    pub fn new(w: W) -> (r: Self)
        ensures
            r.0 == w,
    {
        WaveTable(w)
    }
}

} // verus!
