//! The plucked-string voice: a Karplus-Strong feedback loop built from
//! a delay line, a low-pass damping filter, a noise source, and a
//! trigger countdown, with a recording tap on its output.
//!
//! While the countdown is positive the loop is fed fresh noise on top
//! of its own output (the pluck); at zero it is fed its own output
//! alone and the tone decays through the damped loop.

use vstd::prelude::*;
use crate::fixed::{
    FIX_ONE, SIG_LIMIT, sample_ok, samples_ok, lemma_tdiv_bound, lemma_iabs_mul_le,
};
use crate::filters::{
    Filter, DelayLine, DelayModel, delay_wf, delay_step, lemma_delay_step_ok, LowPass, lp_wf,
    lp_step, LP_GAIN_LIMIT, Snoop, SnoopModel, Rng, xorshift, noise_of, run_mealy,
    lemma_mealy_snoc, lemma_mealy_props,
};

verus! {

/// Number of noise samples injected by one trigger.
pub const TRIGGER_SAMPLES: u32 = 50;

/// Bound kept on the voice's feedback sample, one full-scale unit
/// below the engine limit so that adding a noise sample stays in
/// range.
pub const STRING_LAST_LIMIT: i64 = SIG_LIMIT - FIX_ONE;

/// Twice the sampling rate in centihertz-per-sample units; the
/// rounding constant for converting a centihertz frequency into a
/// whole-sample delay length.
pub const DOUBLE_RATE_CENTIHZ: u64 = 8820000;

/// The plucked-string voice.
pub struct StringSynth {
    pub delay: DelayLine,
    pub lpf: LowPass,
    pub snoop: Snoop,
    pub last: i64,
    /// Number of samples of noise burst remaining.
    pub trigger_count: u32,
    pub rng: Rng,
}

/// Mathematical state of the voice.
pub struct StringModel {
    pub delay: DelayModel,
    pub lpf: LowPass,
    pub snoop: SnoopModel,
    pub last: i64,
    pub trigger_count: u32,
    pub rng: u32,
}

impl View for StringSynth {
    type V = StringModel;

    open spec fn view(&self) -> StringModel {
        StringModel {
            delay: self.delay@,
            lpf: self.lpf,
            snoop: self.snoop@,
            last: self.last,
            trigger_count: self.trigger_count,
            rng: self.rng.v,
        }
    }
}

/// Voice invariant: every part well formed and the feedback sample a
/// full-scale unit below the engine limit.
pub open spec fn ss_wf(m: StringModel) -> bool {
    &&& delay_wf(m.delay)
    &&& lp_wf(m.lpf)
    &&& samples_ok(m.snoop.log)
    &&& -STRING_LAST_LIMIT <= m.last <= STRING_LAST_LIMIT
}

/// One voice step: form the loop input (noise plus feedback while
/// excited, feedback alone while resonating), push it through the
/// delay line and the low-pass, log and emit the result, and remember
/// it as the new feedback sample.
pub open spec fn ss_step(m: StringModel) -> (StringModel, i64) {
    let excited = m.trigger_count > 0;
    let rng1 = if excited {
        xorshift(m.rng)
    } else {
        m.rng
    };
    let noise: int = if excited {
        noise_of(rng1)
    } else {
        0
    };
    let tc1: u32 = if excited {
        (m.trigger_count - 1) as u32
    } else {
        m.trigger_count
    };
    let loop_in = (m.last + noise) as i64;
    let d = delay_step(m.delay, loop_in);
    let l = lp_step(m.lpf, d.1);
    let out = l.1;
    (
        StringModel {
            delay: d.0,
            lpf: l.0,
            snoop: SnoopModel { name: m.snoop.name, log: m.snoop.log.push(out) },
            last: out,
            trigger_count: tc1,
            rng: rng1,
        },
        out,
    )
}

/// The voice step as a reusable function value; the input sample is
/// ignored, the voice overwrites the buffer.
pub open spec fn ss_step_fn() -> spec_fn(StringModel, i64) -> (StringModel, i64) {
    |m: StringModel, x: i64| ss_step(m)
}

/// A noise sample is within [-FIX_ONE, FIX_ONE].
pub proof fn lemma_noise_unit(v: u32)
    ensures
        -FIX_ONE <= noise_of(v) <= FIX_ONE,
{
    lemma_tdiv_bound(v as i32 as int, 32768, 0x8000_0000);
    assert(0x8000_0000int / 32768 == FIX_ONE as int) by {
        vstd::arithmetic::div_mod::lemma_div_multiples_vanish(FIX_ONE as int, 32768);
    }
}

/// The voice step preserves the invariant and emits a sample that
/// still leaves one unit of headroom: the feedback loop cannot
/// diverge.
pub proof fn lemma_ss_step_ok(m: StringModel)
    requires
        ss_wf(m),
    ensures
        ss_wf(ss_step(m).0),
        -STRING_LAST_LIMIT <= ss_step(m).1 <= STRING_LAST_LIMIT,
        sample_ok(ss_step(m).1 as int),
{
    let excited = m.trigger_count > 0;
    let rng1 = if excited {
        xorshift(m.rng)
    } else {
        m.rng
    };
    lemma_noise_unit(rng1);
    let noise: int = if excited {
        noise_of(rng1)
    } else {
        0
    };
    let loop_in = (m.last + noise) as i64;
    assert(sample_ok(loop_in as int));
    lemma_delay_step_ok(m.delay, loop_in);
    let d = delay_step(m.delay, loop_in);
    let p = (m.lpf.last + d.1) * m.lpf.gain;
    lemma_iabs_mul_le(m.lpf.last + d.1, m.lpf.gain as int, 2 * SIG_LIMIT as int, LP_GAIN_LIMIT as int);
    lemma_tdiv_bound(p, FIX_ONE as int, 2 * SIG_LIMIT as int * LP_GAIN_LIMIT as int);
    assert((2 * SIG_LIMIT as int * LP_GAIN_LIMIT as int) / (FIX_ONE as int) <= STRING_LAST_LIMIT as int)
        by {
        vstd::arithmetic::div_mod::lemma_div_multiples_vanish(32702int * 32768, FIX_ONE as int);
        assert(2 * SIG_LIMIT as int * LP_GAIN_LIMIT as int == FIX_ONE as int * (32702int * 32768));
    }
    let l = lp_step(m.lpf, d.1);
    assert forall|i: int| 0 <= i < ss_step(m).0.snoop.log.len() implies sample_ok(
        #[trigger] ss_step(m).0.snoop.log[i] as int,
    ) by {
        if i < m.snoop.log.len() {
            assert(ss_step(m).0.snoop.log[i] == m.snoop.log[i]);
        }
    }
}

/// The length the delay line takes for a target frequency given in
/// centihertz: the sampling rate divided by the frequency, rounded
/// half up, clamped to at least one slot; a zero frequency is clamped
/// defensively to the lowest representable one.
pub open spec fn tune_len(c: int) -> int {
    let f: int = if c <= 0 {
        1
    } else {
        c
    };
    if f > DOUBLE_RATE_CENTIHZ as int {
        1
    } else {
        (DOUBLE_RATE_CENTIHZ as int + f) / (2 * f)
    }
}

impl StringSynth {
    /// A quiet voice whose delay line starts at `depth` slots.
    pub fn new(depth: usize) -> (r: StringSynth)
        requires
            depth >= 1,
        ensures
            r@.delay.buf.len() == depth,
            forall|i: int| 0 <= i < depth ==> r@.delay.buf[i] == 0i64,
            r@.delay.pos == 0,
            r@.lpf.last == 0i64,
            r@.lpf.gain == LP_GAIN_LIMIT,
            r@.last == 0i64,
            r@.trigger_count == 0u32,
            r@.rng == 0xdeadbeefu32,
            r@.snoop.name == "string.wav"@,
            r@.snoop.log == Seq::<i64>::empty(),
            ss_wf(r@),
    {
        let name = "string.wav".to_string();
        proof {
            vstd::string::to_string_from_display_ensures_for_str("string.wav", name);
        }
        StringSynth {
            delay: DelayLine::new(depth),
            lpf: LowPass::default(),
            rng: Rng::default(),
            snoop: Snoop::new(name),
            last: 0,
            trigger_count: 0,
        }
    }

    /// Retune the string: resize the delay line to one period of the
    /// target frequency (in centihertz), keeping its contents up to
    /// the new length.
    pub fn tune(&mut self, freq_centihz: u64)
        requires
            ss_wf(old(self)@),
        ensures
            ss_wf(final(self)@),
            final(self)@.delay.buf.len() == tune_len(freq_centihz as int),
            forall|i: int|
                0 <= i < final(self)@.delay.buf.len() && i < old(self)@.delay.buf.len()
                    ==> final(self)@.delay.buf[i] == old(self)@.delay.buf[i],
            final(self)@.delay.pos == old(self)@.delay.pos % tune_len(freq_centihz as int),
            final(self)@.lpf == old(self)@.lpf,
            final(self)@.snoop == old(self)@.snoop,
            final(self)@.last == old(self)@.last,
            final(self)@.trigger_count == old(self)@.trigger_count,
            final(self)@.rng == old(self)@.rng,
    {
        let f: u64 = if freq_centihz == 0 {
            1
        } else {
            freq_centihz
        };
        let new_len: usize = if f > DOUBLE_RATE_CENTIHZ {
            1
        } else {
            let l: u64 = (DOUBLE_RATE_CENTIHZ + f) / (2 * f);
            proof {
                vstd::arithmetic::div_mod::lemma_div_is_ordered(
                    2 * f as int,
                    DOUBLE_RATE_CENTIHZ as int + f as int,
                    2 * f as int,
                );
                vstd::arithmetic::div_mod::lemma_div_multiples_vanish(1, 2 * f as int);
                vstd::arithmetic::div_mod::lemma_div_is_ordered(
                    DOUBLE_RATE_CENTIHZ as int + f as int,
                    2 * DOUBLE_RATE_CENTIHZ as int,
                    2 * f as int,
                );
            }
            l as usize
        };
        self.delay.set_len(new_len);
    }

    /// Re-excite the string: reset the noise-burst countdown without
    /// clearing the energy already in the loop (an additive restrike).
    pub fn trigger(&mut self)
        ensures
            final(self)@.trigger_count == TRIGGER_SAMPLES,
            final(self)@.delay == old(self)@.delay,
            final(self)@.lpf == old(self)@.lpf,
            final(self)@.snoop == old(self)@.snoop,
            final(self)@.last == old(self)@.last,
            final(self)@.rng == old(self)@.rng,
    {
        self.trigger_count = TRIGGER_SAMPLES;
    }

    /// Produce one sample of the voice.
    pub fn step_one(&mut self) -> (y: i64)
        requires
            ss_wf(old(self)@),
        ensures
            ss_wf(final(self)@),
            final(self)@ == ss_step(old(self)@).0,
            y == ss_step(old(self)@).1,
            sample_ok(y as int),
    {
        proof {
            lemma_ss_step_ok(old(self)@);
            lemma_noise_unit(xorshift(self.rng.v));
        }
        let loop_in: i64 = if self.trigger_count > 0 {
            self.trigger_count = self.trigger_count - 1;
            let noise = self.rng.next();
            self.last + noise
        } else {
            self.last
        };
        let d = self.delay.step_one(loop_in);
        let l = self.lpf.step_one(d);
        self.snoop.samples.push(l);
        self.last = l;
        l
    }
}

impl Filter for StringSynth {
    open spec fn wf(self) -> bool {
        ss_wf(self@)
    }

    open spec fn out(self, input: Seq<i64>) -> Seq<i64> {
        run_mealy(ss_step_fn(), self@, input).1
    }

    open spec fn steps_to(self, input: Seq<i64>, next: Self) -> bool {
        next@ == run_mealy(ss_step_fn(), self@, input).0
    }

    proof fn out_ok(self, input: Seq<i64>) {
        assert forall|m: StringModel, x: i64| ss_wf(m) && sample_ok(x as int) implies ss_wf(
            #[trigger] ss_step_fn()(m, x).0,
        ) && sample_ok(ss_step_fn()(m, x).1 as int) by {
            lemma_ss_step_ok(m);
        }
        lemma_mealy_props(ss_step_fn(), |m: StringModel| ss_wf(m), self@, input);
    }

    proof fn steps_wf(self, input: Seq<i64>, next: Self) {
        assert forall|m: StringModel, x: i64| ss_wf(m) && sample_ok(x as int) implies ss_wf(
            #[trigger] ss_step_fn()(m, x).0,
        ) && sample_ok(ss_step_fn()(m, x).1 as int) by {
            lemma_ss_step_ok(m);
        }
        lemma_mealy_props(ss_step_fn(), |m: StringModel| ss_wf(m), self@, input);
    }

    fn process(&mut self, samples: &mut Vec<i64>) {
        let ghost m0 = self@;
        let ghost input = samples@;
        let len = samples.len();
        let mut i: usize = 0;
        while i < len
            invariant
                i <= len,
                len == samples@.len(),
                input.len() == len,
                samples_ok(input),
                ss_wf(self@),
                self@ == run_mealy(ss_step_fn(), m0, input.take(i as int)).0,
                samples@ =~= run_mealy(ss_step_fn(), m0, input.take(i as int)).1 + input.skip(
                    i as int,
                ),
            decreases len - i,
        {
            proof {
                let x = input[i as int];
                lemma_mealy_snoc(ss_step_fn(), m0, input.take(i as int), x);
                assert(input.take(i + 1 as int) =~= input.take(i as int).push(x));
            }
            let y = self.step_one();
            samples.set(i, y);
            proof {
                assert(samples@ =~= run_mealy(ss_step_fn(), m0, input.take(i + 1 as int)).1
                    + input.skip(i + 1 as int));
            }
            i += 1;
        }
        proof {
            assert(input.take(len as int) =~= input);
            assert(samples@ =~= run_mealy(ss_step_fn(), m0, input).1);
        }
    }
}

/// Once the noise burst is exhausted the string only resonates: over
/// any stretch of samples the noise generator is never consulted and
/// the countdown stays at zero — the tail is pure feedback decay.
pub proof fn string_synth_silent_after_decay(m: StringModel, input: Seq<i64>)
    requires
        m.trigger_count == 0,
    ensures
        run_mealy(ss_step_fn(), m, input).0.rng == m.rng,
        run_mealy(ss_step_fn(), m, input).0.trigger_count == 0u32,
    decreases input.len(),
{
    if input.len() > 0 {
        string_synth_silent_after_decay(ss_step_fn()(m, input[0]).0, input.drop_first());
    }
}

/// While the noise burst lasts, the countdown decreases by exactly one
/// per produced sample.
pub proof fn string_synth_counts_down(m: StringModel, input: Seq<i64>)
    requires
        input.len() <= m.trigger_count,
    ensures
        run_mealy(ss_step_fn(), m, input).0.trigger_count == m.trigger_count - input.len(),
    decreases input.len(),
{
    if input.len() > 0 {
        string_synth_counts_down(ss_step_fn()(m, input[0]).0, input.drop_first());
    }
}

} // verus!
