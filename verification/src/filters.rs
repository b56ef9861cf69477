//! The filter abstraction and the primitive filters.
//!
//! A filter transforms a buffer of samples in place and carries its own
//! state across buffers. Its behaviour is specified against a
//! mathematical model: `out` gives the exact output sequence for an
//! input sequence, and `steps_to` relates the state before a call to
//! the state after it. Per-sample filters share one model, the Mealy
//! machine runner `run_mealy`, each supplying its own step function.

use vstd::prelude::*;
use crate::fixed::{
    FIX_ONE, FIX_HALF, SIG_LIMIT, iabs, sample_ok, samples_ok, tdiv, qmul, tdiv64,
    lemma_tdiv_bound, lemma_iabs_mul_le,
};

verus! {

/// The engine's fixed sampling rate in samples per second.
pub const SAMPLING_FREQ: usize = 44100;

/// A signal-processing stage: consumes and rewrites a buffer of
/// samples in place, updating its own state.
pub trait Filter: Sized {
    /// The state is well formed: invariants hold and every stored
    /// sample is in range.
    spec fn wf(self) -> bool;

    /// The exact output sequence this filter writes for `input`.
    spec fn out(self, input: Seq<i64>) -> Seq<i64>;

    /// The state after consuming `input` is `next`.
    spec fn steps_to(self, input: Seq<i64>, next: Self) -> bool;

    /// Output length equals input length, and outputs stay in range.
    proof fn out_ok(self, input: Seq<i64>)
        requires
            self.wf(),
            samples_ok(input),
        ensures
            self.out(input).len() == input.len(),
            samples_ok(self.out(input));

    /// Consuming in-range input preserves well-formedness.
    proof fn steps_wf(self, input: Seq<i64>, next: Self)
        requires
            self.wf(),
            samples_ok(input),
            self.steps_to(input, next),
        ensures
            next.wf();

    /// Rewrite `samples` in place with this filter's output and step
    /// the state, exactly as the model says.
    fn process(&mut self, samples: &mut Vec<i64>)
        requires
            old(self).wf(),
            samples_ok(old(samples)@),
        ensures
            final(samples)@ == old(self).out(old(samples)@),
            old(self).steps_to(old(samples)@, *final(self));
}

/// Run a per-sample (Mealy) step function over a whole input sequence,
/// yielding the final state and the output sequence.
pub open spec fn run_mealy<M>(step: spec_fn(M, i64) -> (M, i64), m: M, input: Seq<i64>) -> (M, Seq<
    i64,
>)
    decreases input.len(),
{
    if input.len() == 0 {
        (m, Seq::empty())
    } else {
        let first = step(m, input[0]);
        let rest = run_mealy(step, first.0, input.drop_first());
        (rest.0, seq![first.1] + rest.1)
    }
}

/// Appending one input to a run appends one step to its result.
pub proof fn lemma_mealy_snoc<M>(step: spec_fn(M, i64) -> (M, i64), m: M, input: Seq<i64>, x: i64)
    ensures
        run_mealy(step, m, input.push(x)).0 == step(run_mealy(step, m, input).0, x).0,
        run_mealy(step, m, input.push(x)).1 == run_mealy(step, m, input).1.push(
            step(run_mealy(step, m, input).0, x).1,
        ),
    decreases input.len(),
{
    reveal_with_fuel(run_mealy, 3);
    let whole = input.push(x);
    assert(whole[input.len() as int] == x);
    if input.len() == 0 {
        assert(whole[0] == x);
        assert(whole.drop_first() =~= Seq::<i64>::empty());
        assert(run_mealy(step, m, whole).1 =~= run_mealy(step, m, input).1.push(
            step(run_mealy(step, m, input).0, x).1,
        ));
    } else {
        let first = step(m, input[0]);
        lemma_mealy_snoc(step, first.0, input.drop_first(), x);
        assert(whole.drop_first() =~= input.drop_first().push(x));
        assert(whole[0] == input[0]);
        assert(run_mealy(step, m, whole).1 =~= run_mealy(step, m, input).1.push(
            step(run_mealy(step, m, input).0, x).1,
        ));
    }
}

/// If a step function preserves an invariant and keeps outputs in
/// range, a whole run does too, and yields one output per input.
pub proof fn lemma_mealy_props<M>(
    step: spec_fn(M, i64) -> (M, i64),
    inv: spec_fn(M) -> bool,
    m: M,
    input: Seq<i64>,
)
    requires
        inv(m),
        samples_ok(input),
        forall|s: M, x: i64|
            inv(s) && sample_ok(x as int) ==> inv(#[trigger] step(s, x).0) && sample_ok(
                step(s, x).1 as int,
            ),
    ensures
        inv(run_mealy(step, m, input).0),
        run_mealy(step, m, input).1.len() == input.len(),
        samples_ok(run_mealy(step, m, input).1),
    decreases input.len(),
{
    if input.len() > 0 {
        let first = step(m, input[0]);
        assert(sample_ok(input[0] as int));
        assert(samples_ok(input.drop_first())) by {
            assert forall|i: int| 0 <= i < input.drop_first().len() implies sample_ok(
                input.drop_first()[i] as int,
            ) by {
                assert(input.drop_first()[i] == input[i + 1]);
            }
        }
        lemma_mealy_props(step, inv, first.0, input.drop_first());
        let rest = run_mealy(step, first.0, input.drop_first());
        assert forall|i: int| 0 <= i < (seq![first.1] + rest.1).len() implies sample_ok(
            (seq![first.1] + rest.1)[i] as int,
        ) by {
            if i > 0 {
                assert((seq![first.1] + rest.1)[i] == rest.1[i - 1]);
            }
        }
    }
}

// ---------------------------------------------------------------------
// Delay line
// ---------------------------------------------------------------------

/// A circular buffer of samples with a write cursor; delays the signal
/// by one less than its length.
pub struct DelayLine {
    pub samples: Vec<i64>,
    pub pos: usize,
}

/// Mathematical state of a delay line.
pub struct DelayModel {
    pub buf: Seq<i64>,
    pub pos: int,
}

impl View for DelayLine {
    type V = DelayModel;

    open spec fn view(&self) -> DelayModel {
        DelayModel { buf: self.samples@, pos: self.pos as int }
    }
}

/// Delay-line invariant: at least one slot, cursor in range, contents
/// in range.
pub open spec fn delay_wf(m: DelayModel) -> bool {
    &&& m.buf.len() >= 1
    &&& 0 <= m.pos < m.buf.len()
    &&& samples_ok(m.buf)
}

/// One delay-line step: write the input at the cursor, read the next
/// slot, advance the cursor.
pub open spec fn delay_step(m: DelayModel, x: i64) -> (DelayModel, i64) {
    let n = m.buf.len() as int;
    let written = m.buf.update(m.pos, x);
    let rp = (m.pos + 1) % n;
    (DelayModel { buf: written, pos: rp }, written[rp])
}

/// The delay-line step as a reusable function value.
pub open spec fn delay_step_fn() -> spec_fn(DelayModel, i64) -> (DelayModel, i64) {
    |m: DelayModel, x: i64| delay_step(m, x)
}

/// The delay-line step preserves the invariant and emits in-range
/// samples.
pub proof fn lemma_delay_step_ok(m: DelayModel, x: i64)
    requires
        delay_wf(m),
        sample_ok(x as int),
    ensures
        delay_wf(delay_step(m, x).0),
        sample_ok(delay_step(m, x).1 as int),
{
    let n = m.buf.len() as int;
    let written = m.buf.update(m.pos, x);
    assert(0 <= (m.pos + 1) % n < n);
    assert forall|i: int| 0 <= i < written.len() implies sample_ok(written[i] as int) by {
        if i != m.pos {
            assert(written[i] == m.buf[i]);
        }
    }
}

impl DelayLine {
    /// A zero-filled delay line of `len` slots.
    pub fn new(len: usize) -> (r: DelayLine)
        requires
            len >= 1,
        ensures
            r.wf(),
            r@.buf.len() == len,
            forall|i: int| 0 <= i < len ==> r@.buf[i] == 0i64,
            r@.pos == 0,
    {
        let mut samples: Vec<i64> = Vec::new();
        let mut i: usize = 0;
        while i < len
            invariant
                i <= len,
                samples@.len() == i,
                forall|j: int| 0 <= j < i ==> samples@[j] == 0i64,
            decreases len - i,
        {
            samples.push(0);
            i += 1;
        }
        DelayLine { samples, pos: 0 }
    }

    /// Number of slots, i.e. one more than the delay in samples.
    pub fn len(&self) -> (r: usize)
        ensures
            r == self@.buf.len(),
    {
        self.samples.len()
    }

    /// Resize to `new_len` slots, keeping existing contents up to the
    /// new length, zero-filling any growth, and re-wrapping the cursor.
    pub fn set_len(&mut self, new_len: usize)
        requires
            old(self).wf(),
            new_len >= 1,
        ensures
            final(self).wf(),
            final(self)@.buf.len() == new_len,
            forall|i: int|
                0 <= i < new_len && i < old(self)@.buf.len() ==> final(self)@.buf[i] == old(
                    self,
                )@.buf[i],
            forall|i: int| old(self)@.buf.len() <= i < new_len ==> final(self)@.buf[i] == 0i64,
            final(self)@.pos == old(self)@.pos % (new_len as int),
    {
        self.samples.truncate(new_len);
        while self.samples.len() < new_len
            invariant
                self.samples@.len() <= new_len,
                self.samples@.len() >= old(self)@.buf.len() || self.samples@.len() >= new_len,
                self.pos == old(self).pos,
                forall|i: int|
                    0 <= i < self.samples@.len() && i < old(self)@.buf.len() ==> self.samples@[i]
                        == old(self)@.buf[i],
                forall|i: int| old(self)@.buf.len() <= i < self.samples@.len() ==> self.samples@[i]
                    == 0i64,
            decreases new_len - self.samples@.len(),
        {
            let ghost prev = self.samples@;
            self.samples.push(0);
            proof {
                assert forall|i: int| 0 <= i < prev.len() implies self.samples@[i] == prev[i] by {
                    assert(self.samples@[i] == prev.push(0i64)[i]);
                }
            }
        }
        self.pos = self.pos % new_len;
        proof {
            assert forall|i: int| 0 <= i < new_len implies sample_ok(self.samples@[i] as int) by {
                if i < old(self)@.buf.len() {
                    assert(self.samples@[i] == old(self)@.buf[i]);
                }
            }
        }
    }

    /// One sample through the delay line.
    pub fn step_one(&mut self, x: i64) -> (y: i64)
        requires
            old(self).wf(),
            sample_ok(x as int),
        ensures
            final(self).wf(),
            final(self)@ == delay_step(old(self)@, x).0,
            y == delay_step(old(self)@, x).1,
            sample_ok(y as int),
    {
        proof {
            lemma_delay_step_ok(old(self)@, x);
        }
        let n = self.samples.len();
        self.samples.set(self.pos, x);
        let rp = (self.pos + 1) % n;
        let y = self.samples[rp];
        self.pos = rp;
        y
    }
}

impl Filter for DelayLine {
    open spec fn wf(self) -> bool {
        delay_wf(self@)
    }

    open spec fn out(self, input: Seq<i64>) -> Seq<i64> {
        run_mealy(delay_step_fn(), self@, input).1
    }

    open spec fn steps_to(self, input: Seq<i64>, next: Self) -> bool {
        next@ == run_mealy(delay_step_fn(), self@, input).0
    }

    proof fn out_ok(self, input: Seq<i64>) {
        assert forall|m: DelayModel, x: i64|
            delay_wf(m) && sample_ok(x as int) implies delay_wf(
            #[trigger] delay_step_fn()(m, x).0,
        ) && sample_ok(delay_step_fn()(m, x).1 as int) by {
            lemma_delay_step_ok(m, x);
        }
        lemma_mealy_props(delay_step_fn(), |m: DelayModel| delay_wf(m), self@, input);
    }

    proof fn steps_wf(self, input: Seq<i64>, next: Self) {
        assert forall|m: DelayModel, x: i64|
            delay_wf(m) && sample_ok(x as int) implies delay_wf(
            #[trigger] delay_step_fn()(m, x).0,
        ) && sample_ok(delay_step_fn()(m, x).1 as int) by {
            lemma_delay_step_ok(m, x);
        }
        lemma_mealy_props(delay_step_fn(), |m: DelayModel| delay_wf(m), self@, input);
    }

    fn process(&mut self, samples: &mut Vec<i64>) {
        let ghost m0 = self@;
        let ghost input = samples@;
        let len = samples.len();
        let mut i: usize = 0;
        while i < len
            invariant
                i <= len,
                len == samples@.len(),
                input.len() == len,
                samples_ok(input),
                self.wf(),
                self@ == run_mealy(delay_step_fn(), m0, input.take(i as int)).0,
                samples@ =~= run_mealy(delay_step_fn(), m0, input.take(i as int)).1 + input.skip(
                    i as int,
                ),
            decreases len - i,
        {
            let x = samples[i];
            proof {
                assert(samples@[i as int] == input[i as int]);
                assert(sample_ok(x as int));
                lemma_mealy_snoc(delay_step_fn(), m0, input.take(i as int), x);
                assert(input.take(i + 1 as int) =~= input.take(i as int).push(x));
            }
            let y = self.step_one(x);
            samples.set(i, y);
            proof {
                assert(samples@ =~= run_mealy(delay_step_fn(), m0, input.take(i + 1 as int)).1
                    + input.skip(i + 1 as int));
            }
            i += 1;
        }
        proof {
            assert(input.take(len as int) =~= input);
            assert(samples@ =~= run_mealy(delay_step_fn(), m0, input).1);
        }
    }
}

/// What a delay line of `n` slots does to a stream: each output
/// reproduces the input from `n - 1` samples earlier, and before
/// enough input has arrived it plays out the buffer's prior contents
/// in cursor order.
pub proof fn delay_line_reproduces(m: DelayModel, input: Seq<i64>)
    requires
        delay_wf(m),
        samples_ok(input),
    ensures
        run_mealy(delay_step_fn(), m, input).1.len() == input.len(),
        forall|i: int|
            0 <= i < input.len() && i >= m.buf.len() - 1 ==> run_mealy(delay_step_fn(), m, input).1[i]
                == input[i - (m.buf.len() - 1)],
        forall|i: int|
            0 <= i < input.len() && i < m.buf.len() - 1 ==> run_mealy(delay_step_fn(), m, input).1[i]
                == m.buf[(m.pos + i + 1) % (m.buf.len() as int)],
    decreases input.len(),
{
    reveal_with_fuel(run_mealy, 2);
    let n = m.buf.len() as int;
    if input.len() > 0 {
        let x0 = input[0];
        assert(sample_ok(x0 as int));
        lemma_delay_step_ok(m, x0);
        let first = delay_step_fn()(m, x0);
        let m1 = first.0;
        let rest = input.drop_first();
        assert(samples_ok(rest)) by {
            assert forall|i: int| 0 <= i < rest.len() implies sample_ok(#[trigger] rest[i] as int) by {
                assert(rest[i] == input[i + 1]);
            }
        }
        delay_line_reproduces(m1, rest);
        let r = run_mealy(delay_step_fn(), m, input);
        let rr = run_mealy(delay_step_fn(), m1, rest);
        assert(r.1 == seq![first.1] + rr.1);
        assert(r.1.len() == input.len());
        assert(m1.buf == m.buf.update(m.pos, x0));
        assert(m1.pos == (m.pos + 1) % n);
        vstd::arithmetic::div_mod::lemma_mod_bound(m.pos + 1, n);

        // The first output: the slot just past the cursor, after the
        // write.
        assert(r.1[0] == first.1);
        if n == 1 {
            assert((m.pos + 1) % n == 0) by {
                vstd::arithmetic::div_mod::lemma_mod_bound(m.pos + 1, n);
            }
            assert(first.1 == x0);
        } else {
            assert((m.pos + 1) % n != m.pos) by {
                if m.pos + 1 < n {
                    lemma_small_mod_int(m.pos + 1, n);
                } else {
                    assert(m.pos + 1 == n);
                    vstd::arithmetic::div_mod::lemma_mod_self_0(n);
                }
            }
        }

        // Later outputs come from the recursive run; rewrite their
        // cursor positions back in terms of the original state.
        assert forall|i: int| 1 <= i < input.len() implies r.1[i] == (if i >= n - 1 {
            input[i - (n - 1)]
        } else {
            m.buf[(m.pos + i + 1) % n]
        }) by {
            assert(r.1[i] == rr.1[i - 1]);
            assert(rest.len() == input.len() - 1);
            if i - 1 >= n - 1 {
                assert(rr.1[i - 1] == rest[i - 1 - (n - 1)]);
                assert(rest[i - 1 - (n - 1)] == input[i - (n - 1)]);
            } else {
                assert(rr.1[i - 1] == m1.buf[(m1.pos + (i - 1) + 1) % n]);
                assert((m1.pos + i) % n == (m.pos + i + 1) % n) by {
                    vstd::arithmetic::div_mod::lemma_add_mod_noop(m.pos + 1, i, n);
                    lemma_small_mod_int(i, n);
                }
                let s = (m.pos + i + 1) % n;
                vstd::arithmetic::div_mod::lemma_mod_bound(m.pos + i + 1, n);
                if i == n - 1 {
                    assert((m.pos + i + 1) % n == m.pos % n) by {
                        vstd::arithmetic::div_mod::lemma_add_mod_noop(m.pos, n, n);
                        vstd::arithmetic::div_mod::lemma_mod_self_0(n);
                        lemma_small_mod_int(m.pos, n);
                    }
                    assert(s == m.pos) by {
                        lemma_small_mod_int(m.pos, n);
                    }
                    assert(m1.buf[s] == x0);
                    assert(input[i - (n - 1)] == x0);
                } else {
                    assert(s != m.pos) by {
                        if (m.pos + i + 1) < n {
                            lemma_small_mod_int(m.pos + i + 1, n);
                        } else {
                            assert(m.pos + i + 1 - n < m.pos);
                            vstd::arithmetic::div_mod::lemma_mod_sub_multiples_vanish(
                                m.pos + i + 1,
                                n,
                            );
                            lemma_small_mod_int(m.pos + i + 1 - n, n);
                        }
                    }
                    assert(m1.buf[s] == m.buf[s]);
                }
            }
        }
    }
}

/// A value already below the modulus is its own remainder.
proof fn lemma_small_mod_int(x: int, m: int)
    requires
        0 <= x < m,
    ensures
        x % m == x,
{
    vstd::arithmetic::div_mod::lemma_small_mod(x as nat, m as nat);
}

// ---------------------------------------------------------------------
// One-pole low-pass
// ---------------------------------------------------------------------

/// Largest low-pass gain, just under one half, so that a low-pass
/// embedded in a unity-gain feedback loop cannot make the loop
/// diverge.
pub const LP_GAIN_LIMIT: i64 = 32702;

/// One-pole averaging low-pass: scales the sum of the previous and the
/// current input by a fixed gain.
pub struct LowPass {
    pub last: i64,
    pub gain: i64,
}

/// Low-pass invariant: gain within the stable range, remembered input
/// in range.
pub open spec fn lp_wf(m: LowPass) -> bool {
    &&& -LP_GAIN_LIMIT <= m.gain <= LP_GAIN_LIMIT
    &&& sample_ok(m.last as int)
}

/// One low-pass step: emit `gain * (last + x)` scaled back, remember
/// `x`.
pub open spec fn lp_step(m: LowPass, x: i64) -> (LowPass, i64) {
    (LowPass { last: x, gain: m.gain }, tdiv((m.last + x) * m.gain, FIX_ONE as int) as i64)
}

/// The low-pass step as a reusable function value.
pub open spec fn lp_step_fn() -> spec_fn(LowPass, i64) -> (LowPass, i64) {
    |m: LowPass, x: i64| lp_step(m, x)
}

/// The low-pass step preserves the invariant and emits in-range
/// samples: its output magnitude never exceeds its input bound.
pub proof fn lemma_lp_step_ok(m: LowPass, x: i64)
    requires
        lp_wf(m),
        sample_ok(x as int),
    ensures
        lp_wf(lp_step(m, x).0),
        sample_ok(lp_step(m, x).1 as int),
        -(SIG_LIMIT as int) <= tdiv((m.last + x) * m.gain, FIX_ONE as int) <= SIG_LIMIT as int,
{
    let p = (m.last + x) * m.gain;
    lemma_iabs_mul_le(m.last + x, m.gain as int, 2 * SIG_LIMIT as int, LP_GAIN_LIMIT as int);
    lemma_tdiv_bound(p, FIX_ONE as int, 2 * SIG_LIMIT as int * LP_GAIN_LIMIT as int);
    assert((2 * SIG_LIMIT as int * LP_GAIN_LIMIT as int) / (FIX_ONE as int) <= SIG_LIMIT as int)
        by {
        vstd::arithmetic::div_mod::lemma_div_multiples_vanish(
            32702int * 32768,
            FIX_ONE as int,
        );
        assert(2 * SIG_LIMIT as int * LP_GAIN_LIMIT as int == FIX_ONE as int * (32702int * 32768));
    }
}

impl LowPass {
    /// A quiet low-pass with the given gain, clamped at construction
    /// into the stable range so the filter cannot make a feedback
    /// loop diverge.
    pub fn new(gain: i64) -> (r: LowPass)
        ensures
            r.last == 0i64,
            r.gain == if gain > LP_GAIN_LIMIT {
                LP_GAIN_LIMIT
            } else if gain < -LP_GAIN_LIMIT {
                (-LP_GAIN_LIMIT) as i64
            } else {
                gain
            },
            r.wf(),
    {
        let g = if gain > LP_GAIN_LIMIT {
            LP_GAIN_LIMIT
        } else if gain < -LP_GAIN_LIMIT {
            -LP_GAIN_LIMIT
        } else {
            gain
        };
        LowPass { last: 0, gain: g }
    }

    /// One sample through the low-pass.
    pub fn step_one(&mut self, x: i64) -> (y: i64)
        requires
            lp_wf(*old(self)),
            sample_ok(x as int),
        ensures
            lp_wf(*final(self)),
            *final(self) == lp_step(*old(self), x).0,
            y == lp_step(*old(self), x).1,
            sample_ok(y as int),
    {
        proof {
            lemma_lp_step_ok(*old(self), x);
        }
        let sum = self.last + x;
        let y = tdiv64(sum * self.gain, FIX_ONE);
        self.last = x;
        y
    }
}

impl Default for LowPass {
    /// The default damping filter: gain at the stability limit.
    fn default() -> (r: LowPass)
        ensures
            r.last == 0i64,
            r.gain == LP_GAIN_LIMIT,
            r.wf(),
    {
        LowPass::new(FIX_HALF)
    }
}

impl Filter for LowPass {
    open spec fn wf(self) -> bool {
        lp_wf(self)
    }

    open spec fn out(self, input: Seq<i64>) -> Seq<i64> {
        run_mealy(lp_step_fn(), self, input).1
    }

    open spec fn steps_to(self, input: Seq<i64>, next: Self) -> bool {
        next == run_mealy(lp_step_fn(), self, input).0
    }

    proof fn out_ok(self, input: Seq<i64>) {
        assert forall|m: LowPass, x: i64| lp_wf(m) && sample_ok(x as int) implies lp_wf(
            #[trigger] lp_step_fn()(m, x).0,
        ) && sample_ok(lp_step_fn()(m, x).1 as int) by {
            lemma_lp_step_ok(m, x);
        }
        lemma_mealy_props(lp_step_fn(), |m: LowPass| lp_wf(m), self, input);
    }

    proof fn steps_wf(self, input: Seq<i64>, next: Self) {
        assert forall|m: LowPass, x: i64| lp_wf(m) && sample_ok(x as int) implies lp_wf(
            #[trigger] lp_step_fn()(m, x).0,
        ) && sample_ok(lp_step_fn()(m, x).1 as int) by {
            lemma_lp_step_ok(m, x);
        }
        lemma_mealy_props(lp_step_fn(), |m: LowPass| lp_wf(m), self, input);
    }

    fn process(&mut self, samples: &mut Vec<i64>) {
        let ghost m0 = *self;
        let ghost input = samples@;
        let len = samples.len();
        let mut i: usize = 0;
        while i < len
            invariant
                i <= len,
                len == samples@.len(),
                input.len() == len,
                samples_ok(input),
                lp_wf(*self),
                *self == run_mealy(lp_step_fn(), m0, input.take(i as int)).0,
                samples@ =~= run_mealy(lp_step_fn(), m0, input.take(i as int)).1 + input.skip(
                    i as int,
                ),
            decreases len - i,
        {
            let x = samples[i];
            proof {
                assert(samples@[i as int] == input[i as int]);
                lemma_mealy_snoc(lp_step_fn(), m0, input.take(i as int), x);
                assert(input.take(i + 1 as int) =~= input.take(i as int).push(x));
            }
            let y = self.step_one(x);
            samples.set(i, y);
            proof {
                assert(samples@ =~= run_mealy(lp_step_fn(), m0, input.take(i + 1 as int)).1
                    + input.skip(i + 1 as int));
            }
            i += 1;
        }
        proof {
            assert(input.take(len as int) =~= input);
            assert(samples@ =~= run_mealy(lp_step_fn(), m0, input).1);
        }
    }
}

/// From a remembered input of `v`, a constant stream of `v` holds the
/// low-pass at exactly the scaled `gain * (v + v)` forever.
proof fn lemma_lp_constant_steady(g: i64, v: i64, input: Seq<i64>)
    requires
        forall|i: int| 0 <= i < input.len() ==> input[i] == v,
    ensures
        run_mealy(lp_step_fn(), LowPass { last: v, gain: g }, input).1.len() == input.len(),
        forall|i: int|
            0 <= i < input.len() ==> run_mealy(
                lp_step_fn(),
                LowPass { last: v, gain: g },
                input,
            ).1[i] == tdiv((v + v) * g, FIX_ONE as int) as i64,
        run_mealy(lp_step_fn(), LowPass { last: v, gain: g }, input).0 == (LowPass {
            last: v,
            gain: g,
        }),
    decreases input.len(),
{
    reveal_with_fuel(run_mealy, 2);
    let m = LowPass { last: v, gain: g };
    if input.len() > 0 {
        assert(input[0] == v);
        let first = lp_step_fn()(m, v);
        assert(first.0 == m);
        let rest = input.drop_first();
        assert(forall|i: int| 0 <= i < rest.len() ==> #[trigger] rest[i] == input[i + 1]);
        lemma_lp_constant_steady(g, v, rest);
        let r = run_mealy(lp_step_fn(), m, input);
        let rr = run_mealy(lp_step_fn(), m, rest);
        assert(r.1 == seq![first.1] + rr.1);
        assert forall|i: int| 0 <= i < input.len() implies r.1[i] == tdiv(
            (v + v) * g,
            FIX_ONE as int,
        ) as i64 by {
            if i == 0 {
                assert(r.1[0] == first.1);
            } else {
                assert(r.1[i] == rr.1[i - 1]);
            }
        }
    }
}

/// Feeding a constant stream of `v` into a low-pass, the output
/// settles from the second sample on to exactly the scaled
/// `gain * (v + v)` — twice the gain times the input — and no output
/// ever exceeds twice the gain times the larger of the remembered
/// input and `v` (the stability bound).
pub proof fn low_pass_constant_converges(m: LowPass, input: Seq<i64>, v: i64, b: int)
    requires
        lp_wf(m),
        sample_ok(v as int),
        forall|i: int| 0 <= i < input.len() ==> input[i] == v,
        iabs(m.last as int) <= b,
        iabs(v as int) <= b,
    ensures
        run_mealy(lp_step_fn(), m, input).1.len() == input.len(),
        forall|i: int|
            1 <= i < input.len() ==> run_mealy(lp_step_fn(), m, input).1[i] as int == tdiv(
                (v + v) * m.gain,
                FIX_ONE as int,
            ),
        -(SIG_LIMIT as int) <= tdiv((v + v) * m.gain, FIX_ONE as int) <= SIG_LIMIT as int,
        forall|i: int|
            0 <= i < input.len() ==> iabs(run_mealy(lp_step_fn(), m, input).1[i] as int) <= (2 * b
                * iabs(m.gain as int)) / (FIX_ONE as int),
{
    reveal_with_fuel(run_mealy, 2);
    let one = FIX_ONE as int;
    let gb = iabs(m.gain as int);
    lemma_lp_step_ok(LowPass { last: v, gain: m.gain }, v);
    if input.len() > 0 {
        assert(input[0] == v);
        let first = lp_step_fn()(m, v);
        assert(first.0 == (LowPass { last: v, gain: m.gain }));
        let rest = input.drop_first();
        assert(forall|i: int| 0 <= i < rest.len() ==> #[trigger] rest[i] == input[i + 1]);
        lemma_lp_constant_steady(m.gain, v, rest);
        let r = run_mealy(lp_step_fn(), m, input);
        let rr = run_mealy(lp_step_fn(), first.0, rest);
        assert(r.1 == seq![first.1] + rr.1);
        lemma_lp_step_ok(m, v);
        lemma_lp_step_ok(first.0, v);
        assert forall|i: int| 1 <= i < input.len() implies r.1[i] as int == tdiv(
            (v + v) * m.gain,
            one,
        ) by {
            assert(r.1[i] == rr.1[i - 1]);
        }
        // The stability bound, for the first output and for the
        // settled value alike.
        lemma_iabs_mul_le(m.last + v, m.gain as int, 2 * b, gb);
        lemma_tdiv_bound((m.last + v) * m.gain, one, 2 * b * gb);
        lemma_iabs_mul_le(v + v, m.gain as int, 2 * b, gb);
        lemma_tdiv_bound((v + v) * m.gain, one, 2 * b * gb);
        assert(iabs(first.1 as int) <= (2 * b * gb) / one);
        assert forall|i: int| 0 <= i < input.len() implies iabs(r.1[i] as int) <= (2 * b * gb)
            / one by {
            if i >= 1 {
                assert(r.1[i] == rr.1[i - 1]);
            }
        }
    }
}

// ---------------------------------------------------------------------
// Fixed-gain scale
// ---------------------------------------------------------------------

/// Multiplies every sample by a fixed gain of magnitude at most one.
pub struct Scale(pub i64);

/// Scale invariant: gain magnitude at most one, so the output range
/// never grows.
pub open spec fn scale_wf(m: Scale) -> bool {
    -FIX_ONE <= m.0 <= FIX_ONE
}

/// One scale step: the scaled-back product, state unchanged.
pub open spec fn scale_step(m: Scale, x: i64) -> (Scale, i64) {
    (m, qmul(x as int, m.0 as int) as i64)
}

/// The scale step as a reusable function value.
pub open spec fn scale_step_fn() -> spec_fn(Scale, i64) -> (Scale, i64) {
    |m: Scale, x: i64| scale_step(m, x)
}

/// The scale step keeps samples in range.
pub proof fn lemma_scale_step_ok(m: Scale, x: i64)
    requires
        scale_wf(m),
        sample_ok(x as int),
    ensures
        scale_wf(scale_step(m, x).0),
        sample_ok(scale_step(m, x).1 as int),
{
    lemma_iabs_mul_le(x as int, m.0 as int, SIG_LIMIT as int, FIX_ONE as int);
    lemma_tdiv_bound(x as int * m.0 as int, FIX_ONE as int, SIG_LIMIT as int * FIX_ONE as int);
    assert((SIG_LIMIT as int * FIX_ONE as int) / (FIX_ONE as int) == SIG_LIMIT as int) by {
        vstd::arithmetic::div_mod::lemma_div_multiples_vanish(SIG_LIMIT as int, FIX_ONE as int);
    }
}

impl Filter for Scale {
    open spec fn wf(self) -> bool {
        scale_wf(self)
    }

    open spec fn out(self, input: Seq<i64>) -> Seq<i64> {
        run_mealy(scale_step_fn(), self, input).1
    }

    open spec fn steps_to(self, input: Seq<i64>, next: Self) -> bool {
        next == run_mealy(scale_step_fn(), self, input).0
    }

    proof fn out_ok(self, input: Seq<i64>) {
        assert forall|m: Scale, x: i64| scale_wf(m) && sample_ok(x as int) implies scale_wf(
            #[trigger] scale_step_fn()(m, x).0,
        ) && sample_ok(scale_step_fn()(m, x).1 as int) by {
            lemma_scale_step_ok(m, x);
        }
        lemma_mealy_props(scale_step_fn(), |m: Scale| scale_wf(m), self, input);
    }

    proof fn steps_wf(self, input: Seq<i64>, next: Self) {
        assert forall|m: Scale, x: i64| scale_wf(m) && sample_ok(x as int) implies scale_wf(
            #[trigger] scale_step_fn()(m, x).0,
        ) && sample_ok(scale_step_fn()(m, x).1 as int) by {
            lemma_scale_step_ok(m, x);
        }
        lemma_mealy_props(scale_step_fn(), |m: Scale| scale_wf(m), self, input);
    }

    fn process(&mut self, samples: &mut Vec<i64>) {
        let ghost m0 = *self;
        let ghost input = samples@;
        let len = samples.len();
        let mut i: usize = 0;
        while i < len
            invariant
                i <= len,
                len == samples@.len(),
                input.len() == len,
                samples_ok(input),
                scale_wf(*self),
                *self == m0,
                samples@ =~= run_mealy(scale_step_fn(), m0, input.take(i as int)).1 + input.skip(
                    i as int,
                ),
                run_mealy(scale_step_fn(), m0, input.take(i as int)).0 == m0,
            decreases len - i,
        {
            let x = samples[i];
            proof {
                assert(samples@[i as int] == input[i as int]);
                lemma_scale_step_ok(m0, x);
                lemma_iabs_mul_le(x as int, self.0 as int, SIG_LIMIT as int, FIX_ONE as int);
                lemma_mealy_snoc(scale_step_fn(), m0, input.take(i as int), x);
                assert(input.take(i + 1 as int) =~= input.take(i as int).push(x));
            }
            let y = crate::fixed::qmul64(x, self.0);
            samples.set(i, y);
            proof {
                assert(samples@ =~= run_mealy(scale_step_fn(), m0, input.take(i + 1 as int)).1
                    + input.skip(i + 1 as int));
            }
            i += 1;
        }
        proof {
            assert(input.take(len as int) =~= input);
            assert(samples@ =~= run_mealy(scale_step_fn(), m0, input).1);
        }
    }
}

// ---------------------------------------------------------------------
// Square-wave oscillator
// ---------------------------------------------------------------------

/// Overwrites the buffer with a square wave: emits plus or minus a
/// fixed volume depending on the current phase, then advances the
/// phase by a fixed increment modulo one cycle.
pub struct SquareWave {
    pub phase_inc: i64,
    pub phase: i64,
    pub volume: i64,
}

/// Square-wave invariant: phase within one cycle, increment
/// nonnegative and small enough that advancing the phase stays inside
/// the machine word, volume in range.
pub open spec fn sq_wf(m: SquareWave) -> bool {
    &&& 0 <= m.phase < FIX_ONE
    &&& 0 <= m.phase_inc <= i64::MAX - FIX_ONE
    &&& sample_ok(m.volume as int)
}

/// One square-wave step: emit by the current phase, then advance the
/// phase by the increment, wrapped modulo one cycle; the input sample
/// is ignored.
pub open spec fn sq_step(m: SquareWave, x: i64) -> (SquareWave, i64) {
    let y: i64 = if m.phase > FIX_HALF {
        m.volume
    } else {
        (-m.volume) as i64
    };
    let p: i64 = ((m.phase + m.phase_inc) % (FIX_ONE as int)) as i64;
    (SquareWave { phase_inc: m.phase_inc, phase: p, volume: m.volume }, y)
}

/// The square-wave step as a reusable function value.
pub open spec fn sq_step_fn() -> spec_fn(SquareWave, i64) -> (SquareWave, i64) {
    |m: SquareWave, x: i64| sq_step(m, x)
}

/// The square-wave step preserves the invariant and emits in-range
/// samples.
pub proof fn lemma_sq_step_ok(m: SquareWave, x: i64)
    requires
        sq_wf(m),
        sample_ok(x as int),
    ensures
        sq_wf(sq_step(m, x).0),
        sample_ok(sq_step(m, x).1 as int),
{
    vstd::arithmetic::div_mod::lemma_mod_bound(m.phase + m.phase_inc, FIX_ONE as int);
}

impl Filter for SquareWave {
    open spec fn wf(self) -> bool {
        sq_wf(self)
    }

    open spec fn out(self, input: Seq<i64>) -> Seq<i64> {
        run_mealy(sq_step_fn(), self, input).1
    }

    open spec fn steps_to(self, input: Seq<i64>, next: Self) -> bool {
        next == run_mealy(sq_step_fn(), self, input).0
    }

    proof fn out_ok(self, input: Seq<i64>) {
        assert forall|m: SquareWave, x: i64| sq_wf(m) && sample_ok(x as int) implies sq_wf(
            #[trigger] sq_step_fn()(m, x).0,
        ) && sample_ok(sq_step_fn()(m, x).1 as int) by {
            lemma_sq_step_ok(m, x);
        }
        lemma_mealy_props(sq_step_fn(), |m: SquareWave| sq_wf(m), self, input);
    }

    proof fn steps_wf(self, input: Seq<i64>, next: Self) {
        assert forall|m: SquareWave, x: i64| sq_wf(m) && sample_ok(x as int) implies sq_wf(
            #[trigger] sq_step_fn()(m, x).0,
        ) && sample_ok(sq_step_fn()(m, x).1 as int) by {
            lemma_sq_step_ok(m, x);
        }
        lemma_mealy_props(sq_step_fn(), |m: SquareWave| sq_wf(m), self, input);
    }

    fn process(&mut self, samples: &mut Vec<i64>) {
        let ghost m0 = *self;
        let ghost input = samples@;
        let len = samples.len();
        let mut i: usize = 0;
        while i < len
            invariant
                i <= len,
                len == samples@.len(),
                input.len() == len,
                samples_ok(input),
                sq_wf(*self),
                *self == run_mealy(sq_step_fn(), m0, input.take(i as int)).0,
                samples@ =~= run_mealy(sq_step_fn(), m0, input.take(i as int)).1 + input.skip(
                    i as int,
                ),
            decreases len - i,
        {
            proof {
                let x = input[i as int];
                lemma_sq_step_ok(*self, x);
                lemma_mealy_snoc(sq_step_fn(), m0, input.take(i as int), x);
                assert(input.take(i + 1 as int) =~= input.take(i as int).push(x));
            }
            let y = if self.phase > FIX_HALF {
                self.volume
            } else {
                -self.volume
            };
            let s = self.phase + self.phase_inc;
            self.phase = ((s as u64) % (FIX_ONE as u64)) as i64;
            samples.set(i, y);
            proof {
                assert(samples@ =~= run_mealy(sq_step_fn(), m0, input.take(i + 1 as int)).1
                    + input.skip(i + 1 as int));
            }
            i += 1;
        }
        proof {
            assert(input.take(len as int) =~= input);
            assert(samples@ =~= run_mealy(sq_step_fn(), m0, input).1);
        }
    }
}

// ---------------------------------------------------------------------
// Noise generator
// ---------------------------------------------------------------------

/// One xorshift round over a 32-bit word.
pub open spec fn xorshift(v: u32) -> u32 {
    let a = v ^ (v << 13);
    let b = a ^ (a >> 17);
    b ^ (b << 5)
}

/// The sample a raw xorshift word maps to: the signed 32-bit
/// interpretation brought to the conventional [-1, 1] sample range.
pub open spec fn noise_of(v: u32) -> int {
    tdiv(v as i32 as int, FIX_HALF as int)
}

/// Deterministic xorshift pseudo-random noise source.
pub struct Rng {
    pub v: u32,
}

impl Rng {
    /// Advance the generator one round and return the fresh noise
    /// sample in [-FIX_ONE, FIX_ONE].
    pub fn next(&mut self) -> (r: i64)
        ensures
            final(self).v == xorshift(old(self).v),
            r as int == noise_of(final(self).v),
            -FIX_ONE <= r <= FIX_ONE,
    {
        self.v = self.v ^ (self.v << 13u32);
        self.v = self.v ^ (self.v >> 17u32);
        self.v = self.v ^ (self.v << 5u32);
        let w: i64 = (self.v as i32) as i64;
        proof {
            lemma_tdiv_bound(w as int, FIX_HALF as int, 0x8000_0000);
            assert(0x8000_0000int / (FIX_HALF as int) == FIX_ONE as int) by {
                vstd::arithmetic::div_mod::lemma_div_multiples_vanish(
                    FIX_ONE as int,
                    FIX_HALF as int,
                );
            }
        }
        tdiv64(w, FIX_HALF)
    }
}

impl Default for Rng {
    /// The fixed, nonzero seed every voice starts from.
    fn default() -> (r: Rng)
        ensures
            r.v == 0xdeadbeefu32,
    {
        Rng { v: 0xdeadbeef }
    }
}

// ---------------------------------------------------------------------
// Recording tap
// ---------------------------------------------------------------------

/// A pass-through filter that logs every sample it sees, so a session
/// can be inspected offline. Draining the log empties it.
pub struct Snoop {
    pub name: String,
    pub samples: Vec<i64>,
}

/// Mathematical state of a recording tap.
pub struct SnoopModel {
    pub name: Seq<char>,
    pub log: Seq<i64>,
}

impl View for Snoop {
    type V = SnoopModel;

    open spec fn view(&self) -> SnoopModel {
        SnoopModel { name: self.name@, log: self.samples@ }
    }
}

impl Snoop {
    /// An empty tap that will save under the given destination name.
    pub fn new(name: String) -> (r: Snoop)
        ensures
            r@.name == name@,
            r@.log == Seq::<i64>::empty(),
            r.wf(),
    {
        Snoop { name, samples: Vec::new() }
    }

    /// Take the whole accumulated log, leaving the tap empty: the
    /// at-most-once consumption that `save` builds on.
    pub fn drain(&mut self) -> (r: Vec<i64>)
        ensures
            r@ == old(self)@.log,
            final(self)@.log == Seq::<i64>::empty(),
            final(self)@.name == old(self)@.name,
    {
        let mut taken: Vec<i64> = Vec::new();
        core::mem::swap(&mut taken, &mut self.samples);
        taken
    }
}

impl Filter for Snoop {
    open spec fn wf(self) -> bool {
        samples_ok(self@.log)
    }

    open spec fn out(self, input: Seq<i64>) -> Seq<i64> {
        input
    }

    open spec fn steps_to(self, input: Seq<i64>, next: Self) -> bool {
        next@.log == self@.log + input && next@.name == self@.name
    }

    proof fn out_ok(self, input: Seq<i64>) {
    }

    proof fn steps_wf(self, input: Seq<i64>, next: Self) {
        assert forall|i: int| 0 <= i < next@.log.len() implies sample_ok(
            #[trigger] next@.log[i] as int,
        ) by {
            if i < self@.log.len() {
                assert(next@.log[i] == self@.log[i]);
            } else {
                assert(next@.log[i] == input[i - self@.log.len()]);
            }
        }
    }

    fn process(&mut self, samples: &mut Vec<i64>) {
        let ghost log0 = self@.log;
        let ghost input = samples@;
        let len = samples.len();
        let mut i: usize = 0;
        while i < len
            invariant
                i <= len,
                len == samples@.len(),
                samples@ == input,
                self.name@ == old(self).name@,
                self.samples@ =~= log0 + input.take(i as int),
            decreases len - i,
        {
            let x = samples[i];
            self.samples.push(x);
            proof {
                assert(input.take(i + 1 as int) =~= input.take(i as int).push(x));
                assert(self.samples@ =~= log0 + input.take(i + 1 as int));
            }
            i += 1;
        }
        proof {
            assert(input.take(len as int) =~= input);
        }
    }
}

// ---------------------------------------------------------------------
// No-op filter
// ---------------------------------------------------------------------

/// The identity filter: leaves the buffer untouched.
pub struct NoopFilter;

impl Filter for NoopFilter {
    open spec fn wf(self) -> bool {
        true
    }

    open spec fn out(self, input: Seq<i64>) -> Seq<i64> {
        input
    }

    open spec fn steps_to(self, input: Seq<i64>, next: Self) -> bool {
        true
    }

    proof fn out_ok(self, input: Seq<i64>) {
    }

    proof fn steps_wf(self, input: Seq<i64>, next: Self) {
    }

    fn process(&mut self, samples: &mut Vec<i64>) {
    }
}

} // verus!
