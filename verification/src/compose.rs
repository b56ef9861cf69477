//! Composition filters: sequential pipe, binary chain, split-join
//! mixing, and the builder that assembles a voice from a synth source
//! and a chain of post-filters.

use vstd::prelude::*;
use crate::fixed::{SIG_LIMIT, sample_ok, samples_ok, cadd, cadd64};
use crate::filters::{Filter, NoopFilter};

verus! {

// ---------------------------------------------------------------------
// Binary chain
// ---------------------------------------------------------------------

/// Two filters in sequence: the second component runs first, then the
/// first, so the component added latest by the builder sits closest to
/// the raw synth output.
pub struct Chain<H: Filter, T: Filter>(pub H, pub T);

impl<H: Filter, T: Filter> Filter for Chain<H, T> {
    open spec fn wf(self) -> bool {
        self.0.wf() && self.1.wf()
    }

    open spec fn out(self, input: Seq<i64>) -> Seq<i64> {
        self.0.out(self.1.out(input))
    }

    open spec fn steps_to(self, input: Seq<i64>, next: Self) -> bool {
        self.1.steps_to(input, next.1) && self.0.steps_to(self.1.out(input), next.0)
    }

    proof fn out_ok(self, input: Seq<i64>) {
        self.1.out_ok(input);
        self.0.out_ok(self.1.out(input));
    }

    proof fn steps_wf(self, input: Seq<i64>, next: Self) {
        self.1.steps_wf(input, next.1);
        self.1.out_ok(input);
        self.0.steps_wf(self.1.out(input), next.0);
    }

    fn process(&mut self, samples: &mut Vec<i64>) {
        let ghost input = samples@;
        self.1.process(samples);
        proof {
            old(self).1.out_ok(input);
        }
        self.0.process(samples);
    }
}

// ---------------------------------------------------------------------
// Synth with a post-filter
// ---------------------------------------------------------------------

/// A complete voice: a synth source followed by its post-filter tree.
pub struct Synth<S: Filter, F: Filter = NoopFilter> {
    pub synth: S,
    pub filter: F,
}

impl<S: Filter, F: Filter> Filter for Synth<S, F> {
    open spec fn wf(self) -> bool {
        self.synth.wf() && self.filter.wf()
    }

    open spec fn out(self, input: Seq<i64>) -> Seq<i64> {
        self.filter.out(self.synth.out(input))
    }

    open spec fn steps_to(self, input: Seq<i64>, next: Self) -> bool {
        self.synth.steps_to(input, next.synth) && self.filter.steps_to(
            self.synth.out(input),
            next.filter,
        )
    }

    proof fn out_ok(self, input: Seq<i64>) {
        self.synth.out_ok(input);
        self.filter.out_ok(self.synth.out(input));
    }

    proof fn steps_wf(self, input: Seq<i64>, next: Self) {
        self.synth.steps_wf(input, next.synth);
        self.synth.out_ok(input);
        self.filter.steps_wf(self.synth.out(input), next.filter);
    }

    fn process(&mut self, samples: &mut Vec<i64>) {
        let ghost input = samples@;
        self.synth.process(samples);
        proof {
            old(self).synth.out_ok(input);
        }
        self.filter.process(samples);
    }
}

// ---------------------------------------------------------------------
// Voice builder
// ---------------------------------------------------------------------

/// Fluent assembly of a voice: wraps a synth source, then adds
/// post-filters one by one; each added filter runs closest to the raw
/// synth output, before everything added earlier.
pub struct SynthBuilder<S: Filter, T: Filter>(pub S, pub T);

impl<S: Filter> SynthBuilder<S, NoopFilter> {
    /// Start a voice from a bare synth source with no post-filter.
    pub fn new(synth: S) -> (r: SynthBuilder<S, NoopFilter>)
        ensures
            r.0 == synth,
    {
        SynthBuilder(synth, NoopFilter)
    }
}

impl<S: Filter, T: Filter> SynthBuilder<S, T> {
    /// Add a post-filter; it will run before all previously added
    /// post-filters, directly on the synth's raw output.
    pub fn chain<F: Filter>(self, filter: F) -> (r: SynthBuilder<S, Chain<T, F>>)
        ensures
            r.0 == self.0,
            r.1 == (Chain(self.1, filter)),
    {
        SynthBuilder(self.0, Chain(self.1, filter))
    }

    /// Finish assembly into a processable voice.
    pub fn build(self) -> (r: Synth<S, T>)
        ensures
            r.synth == self.0,
            r.filter == self.1,
    {
        Synth { synth: self.0, filter: self.1 }
    }
}

/// Chaining order: a voice built by wrapping a synth and then chaining
/// `a` and then `b` applies `b` first to the synth's raw output and
/// `a` afterwards.
pub proof fn chain_applies_latest_first<S: Filter, A: Filter, B: Filter>(
    s: S,
    a: A,
    b: B,
    input: Seq<i64>,
)
    requires
        s.wf(),
        a.wf(),
        b.wf(),
        samples_ok(input),
    ensures
        (Synth { synth: s, filter: Chain(Chain(NoopFilter, a), b) }).out(input) == a.out(
            b.out(s.out(input)),
        ),
{
}

// ---------------------------------------------------------------------
// Sequential pipe
// ---------------------------------------------------------------------

/// An ordered list of filters applied to the buffer one after another.
pub struct Pipe<F: Filter> {
    pub components: Vec<F>,
}

/// The buffer contents after the first `k` components of a pipe have
/// run on `input`.
pub open spec fn pipe_outs<F: Filter>(children: Seq<F>, input: Seq<i64>, k: int) -> Seq<i64>
    decreases k,
{
    if k <= 0 {
        input
    } else {
        children[k - 1].out(pipe_outs(children, input, k - 1))
    }
}

/// Every prefix of a well-formed pipe keeps the buffer in range and
/// its length unchanged.
pub proof fn lemma_pipe_outs_ok<F: Filter>(children: Seq<F>, input: Seq<i64>, k: int)
    requires
        0 <= k <= children.len(),
        forall|j: int| 0 <= j < children.len() ==> (#[trigger] children[j]).wf(),
        samples_ok(input),
    ensures
        samples_ok(pipe_outs(children, input, k)),
        pipe_outs(children, input, k).len() == input.len(),
    decreases k,
{
    if k > 0 {
        lemma_pipe_outs_ok(children, input, k - 1);
        children[k - 1].out_ok(pipe_outs(children, input, k - 1));
    }
}

impl<F: Filter> Pipe<F> {
    /// A pipe over the given components, in application order.
    pub fn new(components: Vec<F>) -> (r: Pipe<F>)
        ensures
            r.components@ == components@,
    {
        Pipe { components }
    }

    /// Append a component that will run after all present ones.
    pub fn add(&mut self, comp: F)
        ensures
            final(self).components@ == old(self).components@.push(comp),
    {
        self.components.push(comp);
    }
}

impl<F: Filter> Default for Pipe<F> {
    /// An empty pipe: the identity.
    fn default() -> (r: Pipe<F>)
        ensures
            r.components@.len() == 0,
    {
        Pipe { components: Vec::new() }
    }
}

impl<F: Filter> Filter for Pipe<F> {
    open spec fn wf(self) -> bool {
        forall|j: int| 0 <= j < self.components@.len() ==> (#[trigger] self.components@[j]).wf()
    }

    open spec fn out(self, input: Seq<i64>) -> Seq<i64> {
        pipe_outs(self.components@, input, self.components@.len() as int)
    }

    open spec fn steps_to(self, input: Seq<i64>, next: Self) -> bool {
        &&& next.components@.len() == self.components@.len()
        &&& forall|j: int|
            0 <= j < self.components@.len() ==> (#[trigger] self.components@[j]).steps_to(
                pipe_outs(self.components@, input, j),
                next.components@[j],
            )
    }

    proof fn out_ok(self, input: Seq<i64>) {
        lemma_pipe_outs_ok(self.components@, input, self.components@.len() as int);
    }

    proof fn steps_wf(self, input: Seq<i64>, next: Self) {
        assert forall|j: int| 0 <= j < next.components@.len() implies (
        #[trigger] next.components@[j]).wf() by {
            lemma_pipe_outs_ok(self.components@, input, j);
            self.components@[j].steps_wf(pipe_outs(self.components@, input, j), next.components@[j]);
        }
    }

    fn process(&mut self, samples: &mut Vec<i64>) {
        let ghost children0 = self.components@;
        let ghost input = samples@;
        let n = self.components.len();
        let mut k: usize = 0;
        while k < n
            invariant
                k <= n,
                n == self.components@.len(),
                n == children0.len(),
                samples_ok(input),
                forall|j: int| 0 <= j < n ==> (#[trigger] children0[j]).wf(),
                forall|j: int| k <= j < n ==> self.components@[j - k] == children0[j],
                forall|j: int|
                    0 <= j < k ==> (#[trigger] children0[j]).steps_to(
                        pipe_outs(children0, input, j),
                        self.components@[n - k + j],
                    ),
                samples@ == pipe_outs(children0, input, k as int),
            decreases n - k,
        {
            let ghost pre = self.components@;
            let mut c = self.components.remove(0);
            proof {
                assert(c == children0[k as int]);
                lemma_pipe_outs_ok(children0, input, k as int);
            }
            c.process(samples);
            self.components.push(c);
            proof {
                assert forall|j: int| k + 1 <= j < n implies self.components@[j - (k + 1)]
                    == children0[j] by {
                    assert(self.components@[j - k - 1] == pre[j - k]);
                }
                assert forall|j: int| 0 <= j < k + 1 implies (#[trigger] children0[j]).steps_to(
                    pipe_outs(children0, input, j),
                    self.components@[n - (k + 1) + j],
                ) by {
                    if j < k {
                        assert(self.components@[n - k - 1 + j] == pre[n - k + j]);
                    }
                }
            }
            k += 1;
        }
    }
}

// ---------------------------------------------------------------------
// Split-join
// ---------------------------------------------------------------------

/// Fans the buffer out to every component, runs each on its own copy,
/// and joins the copies back by summing them index by index, clamping
/// the sum into the sample range.
pub struct SplitJoin<F: Filter>(pub Vec<F>);

/// The clamped running sum, over the first `k` components' outputs, of
/// the joined sample at index `i`.
pub open spec fn sj_acc<F: Filter>(children: Seq<F>, input: Seq<i64>, i: int, k: int) -> int
    decreases k,
{
    if k <= 0 {
        0
    } else {
        cadd(sj_acc(children, input, i, k - 1), children[k - 1].out(input)[i] as int)
    }
}

/// Every clamped running sum is in range.
pub proof fn lemma_sj_acc_ok<F: Filter>(children: Seq<F>, input: Seq<i64>, i: int, k: int)
    ensures
        sample_ok(sj_acc(children, input, i, k)),
    decreases k,
{
    if k > 0 {
        lemma_sj_acc_ok(children, input, i, k - 1);
    }
}

impl<F: Filter> Filter for SplitJoin<F> {
    open spec fn wf(self) -> bool {
        forall|j: int| 0 <= j < self.0@.len() ==> (#[trigger] self.0@[j]).wf()
    }

    open spec fn out(self, input: Seq<i64>) -> Seq<i64> {
        Seq::new(input.len(), |i: int| sj_acc(self.0@, input, i, self.0@.len() as int) as i64)
    }

    open spec fn steps_to(self, input: Seq<i64>, next: Self) -> bool {
        &&& next.0@.len() == self.0@.len()
        &&& forall|j: int|
            0 <= j < self.0@.len() ==> (#[trigger] self.0@[j]).steps_to(input, next.0@[j])
    }

    proof fn out_ok(self, input: Seq<i64>) {
        assert forall|i: int| 0 <= i < self.out(input).len() implies sample_ok(
            #[trigger] self.out(input)[i] as int,
        ) by {
            lemma_sj_acc_ok(self.0@, input, i, self.0@.len() as int);
        }
    }

    proof fn steps_wf(self, input: Seq<i64>, next: Self) {
        assert forall|j: int| 0 <= j < next.0@.len() implies (#[trigger] next.0@[j]).wf() by {
            self.0@[j].steps_wf(input, next.0@[j]);
        }
    }

    fn process(&mut self, samples: &mut Vec<i64>) {
        let ghost children0 = self.0@;
        let ghost input = samples@;
        let n = self.0.len();
        let len = samples.len();

        let mut outs: Vec<Vec<i64>> = Vec::new();
        let mut k: usize = 0;
        while k < n
            invariant
                k <= n,
                n == self.0@.len(),
                n == children0.len(),
                len == samples@.len(),
                samples@ == input,
                samples_ok(input),
                outs@.len() == k,
                forall|j: int| 0 <= j < n ==> (#[trigger] children0[j]).wf(),
                forall|j: int| k <= j < n ==> self.0@[j - k] == children0[j],
                forall|j: int|
                    0 <= j < k ==> (#[trigger] children0[j]).steps_to(input, self.0@[n - k + j]),
                forall|j: int|
                    0 <= j < k ==> (#[trigger] outs@[j])@ == children0[j].out(input),
                forall|j: int| 0 <= j < k ==> samples_ok((#[trigger] outs@[j])@),
            decreases n - k,
        {
            let ghost pre = self.0@;
            let mut copy: Vec<i64> = Vec::new();
            let mut t: usize = 0;
            while t < len
                invariant
                    t <= len,
                    len == samples@.len(),
                    samples@ == input,
                    copy@ =~= input.take(t as int),
                decreases len - t,
            {
                let x = samples[t];
                copy.push(x);
                proof {
                    assert(copy@ =~= input.take(t + 1 as int));
                }
                t += 1;
            }
            proof {
                assert(copy@ =~= input);
            }
            let mut c = self.0.remove(0);
            proof {
                assert(c == children0[k as int]);
            }
            c.process(&mut copy);
            proof {
                children0[k as int].out_ok(input);
            }
            self.0.push(c);
            outs.push(copy);
            proof {
                assert forall|j: int| k + 1 <= j < n implies self.0@[j - (k + 1)] == children0[j] by {
                    assert(self.0@[j - k - 1] == pre[j - k]);
                }
                assert forall|j: int| 0 <= j < k + 1 implies (#[trigger] children0[j]).steps_to(
                    input,
                    self.0@[n - (k + 1) + j],
                ) by {
                    if j < k {
                        assert(self.0@[n - k - 1 + j] == pre[n - k + j]);
                    }
                }
            }
            k += 1;
        }

        proof {
            assert forall|j: int| 0 <= j < n implies (#[trigger] outs@[j])@.len() == len by {
                children0[j].out_ok(input);
            }
        }
        let mut i: usize = 0;
        while i < len
            invariant
                i <= len,
                len == samples@.len(),
                n == outs@.len(),
                n == children0.len(),
                n == self.0@.len(),
                input.len() == len,
                forall|j: int| 0 <= j < n ==> (#[trigger] outs@[j])@ == children0[j].out(input),
                forall|j: int| 0 <= j < n ==> samples_ok((#[trigger] outs@[j])@),
                forall|j: int| 0 <= j < n ==> (#[trigger] outs@[j])@.len() == len,
                forall|t: int|
                    0 <= t < i ==> samples@[t] == sj_acc(children0, input, t, n as int) as i64,
                forall|t: int| i <= t < len ==> samples@[t] == input[t],
            decreases len - i,
        {
            let mut s: i64 = 0;
            let mut k2: usize = 0;
            while k2 < n
                invariant
                    k2 <= n,
                    n == outs@.len(),
                    i < len,
                    forall|j: int| 0 <= j < n ==> (#[trigger] outs@[j])@ == children0[j].out(input),
                    forall|j: int| 0 <= j < n ==> samples_ok((#[trigger] outs@[j])@),
                    forall|j: int| 0 <= j < n ==> (#[trigger] outs@[j])@.len() == len,
                    s as int == sj_acc(children0, input, i as int, k2 as int),
                    sample_ok(s as int),
                decreases n - k2,
            {
                let row = &outs[k2];
                let v = row[i];
                proof {
                    assert(sample_ok(v as int));
                }
                s = cadd64(s, v);
                k2 += 1;
            }
            samples.set(i, s);
            i += 1;
        }
        proof {
            assert(samples@ =~= old(self).out(input));
        }
    }
}

/// Splitting a signal across identical pass-through branches and
/// joining them again multiplies each sample by the number of
/// branches, as long as the scaled signal stays inside the sample
/// range.
pub proof fn split_join_of_noops_multiplies(sj: SplitJoin<NoopFilter>, input: Seq<i64>, i: int)
    requires
        0 <= i < input.len(),
        -SIG_LIMIT <= sj.0@.len() * input[i] <= SIG_LIMIT,
    ensures
        sj.out(input)[i] == sj.0@.len() * input[i],
{
    lemma_sj_acc_multiplies(sj.0@, input, i, sj.0@.len() as int);
}

/// The clamped running sum over pass-through branches never actually
/// clamps while the target multiple is in range.
proof fn lemma_sj_acc_multiplies(
    children: Seq<NoopFilter>,
    input: Seq<i64>,
    i: int,
    k: int,
)
    requires
        0 <= i < input.len(),
        0 <= k <= children.len(),
        -SIG_LIMIT <= children.len() * input[i] <= SIG_LIMIT,
    ensures
        sj_acc(children, input, i, k) == k * input[i],
    decreases k,
{
    let x = input[i] as int;
    let n = children.len() as int;
    if k <= 0 {
        assert(k * x == 0) by (nonlinear_arith)
            requires
                k == 0,
        ;
    } else {
        lemma_sj_acc_multiplies(children, input, i, k - 1);
        assert(children[k - 1].out(input)[i] == input[i]);
        assert(-SIG_LIMIT <= k * x <= SIG_LIMIT) by (nonlinear_arith)
            requires
                0 < k <= n,
                -SIG_LIMIT <= n * x <= SIG_LIMIT,
        ;
        assert((k - 1) * x + x == k * x) by (nonlinear_arith);
        assert(cadd((k - 1) * x, x) == k * x);
    }
}

} // verus!
