//! Rolling (Wilder-style) moving average: a circular buffer of the last `n`
//! samples, seeded on the first call by replicating the first sample into
//! every slot, and thereafter averaged over the whole buffer on each update.

use vstd::prelude::*;

verus! {

use crate::fixed::Fixed;
use crate::fixed::div_trunc;
use crate::fixed::lemma_tdiv_bounds;
use crate::fixed::lemma_tdiv_exact;
use crate::seqs::lemma_rotation_advance;
use crate::seqs::lemma_seq_sum_append;
use crate::seqs::lemma_seq_sum_bounds;
use crate::seqs::lemma_seq_sum_constant;
use crate::seqs::lemma_seq_sum_i64_fits;
use crate::seqs::lemma_seq_sum_push;
use crate::seqs::mean;
use crate::seqs::rotation;
use crate::seqs::seq_sum;

/// Rolling moving average calculator over a buffer of `n` samples.
pub struct Rma {
    buffer: Vec<Fixed>,
    index: usize,
    initialized: bool,
    current: Fixed,
}

/// How one sample changes the buffer, read oldest-first: the first sample
/// fills every slot; afterwards it replaces the oldest sample.
pub open spec fn rma_window_step(w: Seq<int>, n: int, v: int) -> Seq<int> {
    if w.len() == 0 {
        Seq::<int>::new(n as nat, |i: int| v)
    } else {
        w.drop_first().push(v)
    }
}

/// The buffer contents after feeding `inputs` to a calculator whose buffer
/// read `w0` (empty meaning not yet seeded).
pub open spec fn rma_window_from(w0: Seq<int>, n: int, inputs: Seq<int>) -> Seq<int>
    decreases inputs.len(),
{
    if inputs.len() == 0 {
        w0
    } else {
        rma_window_step(rma_window_from(w0, n, inputs.drop_last()), n, inputs.last())
    }
}

/// The averages returned while feeding `inputs` to a calculator whose buffer
/// read `w0`, in order.
pub open spec fn rma_outputs_from(w0: Seq<int>, n: int, inputs: Seq<int>) -> Seq<int>
    decreases inputs.len(),
{
    if inputs.len() == 0 {
        Seq::<int>::empty()
    } else {
        rma_outputs_from(w0, n, inputs.drop_last()).push(
            mean(rma_window_from(w0, n, inputs)),
        )
    }
}

/// The very first sample seeds every slot of the buffer, so the returned
/// mean is that sample unchanged.
pub proof fn lemma_rma_first_sample(n: int, v: int)
    requires
        n >= 1,
    ensures
        mean(rma_window_step(Seq::<int>::empty(), n, v)) == v,
{
    let all = rma_window_step(Seq::<int>::empty(), n, v);
    lemma_seq_sum_constant(all, v);
    lemma_tdiv_exact(n, v);
}

/// After one or more equal samples `v`, every slot of the buffer holds `v`.
pub proof fn lemma_rma_window_identical(n: int, v: int, inputs: Seq<int>)
    requires
        n >= 1,
        inputs.len() >= 1,
        forall|i: int| 0 <= i < inputs.len() ==> #[trigger] inputs[i] == v,
    ensures
        rma_window_from(Seq::<int>::empty(), n, inputs) == Seq::<int>::new(n as nat, |i: int| v),
    decreases inputs.len(),
{
    let all = Seq::<int>::new(n as nat, |i: int| v);
    if inputs.len() == 1 {
        assert(rma_window_from(Seq::<int>::empty(), n, inputs.drop_last())
            =~= Seq::<int>::empty());
    } else {
        lemma_rma_window_identical(n, v, inputs.drop_last());
        assert(all.drop_first().push(inputs.last()) =~= all);
    }
}

/// Once the buffer is seeded, feeding `k <= n` samples leaves it holding the
/// tail of the old samples followed by the new ones, oldest first.
pub proof fn lemma_rma_steady_window(w0: Seq<int>, n: int, inputs: Seq<int>)
    requires
        n >= 1,
        w0.len() == n,
        inputs.len() <= n,
    ensures
        rma_window_from(w0, n, inputs) == w0.skip(inputs.len() as int) + inputs,
    decreases inputs.len(),
{
    if inputs.len() == 0 {
        assert(w0.skip(0) + inputs =~= w0);
    } else {
        lemma_rma_steady_window(w0, n, inputs.drop_last());
        let prev = w0.skip(inputs.len() - 1) + inputs.drop_last();
        assert(prev.drop_first().push(inputs.last())
            =~= w0.skip(inputs.len() as int) + inputs);
    }
}

/// Feeding `n` equal samples `v`, from a fresh calculator or after any
/// earlier samples, fills the buffer with `v` and ends with the average
/// exactly `v`.
pub proof fn lemma_rma_identical_samples(w0: Seq<int>, n: int, v: int, inputs: Seq<int>)
    requires
        n >= 1,
        w0.len() == 0 || w0.len() == n,
        inputs.len() == n,
        forall|i: int| 0 <= i < inputs.len() ==> #[trigger] inputs[i] == v,
    ensures
        rma_window_from(w0, n, inputs) == Seq::<int>::new(n as nat, |i: int| v),
        rma_outputs_from(w0, n, inputs).last() == v,
{
    let all = Seq::<int>::new(n as nat, |i: int| v);
    if w0.len() == 0 {
        assert(w0 =~= Seq::<int>::empty());
        lemma_rma_window_identical(n, v, inputs);
    } else {
        lemma_rma_steady_window(w0, n, inputs);
        assert(w0.skip(n) + inputs =~= all);
    }
    lemma_seq_sum_constant(all, v);
    lemma_tdiv_exact(n, v);
}

/// A reset calculator has the unseeded buffer and the buffer size of a
/// fresh one, so replaying any samples after a reset yields, by the contract
/// of `next`, the same averages a fresh calculator would return.
pub proof fn lemma_rma_reset_replays(s: Rma, t: Rma, inputs: Seq<int>)
    requires
        t.n() == s.n(),
        t.window() == Seq::<int>::empty(),
    ensures
        rma_outputs_from(t.window(), t.n(), inputs)
            == rma_outputs_from(Seq::<int>::empty(), s.n(), inputs),
{
}

impl Rma {
    /// The buffer size fixed at construction.
    pub closed spec fn n(&self) -> int {
        self.buffer@.len() as int
    }

    /// The raw values held in the buffer, in slot order.
    closed spec fn vals(&self) -> Seq<int> {
        self.buffer@.map_values(|f: Fixed| f@)
    }

    /// The samples currently held, oldest first; empty until the first
    /// sample seeds the buffer.
    pub closed spec fn window(&self) -> Seq<int> {
        if self.initialized {
            rotation(self.vals(), self.index as int)
        } else {
            Seq::<int>::empty()
        }
    }

    /// Internal consistency: the cursor is in range, and the held average is
    /// zero before seeding and the buffer mean afterwards.
    pub closed spec fn wf(&self) -> bool {
        &&& self.buffer@.len() >= 1
        &&& (self.index as int) < self.buffer@.len()
        &&& (!self.initialized ==> self.index == 0 && self.current@ == 0)
        &&& (self.initialized ==> self.current@ == mean(self.window()))
    }

    /// A new calculator over a buffer of `n` samples; `n` must be at least 1.
    pub fn new(n: usize) -> (r: Rma)
        requires
            n >= 1,
        ensures
            r.wf(),
            r.n() == n,
            r.window() == Seq::<int>::empty(),
    {
        let mut buffer: Vec<Fixed> = Vec::new();
        let mut i: usize = 0;
        while i < n
            invariant
                i <= n,
                buffer@.len() == i,
            decreases n - i,
        {
            buffer.push(Fixed::zero());
            i = i + 1;
        }
        Rma { buffer, index: 0, initialized: false, current: Fixed::zero() }
    }

    /// Feed one sample: the very first sample fills the whole buffer and is
    /// returned unchanged; every later sample replaces the oldest one, and
    /// the arithmetic mean of all `n` held samples is returned.
    pub fn next(&mut self, value: Fixed) -> (r: Fixed)
        requires
            old(self).wf(),
        ensures
            final(self).wf(),
            final(self).n() == old(self).n(),
            final(self).window() == rma_window_step(old(self).window(), old(self).n(), value@),
            r@ == mean(final(self).window()),
    {
        let n = self.buffer.len();
        if !self.initialized {
            let mut i: usize = 0;
            while i < n
                invariant
                    i <= n,
                    n == self.buffer@.len(),
                    self.index == old(self).index,
                    self.initialized == old(self).initialized,
                    forall|j: int| 0 <= j < i ==> #[trigger] self.buffer@[j] == value,
                decreases n - i,
            {
                self.buffer.set(i, value);
                i = i + 1;
            }
            self.current = value;
            self.initialized = true;
            proof {
                let all = Seq::<int>::new(n as nat, |k: int| value@);
                assert(self.window() =~= all);
                lemma_seq_sum_constant(all, value@);
                lemma_tdiv_exact(n as int, value@);
            }
            value
        } else {
            let ghost v0 = self.vals();
            let ghost w0 = self.window();
            self.buffer.set(self.index, value);
            self.index = (self.index + 1) % n;
            proof {
                lemma_rotation_advance(v0, old(self).index as int, value@);
                assert(self.vals() =~= v0.update(old(self).index as int, value@));
            }
            let mut sum: i128 = 0;
            let mut i: usize = 0;
            while i < n
                invariant
                    i <= n,
                    n == self.buffer@.len(),
                    sum as int == seq_sum(self.vals().take(i as int)),
                decreases n - i,
            {
                proof {
                    let pre = self.vals().take(i as int);
                    assert(self.vals().take(i as int + 1) =~= pre.push(self.vals()[i as int]));
                    lemma_seq_sum_push(pre, self.vals()[i as int]);
                    lemma_seq_sum_i64_fits(self.vals().take(i as int + 1));
                }
                sum = sum + self.buffer[i].raw as i128;
                i = i + 1;
            }
            proof {
                let vs = self.vals();
                let ix = self.index as int;
                assert(vs.take(n as int) =~= vs);
                assert(vs =~= vs.take(ix) + vs.skip(ix));
                lemma_seq_sum_append(vs.take(ix), vs.skip(ix));
                lemma_seq_sum_append(vs.skip(ix), vs.take(ix));
                assert(sum as int == seq_sum(self.window()));
                lemma_seq_sum_i64_fits(self.window());
                lemma_seq_sum_bounds(self.window(), i64::MIN as int, i64::MAX as int);
                lemma_tdiv_bounds(
                    seq_sum(self.window()),
                    n as int,
                    i64::MIN as int,
                    i64::MAX as int,
                );
            }
            let q = div_trunc(sum, n as i128);
            let f = Fixed { raw: q as i64 };
            self.current = f;
            f
        }
    }

    /// Return to the construction-time state: an unseeded buffer over the
    /// same buffer size.
    pub fn reset(&mut self)
        requires
            old(self).wf(),
        ensures
            final(self).wf(),
            final(self).n() == old(self).n(),
            final(self).window() == Seq::<int>::empty(),
    {
        let n = self.buffer.len();
        let mut i: usize = 0;
        while i < n
            invariant
                i <= n,
                n == self.buffer@.len(),
            decreases n - i,
        {
            self.buffer.set(i, Fixed::zero());
            i = i + 1;
        }
        self.index = 0;
        self.initialized = false;
        self.current = Fixed::zero();
    }
}

} // verus!
