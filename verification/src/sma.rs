//! Simple moving average: the arithmetic mean of the most recent samples,
//! kept with a circular buffer and a running sum.
//!
//! While fewer than `n` samples have been seen the divisor is the number seen
//! so far, so the warm-up average is the mean of everything fed so far.

use vstd::prelude::*;

verus! {

use crate::fixed::Fixed;
use crate::fixed::div_trunc;
use crate::fixed::lemma_tdiv_bounds;
use crate::fixed::lemma_tdiv_exact;
use crate::seqs::lemma_rotation_advance;
use crate::seqs::lemma_seq_sum_bounds;
use crate::seqs::lemma_seq_sum_constant;
use crate::seqs::lemma_seq_sum_drop_first;
use crate::seqs::lemma_seq_sum_i64_fits;
use crate::seqs::lemma_seq_sum_push;
use crate::seqs::mean;
use crate::seqs::rotation;
use crate::seqs::seq_sum;

/// Simple moving average calculator over a window of `n` samples.
pub struct Sma {
    buffer: Vec<Fixed>,
    index: usize,
    sum: i128,
    count: usize,
}

/// How one sample changes the window: it is appended, and once the window
/// already holds `n` samples the oldest is dropped to make room.
pub open spec fn sma_window_step(w: Seq<int>, n: int, v: int) -> Seq<int> {
    if w.len() < n {
        w.push(v)
    } else {
        w.drop_first().push(v)
    }
}

/// The window after feeding `inputs` to a calculator whose window was `w0`.
pub open spec fn sma_window_from(w0: Seq<int>, n: int, inputs: Seq<int>) -> Seq<int>
    decreases inputs.len(),
{
    if inputs.len() == 0 {
        w0
    } else {
        sma_window_step(sma_window_from(w0, n, inputs.drop_last()), n, inputs.last())
    }
}

/// The averages returned while feeding `inputs` to a calculator whose window
/// was `w0`, in order.
pub open spec fn sma_outputs_from(w0: Seq<int>, n: int, inputs: Seq<int>) -> Seq<int>
    decreases inputs.len(),
{
    if inputs.len() == 0 {
        Seq::<int>::empty()
    } else {
        sma_outputs_from(w0, n, inputs.drop_last()).push(mean(sma_window_from(w0, n, inputs)))
    }
}

/// The window after feeding `inputs` to a fresh calculator holds exactly the
/// most recent `min(inputs.len(), n)` of them, oldest first.
pub proof fn lemma_sma_window_is_recent(n: int, inputs: Seq<int>)
    requires
        n >= 1,
    ensures
        inputs.len() <= n ==> sma_window_from(Seq::<int>::empty(), n, inputs) == inputs,
        inputs.len() > n ==> sma_window_from(Seq::<int>::empty(), n, inputs)
            == inputs.skip(inputs.len() - n),
    decreases inputs.len(),
{
    let e = Seq::<int>::empty();
    if inputs.len() == 0 {
        assert(sma_window_from(e, n, inputs) =~= inputs);
    } else {
        let pre = inputs.drop_last();
        lemma_sma_window_is_recent(n, pre);
        if inputs.len() <= n {
            assert(pre.push(inputs.last()) =~= inputs);
        } else if inputs.len() == n + 1 {
            assert(pre.drop_first().push(inputs.last()) =~= inputs.skip(1));
        } else {
            assert(pre.skip(pre.len() - n).drop_first().push(inputs.last())
                =~= inputs.skip(inputs.len() - n));
        }
    }
}

/// During warm-up — while at most `n` samples have been fed — the returned
/// average is the mean of all samples seen so far, divided by their count,
/// not by `n`.
pub proof fn lemma_sma_warmup_mean(n: int, inputs: Seq<int>)
    requires
        n >= 1,
        1 <= inputs.len() <= n,
    ensures
        sma_outputs_from(Seq::<int>::empty(), n, inputs).last() == mean(inputs),
{
    lemma_sma_window_is_recent(n, inputs);
}

/// After warm-up the returned average is the mean of the most recent `n`
/// samples, as a naive recomputation over that window would give.
pub proof fn lemma_sma_steady_mean(n: int, inputs: Seq<int>)
    requires
        n >= 1,
        inputs.len() >= n,
    ensures
        sma_outputs_from(Seq::<int>::empty(), n, inputs).last()
            == mean(inputs.skip(inputs.len() - n)),
{
    lemma_sma_window_is_recent(n, inputs);
    if inputs.len() == n {
        assert(inputs.skip(0) =~= inputs);
    }
}

/// Whatever window a calculator starts from, after feeding `k <= n` samples
/// the window ends with exactly those samples, holding `min(w0.len() + k, n)`
/// samples in all.
pub proof fn lemma_sma_feed_suffix(w0: Seq<int>, n: int, inputs: Seq<int>)
    requires
        n >= 1,
        w0.len() <= n,
        inputs.len() <= n,
    ensures
        ({
            let w1 = sma_window_from(w0, n, inputs);
            let len = if w0.len() + inputs.len() <= n { w0.len() + inputs.len() } else { n as nat };
            w1.len() == len && w1.skip(w1.len() - inputs.len()) == inputs
        }),
    decreases inputs.len(),
{
    if inputs.len() == 0 {
        assert(w0.skip(w0.len() as int) =~= inputs);
    } else {
        let pre = inputs.drop_last();
        lemma_sma_feed_suffix(w0, n, pre);
        let w = sma_window_from(w0, n, pre);
        let w1 = sma_window_step(w, n, inputs.last());
        let k = inputs.len() as int;
        let base = w1.len() - k;
        assert forall|j: int| 0 <= j < k implies w1.skip(base)[j] == inputs[j] by {
            if j < k - 1 {
                assert(w.skip(w.len() - pre.len())[j] == pre[j]);
                assert(w.skip(w.len() - pre.len())[j] == w[w.len() - pre.len() + j]);
            }
        }
        assert(w1.skip(base) =~= inputs);
    }
}

/// Feeding `n` equal samples `v`, from a fresh calculator or after any
/// earlier samples, fills the window with `v` and ends with the average
/// exactly `v`.
pub proof fn lemma_sma_identical_samples(w0: Seq<int>, n: int, v: int, inputs: Seq<int>)
    requires
        n >= 1,
        w0.len() <= n,
        inputs.len() == n,
        forall|i: int| 0 <= i < inputs.len() ==> #[trigger] inputs[i] == v,
    ensures
        sma_window_from(w0, n, inputs) == inputs,
        sma_outputs_from(w0, n, inputs).last() == v,
{
    lemma_sma_feed_suffix(w0, n, inputs);
    let w1 = sma_window_from(w0, n, inputs);
    assert(w1.skip(0) =~= w1);
    lemma_seq_sum_constant(inputs, v);
    lemma_tdiv_exact(n, v);
}

/// A reset calculator has the empty window and the window size of a fresh
/// one, so replaying any samples after a reset yields, by the contract of
/// `next`, the same averages a fresh calculator would return.
pub proof fn lemma_sma_reset_replays(s: Sma, t: Sma, inputs: Seq<int>)
    requires
        t.n() == s.n(),
        t.window() == Seq::<int>::empty(),
    ensures
        sma_outputs_from(t.window(), t.n(), inputs)
            == sma_outputs_from(Seq::<int>::empty(), s.n(), inputs),
{
}

impl Sma {
    /// The window size fixed at construction.
    pub closed spec fn n(&self) -> int {
        self.buffer@.len() as int
    }

    /// The raw values held in the buffer, in slot order.
    closed spec fn vals(&self) -> Seq<int> {
        self.buffer@.map_values(|f: Fixed| f@)
    }

    /// The samples currently held, oldest first.
    pub closed spec fn window(&self) -> Seq<int> {
        if self.count < self.buffer@.len() {
            self.vals().take(self.count as int)
        } else {
            rotation(self.vals(), self.index as int)
        }
    }

    /// Internal consistency: the cursor is in range, at most `n` samples are
    /// held, during warm-up the cursor equals the sample count, and the
    /// running sum is exactly the sum of the held samples.
    pub closed spec fn wf(&self) -> bool {
        &&& self.buffer@.len() >= 1
        &&& (self.index as int) < self.buffer@.len()
        &&& self.count <= self.buffer@.len()
        &&& (self.count < self.buffer@.len() ==> self.index == self.count)
        &&& self.sum as int == seq_sum(self.window())
    }

    /// A new calculator over a window of `n` samples; `n` must be at least 1.
    pub fn new(n: usize) -> (r: Sma)
        requires
            n >= 1,
        ensures
            r.wf(),
            r.n() == n,
            r.window() == Seq::<int>::empty(),
    {
        let mut buffer: Vec<Fixed> = Vec::new();
        let mut i: usize = 0;
        while i < n
            invariant
                i <= n,
                buffer@.len() == i,
            decreases n - i,
        {
            buffer.push(Fixed::zero());
            i = i + 1;
        }
        let r = Sma { buffer, index: 0, sum: 0, count: 0 };
        proof {
            assert(r.window() =~= Seq::<int>::empty());
        }
        r
    }

    /// Feed one sample: append it to the window (dropping the oldest sample
    /// once the window is full) and return the arithmetic mean of the samples
    /// now held.
    pub fn next(&mut self, value: Fixed) -> (r: Fixed)
        requires
            old(self).wf(),
        ensures
            final(self).wf(),
            final(self).n() == old(self).n(),
            final(self).window() == sma_window_step(old(self).window(), old(self).n(), value@),
            r@ == mean(final(self).window()),
    {
        let n = self.buffer.len();
        let ghost w0 = self.window();
        let ghost v0 = self.vals();
        if self.count < n {
            proof {
                lemma_seq_sum_i64_fits(w0);
                lemma_seq_sum_i64_fits(w0.push(value@));
                lemma_seq_sum_push(w0, value@);
            }
            self.sum = self.sum + value.raw as i128;
            self.count = self.count + 1;
        } else {
            let evicted = self.buffer[self.index];
            proof {
                assert(w0.first() == evicted@);
                lemma_seq_sum_drop_first(w0);
                lemma_seq_sum_i64_fits(w0);
                lemma_seq_sum_i64_fits(w0.drop_first());
                lemma_seq_sum_i64_fits(w0.drop_first().push(value@));
                lemma_seq_sum_push(w0.drop_first(), value@);
            }
            self.sum = self.sum - evicted.raw as i128 + value.raw as i128;
        }
        self.buffer.set(self.index, value);
        self.index = (self.index + 1) % n;
        proof {
            let w1 = sma_window_step(w0, n as int, value@);
            if old(self).count < n {
                if old(self).count + 1 < n {
                    assert(self.index == old(self).count + 1) by {
                        vstd::arithmetic::div_mod::lemma_small_mod(
                            (old(self).count + 1) as nat,
                            n as nat,
                        );
                    }
                    assert(self.window() =~= w0.push(value@));
                } else {
                    assert(self.index == 0) by {
                        vstd::arithmetic::div_mod::lemma_mod_self_0(n as int);
                    }
                    assert(self.window() =~= w0.push(value@));
                }
            } else {
                lemma_rotation_advance(v0, old(self).index as int, value@);
                assert(self.vals() =~= v0.update(old(self).index as int, value@));
            }
            assert(self.window() == w1);
            assert(self.sum as int == seq_sum(w1));
            assert(self.count as int == w1.len());
            lemma_seq_sum_i64_fits(w1);
            assert(forall|i: int|
                0 <= i < w1.len() ==> i64::MIN <= #[trigger] w1[i] <= i64::MAX);
            lemma_seq_sum_bounds(w1, i64::MIN as int, i64::MAX as int);
            lemma_tdiv_bounds(seq_sum(w1), w1.len() as int, i64::MIN as int, i64::MAX as int);
        }
        let q = div_trunc(self.sum, self.count as i128);
        Fixed { raw: q as i64 }
    }

    /// Return to the construction-time state: an empty window over the same
    /// window size.
    pub fn reset(&mut self)
        requires
            old(self).wf(),
        ensures
            final(self).wf(),
            final(self).n() == old(self).n(),
            final(self).window() == Seq::<int>::empty(),
    {
        let n = self.buffer.len();
        let mut i: usize = 0;
        while i < n
            invariant
                i <= n,
                n == self.buffer@.len(),
            decreases n - i,
        {
            self.buffer.set(i, Fixed::zero());
            i = i + 1;
        }
        self.index = 0;
        self.sum = 0;
        self.count = 0;
        proof {
            assert(self.window() =~= Seq::<int>::empty());
        }
    }
}

} // verus!
