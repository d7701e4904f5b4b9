//! Exponential moving average: `new = previous + (value - previous) * alpha`,
//! seeded with the first observation.
//!
//! The smoothing coefficient alpha is a [`Fixed`] in `(0, 1]`, that is, a raw
//! value in `(0, SCALE]`. The update multiplies the raw difference by the raw
//! coefficient and divides by `SCALE`, truncating toward zero, so the new
//! average always lies between the previous average and the sample.

use vstd::prelude::*;

verus! {

use crate::fixed::Fixed;
use crate::fixed::SCALE;
use crate::fixed::div_trunc;
use crate::fixed::lemma_tdiv_exact;
use crate::fixed::lemma_tdiv_scale_between;
use crate::fixed::tdiv;

/// Exponential moving average calculator.
pub struct Ema {
    current: Option<Fixed>,
    alpha: Fixed,
}

/// One update: the very first sample becomes the average; afterwards the
/// average moves from `prev` toward `v` by the fraction `alpha / SCALE` of
/// the difference, truncated toward zero.
pub open spec fn ema_step(prev: Option<int>, alpha: int, v: int) -> int {
    match prev {
        Option::None => v,
        Option::Some(p) => p + tdiv((v - p) * alpha, SCALE as int),
    }
}

/// The held average after feeding `inputs` to a calculator holding `c0`.
pub open spec fn ema_state_from(c0: Option<int>, alpha: int, inputs: Seq<int>) -> Option<int>
    decreases inputs.len(),
{
    if inputs.len() == 0 {
        c0
    } else {
        Option::Some(
            ema_step(ema_state_from(c0, alpha, inputs.drop_last()), alpha, inputs.last()),
        )
    }
}

/// The averages returned while feeding `inputs` to a calculator holding
/// `c0`, in order.
pub open spec fn ema_outputs_from(c0: Option<int>, alpha: int, inputs: Seq<int>) -> Seq<int>
    decreases inputs.len(),
{
    if inputs.len() == 0 {
        Seq::<int>::empty()
    } else {
        ema_outputs_from(c0, alpha, inputs.drop_last()).push(
            ema_step(ema_state_from(c0, alpha, inputs.drop_last()), alpha, inputs.last()),
        )
    }
}

/// The very first sample is returned unchanged, whatever the coefficient:
/// the average is seeded with the first observation.
pub proof fn lemma_ema_first_sample(alpha: int, v: int)
    ensures
        ema_step(Option::<int>::None, alpha, v) == v,
{
}

/// With the coefficient at one (`alpha == SCALE`) a single update returns
/// the sample just fed, whatever the held state.
pub proof fn lemma_ema_alpha_one(prev: Option<int>, v: int)
    ensures
        ema_step(prev, SCALE as int, v) == v,
{
    match prev {
        Option::None => {
        }
        Option::Some(p) => {
            lemma_tdiv_exact(SCALE as int, v - p);
            assert((v - p) * (SCALE as int) == (SCALE as int) * (v - p));
        }
    }
}

/// With the coefficient at one the calculator keeps no memory at all: the
/// whole output sequence equals the input sequence, from any starting state.
pub proof fn lemma_ema_alpha_one_outputs(c0: Option<int>, inputs: Seq<int>)
    ensures
        ema_outputs_from(c0, SCALE as int, inputs) == inputs,
    decreases inputs.len(),
{
    if inputs.len() == 0 {
        assert(ema_outputs_from(c0, SCALE as int, inputs) =~= inputs);
    } else {
        lemma_ema_alpha_one_outputs(c0, inputs.drop_last());
        lemma_ema_alpha_one(
            ema_state_from(c0, SCALE as int, inputs.drop_last()),
            inputs.last(),
        );
        assert(inputs.drop_last().push(inputs.last()) =~= inputs);
    }
}

/// A reset calculator holds no average and the coefficient of a fresh one,
/// so replaying any samples after a reset yields, by the contract of `next`,
/// the same averages a fresh calculator would return.
pub proof fn lemma_ema_reset_replays(s: Ema, t: Ema, inputs: Seq<int>)
    requires
        t.coeff() == s.coeff(),
        t.cur() == Option::<int>::None,
    ensures
        ema_outputs_from(t.cur(), t.coeff(), inputs)
            == ema_outputs_from(Option::<int>::None, s.coeff(), inputs),
{
}

impl Ema {
    /// The smoothing coefficient, in raw units of `1 / SCALE`.
    pub closed spec fn coeff(&self) -> int {
        self.alpha@
    }

    /// The held average, absent before the first sample and after a reset.
    pub closed spec fn cur(&self) -> Option<int> {
        match self.current {
            Option::None => Option::None,
            Option::Some(f) => Option::Some(f@),
        }
    }

    /// The coefficient stays in `(0, 1]`.
    pub closed spec fn wf(&self) -> bool {
        0 < self.alpha@ <= SCALE
    }

    /// A new calculator with smoothing coefficient `alpha`, which must lie in
    /// `(0, 1]` — that is, `0 < alpha.raw <= SCALE`.
    pub fn new(alpha: Fixed) -> (r: Ema)
        requires
            0 < alpha@ <= SCALE,
        ensures
            r.wf(),
            r.coeff() == alpha@,
            r.cur() == Option::<int>::None,
    {
        Ema { current: None, alpha }
    }

    /// Feed one sample and return the updated exponential average.
    pub fn next(&mut self, value: Fixed) -> (r: Fixed)
        requires
            old(self).wf(),
        ensures
            final(self).wf(),
            final(self).coeff() == old(self).coeff(),
            r@ == ema_step(old(self).cur(), old(self).coeff(), value@),
            final(self).cur() == Option::Some(r@),
    {
        let updated = match self.current {
            Some(prev) => {
                let d: i128 = value.raw as i128 - prev.raw as i128;
                proof {
                    assert(d * (self.alpha.raw as int) < i128::MAX
                        && d * (self.alpha.raw as int) > i128::MIN) by (nonlinear_arith)
                        requires
                            -0x1_0000_0000_0000_0000 < d < 0x1_0000_0000_0000_0000,
                            0 < self.alpha.raw as int <= 0x4000_0000,
                    ;
                    lemma_tdiv_scale_between(d as int, self.alpha.raw as int, SCALE as int);
                }
                let t: i128 = d * self.alpha.raw as i128;
                let q: i128 = div_trunc(t, SCALE as i128);
                Fixed { raw: (prev.raw as i128 + q) as i64 }
            }
            None => value,
        };
        self.current = Some(updated);
        updated
    }

    /// Forget the held average; the coefficient is kept, and the next sample
    /// seeds the average exactly as on first use.
    pub fn reset(&mut self)
        ensures
            final(self).wf() == old(self).wf(),
            final(self).coeff() == old(self).coeff(),
            final(self).cur() == Option::<int>::None,
    {
        self.current = None;
    }

    /// The current smoothing coefficient.
    pub fn alpha(&self) -> (r: Fixed)
        ensures
            r@ == self.coeff(),
    {
        self.alpha
    }

    /// Replace the smoothing coefficient without touching the held average;
    /// the new coefficient must again lie in `(0, 1]`.
    pub fn set_alpha(&mut self, alpha: Fixed)
        requires
            0 < alpha@ <= SCALE,
        ensures
            final(self).wf(),
            final(self).coeff() == alpha@,
            final(self).cur() == old(self).cur(),
    {
        self.alpha = alpha;
    }
}

} // verus!
