//! Streaming moving averages over a sequence of numeric samples.
//!
//! Three incremental calculators, each a self-contained state machine fed one
//! value at a time:
//!
//! - [`Sma`]: arithmetic mean of the last `n` samples (simple moving average);
//! - [`Ema`]: exponentially weighted average with smoothing coefficient alpha;
//! - [`Rma`]: buffer-seeded rolling average with implicit weight `1 / n`.
//!
//! All three implement the [`MovingAverage`] trait, so callers can hold
//! differently configured calculators behind one interface.
//!
//! Samples and averages are [`fixed::Fixed`] values: exact fixed-point
//! numbers, so every contract states its result exactly.

pub mod ema;
pub mod fixed;
pub mod rma;
pub mod seqs;
pub mod sma;

pub use ema::Ema;
pub use fixed::Fixed;
pub use rma::Rma;
pub use sma::Sma;

use vstd::prelude::*;

verus! {

use crate::ema::ema_step;
use crate::rma::rma_window_step;
use crate::seqs::mean;
use crate::sma::sma_window_step;

/// The capability every calculator offers: feed one sample and get the
/// current average back, or reset to the construction-time state. Each
/// implementation says through `next_rel` and `reset_rel` exactly how its
/// state and result relate to the state before the call, so callers holding
/// any mix of calculators behind this trait keep exact contracts.
pub trait MovingAverage {
    /// Internal consistency, maintained by every call.
    spec fn inv(&self) -> bool;

    /// How the state after one `next` call, and the returned average,
    /// relate to the state before it and the sample fed.
    spec fn next_rel(&self, pre: &Self, value: Fixed, r: Fixed) -> bool;

    /// What a `reset` leaves behind.
    spec fn reset_rel(&self, pre: &Self) -> bool;

    /// Feed one sample and return the current average.
    fn next(&mut self, value: Fixed) -> (r: Fixed)
        requires
            old(self).inv(),
        ensures
            final(self).inv(),
            final(self).next_rel(old(self), value, r),
    ;

    /// Return to the construction-time state.
    fn reset(&mut self)
        requires
            old(self).inv(),
        ensures
            final(self).inv(),
            final(self).reset_rel(old(self)),
    ;
}

impl MovingAverage for Sma {
    open spec fn inv(&self) -> bool {
        self.wf()
    }

    open spec fn next_rel(&self, pre: &Sma, value: Fixed, r: Fixed) -> bool {
        &&& self.n() == pre.n()
        &&& self.window() == sma_window_step(pre.window(), pre.n(), value@)
        &&& r@ == mean(self.window())
    }

    open spec fn reset_rel(&self, pre: &Sma) -> bool {
        self.n() == pre.n() && self.window() == Seq::<int>::empty()
    }

    fn next(&mut self, value: Fixed) -> (r: Fixed) {
        self.next(value)
    }

    fn reset(&mut self) {
        self.reset()
    }
}

impl MovingAverage for Ema {
    open spec fn inv(&self) -> bool {
        self.wf()
    }

    open spec fn next_rel(&self, pre: &Ema, value: Fixed, r: Fixed) -> bool {
        &&& self.coeff() == pre.coeff()
        &&& r@ == ema_step(pre.cur(), pre.coeff(), value@)
        &&& self.cur() == Option::Some(r@)
    }

    open spec fn reset_rel(&self, pre: &Ema) -> bool {
        self.coeff() == pre.coeff() && self.cur() == Option::<int>::None
    }

    fn next(&mut self, value: Fixed) -> (r: Fixed) {
        self.next(value)
    }

    fn reset(&mut self) {
        self.reset()
    }
}

impl MovingAverage for Rma {
    open spec fn inv(&self) -> bool {
        self.wf()
    }

    open spec fn next_rel(&self, pre: &Rma, value: Fixed, r: Fixed) -> bool {
        &&& self.n() == pre.n()
        &&& self.window() == rma_window_step(pre.window(), pre.n(), value@)
        &&& r@ == mean(self.window())
    }

    open spec fn reset_rel(&self, pre: &Rma) -> bool {
        self.n() == pre.n() && self.window() == Seq::<int>::empty()
    }

    fn next(&mut self, value: Fixed) -> (r: Fixed) {
        self.next(value)
    }

    fn reset(&mut self) {
        self.reset()
    }
}

} // verus!

