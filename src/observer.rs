//! Measurement probes and the rule that decides on which steps they fire.

use crate::metropolis::State;
use vstd::prelude::*;

verus! {

/// A probe with warm-up offset `after` and stride `every` fires on the
/// 0-based step `i` when `i` is past the warm-up and a multiple of the stride.
pub open spec fn fires(i: int, after: int, every: int) -> bool {
    i > after && i % every == 0
}

/// The steps among `0..steps` on which a probe fires, in increasing order.
pub open spec fn firing_steps(steps: nat, after: int, every: int) -> Seq<int>
    decreases steps,
{
    if steps == 0 {
        seq![]
    } else {
        let before = firing_steps((steps - 1) as nat, after, every);
        if fires(steps - 1, after, every) {
            before.push(steps - 1)
        } else {
            before
        }
    }
}

/// Whether a probe with the given warm-up offset and stride fires on step `i`.
/// The warm-up bound is strict: a probe with `after == 0` does not fire on
/// step 0.
pub fn should_observe(i: usize, after: usize, every: usize) -> (r: bool)
    requires
        every > 0,
    ensures
        r == fires(i as int, after as int, every as int),
{
    i > after && i % every == 0
}

/// A measurement probe, chosen by type.
pub trait Observer<S: State> {
    /// What one measurement yields.
    type Observation;

    /// The warm-up offset.
    spec fn spec_after() -> usize;

    /// The stride.
    spec fn spec_every() -> usize;

    /// What a measurement of `state` under `params` yields.
    spec fn observed(state: S, params: S::Params) -> Self::Observation;

    /// Measures the state as it stands.
    fn measure(state: &S, params: &S::Params) -> (r: Self::Observation)
        ensures
            r == Self::observed(*state, *params),
    ;

    /// The stride: the probe fires only on multiples of it. It is positive.
    fn every() -> (r: usize)
        ensures
            r == Self::spec_every(),
            r > 0,
    ;

    /// The warm-up offset: the probe fires only on later steps.
    fn after() -> (r: usize)
        ensures
            r == Self::spec_after(),
    ;
}

/// A measurement probe as a value yielding observations of type `Obs`, so
/// that probes of several types can share one run.
pub trait DynObserver<S: State, Obs> {
    /// The warm-up offset.
    spec fn dyn_after(&self) -> usize;

    /// The stride.
    spec fn dyn_every(&self) -> usize;

    /// What a measurement of `state` under `params` yields.
    spec fn dyn_observed(&self, state: S, params: S::Params) -> Obs;

    /// Measures the state as it stands.
    fn measure(&self, state: &S, params: &S::Params) -> (r: Obs)
        ensures
            r == self.dyn_observed(*state, *params),
    ;

    /// The stride; it is positive.
    fn every(&self) -> (r: usize)
        ensures
            r == self.dyn_every(),
            r > 0,
    ;

    /// The warm-up offset.
    fn after(&self) -> (r: usize)
        ensures
            r == self.dyn_after(),
    ;
}

impl<O: Observer<S>, S: State> DynObserver<S, O::Observation> for O {
    open spec fn dyn_after(&self) -> usize {
        O::spec_after()
    }

    open spec fn dyn_every(&self) -> usize {
        O::spec_every()
    }

    open spec fn dyn_observed(&self, state: S, params: S::Params) -> O::Observation {
        O::observed(state, params)
    }

    fn measure(&self, state: &S, params: &S::Params) -> (r: O::Observation) {
        O::measure(state, params)
    }

    fn every(&self) -> (r: usize) {
        O::every()
    }

    fn after(&self) -> (r: usize) {
        O::after()
    }
}

} // verus!
