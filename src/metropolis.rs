//! The Metropolis-Hastings engine.

use crate::observer::{fires, firing_steps, should_observe, DynObserver, Observer};
use crate::rng::try_os_seeded;
use rand::rngs::StdRng;
use vstd::prelude::*;

verus! {

/// A simulated configuration: it computes its own energy and proposes,
/// applies and reverts local changes. Its view is the value that applying
/// and reverting act on.
pub trait State: View + Sized {
    /// External data that the energy function reads.
    type Params;

    /// One proposed mutation; it is used twice, to apply and to revert.
    type Change: Copy;

    /// What the energy function returns.
    type Energy;

    /// The state's own invariant.
    spec fn valid(v: <Self as View>::V) -> bool;

    /// Whether `change` can be applied to a state with view `v`.
    spec fn admits(v: <Self as View>::V, change: Self::Change) -> bool;

    /// The view after applying `change`.
    spec fn applied(v: <Self as View>::V, change: Self::Change) -> <Self as View>::V;

    /// The view after reverting `change`.
    spec fn reverted(v: <Self as View>::V, change: Self::Change) -> <Self as View>::V;

    /// The energy of a state with view `v` under `params`.
    spec fn energy_of(v: <Self as View>::V, params: Self::Params) -> Self::Energy;

    /// The parameters as computing the energy of a state with view `v`
    /// leaves them.
    spec fn params_after(v: <Self as View>::V, params: Self::Params) -> Self::Params;

    /// Reversibility: applying a change to a valid state keeps it valid, and
    /// reverting the change then gives back the state it was applied to.
    proof fn lemma_reversible(v: <Self as View>::V, change: Self::Change)
        requires
            Self::valid(v),
            Self::admits(v, change),
        ensures
            Self::valid(Self::applied(v, change)),
            Self::admits(Self::applied(v, change), change),
            Self::reverted(Self::applied(v, change), change) == v,
    ;

    /// The energy of the state under `params`.
    fn energy(&self, params: &mut Self::Params) -> (r: Self::Energy)
        ensures
            r == Self::energy_of(self@, *old(params)),
            *final(params) == Self::params_after(self@, *old(params)),
    ;

    /// Draws a change that can be applied to this state.
    fn propose_change(&self, rng: &mut StdRng) -> (r: Self::Change)
        requires
            Self::valid(self@),
        ensures
            Self::admits(self@, r),
    ;

    /// Applies `change` in place.
    fn apply_change(&mut self, change: Self::Change)
        requires
            Self::admits(old(self)@, change),
        ensures
            final(self)@ == Self::applied(old(self)@, change),
    ;

    /// Reverts `change` in place.
    fn revert_change(&mut self, change: Self::Change)
        requires
            Self::admits(old(self)@, change),
        ensures
            final(self)@ == Self::reverted(old(self)@, change),
    ;
}

/// The acceptance test of the engine over energies of type `E`, carrying the
/// inverse temperature.
pub trait Acceptance<E>: Sized {
    /// Whether the rule counts the move from energy `before` to `after` as
    /// lowering the energy (a strictly negative difference).
    spec fn lowers(&self, before: E, after: E) -> bool;

    /// Whether moving from energy `before` to `after` lowers the energy.
    fn lowers_energy(&self, before: &E, after: &E) -> (r: bool)
        ensures
            r == self.lowers(*before, *after),
    ;

    /// Draws a uniform `u` in `[0, 1)` and tells whether
    /// `u < exp(-beta * (after - before))`.
    fn accepts_rise(&self, before: &E, after: &E, rng: &mut StdRng) -> bool;

    /// The rule at inverse temperature 1.
    fn unit() -> Self;
}

/// What one step did.
#[derive(Debug, PartialEq, Eq)]
pub struct StepOutcome<C> {
    /// The change that was proposed and applied.
    pub change: C,
    /// Whether it lowered the energy.
    pub lowered: bool,
    /// Whether the acceptance test ran and passed; it runs only for a move
    /// that does not lower the energy.
    pub passed: bool,
    /// Whether it was kept.
    pub accepted: bool,
}

/// One step of the engine under rule `beta` took the state and parameters
/// from `a` to `b` with outcome `o`: the proposed change was admitted and
/// applied; the energies before and after it decided whether it lowered the
/// energy; it was kept exactly when it lowered the energy or passed the
/// acceptance test, which runs only otherwise; a rejected change was
/// reverted; the parameters are as the two energy computations left them.
pub open spec fn step_taken<S: State, B: Acceptance<S::Energy>>(
    beta: B,
    a: (S, S::Params),
    b: (S, S::Params),
    o: StepOutcome<S::Change>,
) -> bool {
    let v = a.0@;
    let w = S::applied(v, o.change);
    let p = S::params_after(v, a.1);
    &&& S::admits(v, o.change)
    &&& o.lowered == beta.lowers(S::energy_of(v, a.1), S::energy_of(w, p))
    &&& !(o.lowered && o.passed)
    &&& o.accepted == (o.lowered || o.passed)
    &&& b.0@ == (if o.accepted { w } else { v })
    &&& b.1 == S::params_after(w, p)
}

/// How many of the outcomes kept their move.
pub open spec fn accepted_count<C>(o: Seq<StepOutcome<C>>) -> nat
    decreases o.len(),
{
    if o.len() == 0 {
        0
    } else {
        accepted_count(o.drop_last()) + if o.last().accepted {
            1nat
        } else {
            0nat
        }
    }
}

/// A run of `n` steps under rule `beta` from `(s0, p0)` to `(s1, p1)`: `t`
/// holds the state and parameters before each step and after the last, `o`
/// the outcome of each step; every state is valid and each step is a step of
/// the engine.
pub open spec fn runs_between<S: State, B: Acceptance<S::Energy>>(
    t: Seq<(S, S::Params)>,
    o: Seq<StepOutcome<S::Change>>,
    n: nat,
    beta: B,
    s0: S,
    p0: S::Params,
    s1: S,
    p1: S::Params,
) -> bool {
    &&& t.len() == n + 1
    &&& o.len() == n
    &&& t[0] == (s0, p0)
    &&& t[n as int] == (s1, p1)
    &&& forall|k: int| 0 <= k <= n ==> S::valid(#[trigger] t[k].0@)
    &&& forall|k: int| 0 <= k < n ==> #[trigger] step_taken::<S, B>(beta, t[k], t[k + 1], o[k])
}

/// `r` holds, in order, what `observe` yields on the trace `t` at the steps
/// `at`.
pub open spec fn measured<S: State, Obs>(
    t: Seq<(S, S::Params)>,
    r: Seq<Obs>,
    at: Seq<int>,
    observe: spec_fn(S, S::Params) -> Obs,
) -> bool {
    &&& r.len() == at.len()
    &&& forall|m: int| 0 <= m < r.len() ==> #[trigger] r[m] == observe(t[at[m]].0, t[at[m]].1)
}

/// A run followed by one more step of the engine is a run one step longer.
proof fn lemma_extend_run<S: State, B: Acceptance<S::Energy>>(
    t: Seq<(S, S::Params)>,
    o: Seq<StepOutcome<S::Change>>,
    n: nat,
    beta: B,
    s0: S,
    p0: S::Params,
    next: (S, S::Params),
    out: StepOutcome<S::Change>,
)
    requires
        runs_between::<S, B>(t, o, n, beta, s0, p0, t[n as int].0, t[n as int].1),
        step_taken::<S, B>(beta, t[n as int], next, out),
        S::valid(next.0@),
    ensures
        runs_between::<S, B>(t.push(next), o.push(out), n + 1, beta, s0, p0, next.0, next.1),
        accepted_count(o.push(out)) == accepted_count(o) + if out.accepted {
            1nat
        } else {
            0nat
        },
{
    let t2 = t.push(next);
    let o2 = o.push(out);
    assert(o2.drop_last() =~= o);
    assert forall|k: int| 0 <= k <= n + 1 implies S::valid(#[trigger] t2[k].0@) by {
        if k <= n {
            assert(t2[k] == t[k]);
        }
    }
    assert forall|k: int| 0 <= k < n + 1 implies #[trigger] step_taken::<S, B>(beta, t2[k], t2[k + 1], o2[k]) by {
        if k < n {
            assert(t2[k] == t[k] && t2[k + 1] == t[k + 1] && o2[k] == o[k]);
        }
    }
}

/// Steps `0..i` of a run only take measurements at steps below `i`.
proof fn lemma_firing_below(i: nat, after: int, every: int)
    ensures
        forall|m: int| 0 <= m < firing_steps(i, after, every).len() ==> 0 <= #[trigger] firing_steps(i, after, every)[m] < i,
    decreases i,
{
    if i > 0 {
        lemma_firing_below((i - 1) as nat, after, every);
        let before = firing_steps((i - 1) as nat, after, every);
        assert forall|m: int| 0 <= m < firing_steps(i, after, every).len() implies 0
            <= #[trigger] firing_steps(i, after, every)[m] < i by {
            if m < before.len() {
                assert(firing_steps(i, after, every)[m] == before[m]);
            }
        }
    }
}

/// A record over `i` steps, extended by what `observe` yields on step `i`
/// where the probe fires there, is the record over `i + 1` steps.
proof fn lemma_record_next<S: State, Obs>(
    t: Seq<(S, S::Params)>,
    r: Seq<Obs>,
    next: Seq<Obs>,
    i: nat,
    after: int,
    every: int,
    observe: spec_fn(S, S::Params) -> Obs,
)
    requires
        measured::<S, Obs>(t, r, firing_steps(i, after, every), observe),
        i < t.len(),
        next == (if fires(i as int, after, every) {
            r.push(observe(t[i as int].0, t[i as int].1))
        } else {
            r
        }),
    ensures
        measured::<S, Obs>(t, next, firing_steps(i + 1, after, every), observe),
{
    let before = firing_steps(i, after, every);
    let at = firing_steps(i + 1, after, every);
    assert(at == if fires(i as int, after, every) {
        before.push(i as int)
    } else {
        before
    });
    assert forall|m: int| 0 <= m < next.len() implies #[trigger] next[m] == observe(t[at[m]].0, t[at[m]].1) by {
        if m < r.len() {
            assert(at[m] == before[m]);
            assert(next[m] == r[m]);
        }
    }
}

/// A record over the first `n` steps of a trace stays one over any extension
/// of the trace.
proof fn lemma_record_extend<S: State, Obs>(
    t: Seq<(S, S::Params)>,
    longer: Seq<(S, S::Params)>,
    r: Seq<Obs>,
    n: nat,
    after: int,
    every: int,
    observe: spec_fn(S, S::Params) -> Obs,
)
    requires
        measured::<S, Obs>(t, r, firing_steps(n, after, every), observe),
        n <= t.len() <= longer.len(),
        forall|k: int| 0 <= k < t.len() ==> longer[k] == t[k],
    ensures
        measured::<S, Obs>(longer, r, firing_steps(n, after, every), observe),
{
    let at = firing_steps(n, after, every);
    lemma_firing_below(n, after, every);
    assert forall|m: int| 0 <= m < r.len() implies #[trigger] r[m] == observe(longer[at[m]].0, longer[at[m]].1) by {
        assert(0 <= at[m] < n);
        assert(longer[at[m]] == t[at[m]]);
    }
}

/// One engine instance: it owns its state, parameters, acceptance rule,
/// step budget, count of accepted moves and random source.
pub struct Metropolis<S: State, B> {
    pub state: S,
    pub params: S::Params,
    pub beta: B,
    pub steps: usize,
    pub accepted_moves: usize,
    pub rng: StdRng,
}

impl<S: State, B: Acceptance<S::Energy>> Metropolis<S, B> where S: Default, S::Params: Default {
    /// An engine over the default state and parameters, with a random source
    /// seeded from the operating system; `None` when the operating system
    /// gives no entropy.
    pub fn with_steps(beta: B, steps: usize) -> (r: Option<Self>)
        ensures
            r.is_some() ==> r.unwrap().beta == beta && r.unwrap().steps == steps && r.unwrap().accepted_moves == 0,
    {
        match try_os_seeded() {
            Some(rng) => Some(Self::with_rng(beta, steps, rng)),
            None => None,
        }
    }

    /// As `with_steps`, at inverse temperature 1.
    pub fn with_steps_no_beta(steps: usize) -> (r: Option<Self>)
        ensures
            r.is_some() ==> r.unwrap().steps == steps && r.unwrap().accepted_moves == 0,
    {
        Self::with_steps(B::unit(), steps)
    }

    /// An engine over the default state and parameters with the given
    /// random source.
    pub fn with_rng(beta: B, steps: usize, rng: StdRng) -> (r: Self)
        ensures
            r.beta == beta,
            r.steps == steps,
            r.accepted_moves == 0,
            r.rng == rng,
    {
        Self::with_all(S::default(), S::Params::default(), beta, steps, rng)
    }

    /// As `with_rng`, at inverse temperature 1.
    pub fn with_rng_no_beta(steps: usize, rng: StdRng) -> (r: Self)
        ensures
            r.steps == steps,
            r.accepted_moves == 0,
            r.rng == rng,
    {
        Self::with_rng(B::unit(), steps, rng)
    }
}

impl<S: State, B: Acceptance<S::Energy>> Metropolis<S, B> where S::Params: Default {
    /// An engine over `state` with default parameters and a random source
    /// seeded from the operating system; `None` when the operating system
    /// gives no entropy.
    pub fn with_state(state: S, beta: B, steps: usize) -> (r: Option<Self>)
        ensures
            r.is_some() ==> r.unwrap().state == state && r.unwrap().beta == beta && r.unwrap().steps == steps
                && r.unwrap().accepted_moves == 0,
    {
        Self::with_state_params(state, S::Params::default(), beta, steps)
    }

    /// As `with_state`, at inverse temperature 1.
    pub fn with_state_no_beta(state: S, steps: usize) -> (r: Option<Self>)
        ensures
            r.is_some() ==> r.unwrap().state == state && r.unwrap().steps == steps && r.unwrap().accepted_moves
                == 0,
    {
        Self::with_state(state, B::unit(), steps)
    }

    /// An engine over `state` with default parameters and the given random
    /// source.
    pub fn with_state_rng(state: S, beta: B, steps: usize, rng: StdRng) -> (r: Self)
        ensures
            r.state == state,
            r.beta == beta,
            r.steps == steps,
            r.accepted_moves == 0,
            r.rng == rng,
    {
        Self::with_all(state, S::Params::default(), beta, steps, rng)
    }

    /// As `with_state_rng`, at inverse temperature 1.
    pub fn with_state_rng_no_beta(state: S, steps: usize, rng: StdRng) -> (r: Self)
        ensures
            r.state == state,
            r.steps == steps,
            r.accepted_moves == 0,
            r.rng == rng,
    {
        Self::with_state_rng(state, B::unit(), steps, rng)
    }
}

impl<S: State, B: Acceptance<S::Energy>> Metropolis<S, B> {
    /// An engine over `state` and `params` with a random source seeded from
    /// the operating system; `None` when the operating system gives no
    /// entropy.
    pub fn with_state_params(state: S, params: S::Params, beta: B, steps: usize) -> (r: Option<Self>)
        ensures
            r.is_some() ==> r.unwrap().state == state && r.unwrap().params == params && r.unwrap().beta == beta
                && r.unwrap().steps == steps && r.unwrap().accepted_moves == 0,
    {
        match try_os_seeded() {
            Some(rng) => Some(Self::with_all(state, params, beta, steps, rng)),
            None => None,
        }
    }

    /// As `with_state_params`, at inverse temperature 1.
    pub fn with_state_params_no_beta(state: S, params: S::Params, steps: usize) -> (r: Option<Self>)
        ensures
            r.is_some() ==> r.unwrap().state == state && r.unwrap().params == params && r.unwrap().steps == steps
                && r.unwrap().accepted_moves == 0,
    {
        Self::with_state_params(state, params, B::unit(), steps)
    }

    /// An engine over `state` with every part given; no move accepted yet.
    pub fn with_all(state: S, params: S::Params, beta: B, steps: usize, rng: StdRng) -> (r: Self)
        ensures
            r.state == state,
            r.params == params,
            r.beta == beta,
            r.steps == steps,
            r.accepted_moves == 0,
            r.rng == rng,
    {
        Metropolis { state, params, beta, steps, accepted_moves: 0, rng }
    }

    /// As `with_all`, at inverse temperature 1.
    pub fn with_all_no_beta(state: S, params: S::Params, steps: usize, rng: StdRng) -> (r: Self)
        ensures
            r.state == state,
            r.params == params,
            r.steps == steps,
            r.accepted_moves == 0,
            r.rng == rng,
    {
        Self::with_all(state, params, B::unit(), steps, rng)
    }

    /// One Metropolis step: propose a change, apply it, and keep it if it
    /// lowers the energy or, failing that, passes the acceptance test;
    /// revert it otherwise.
    pub fn step(&mut self) -> (r: StepOutcome<S::Change>)
        requires
            S::valid(old(self).state@),
            old(self).accepted_moves < usize::MAX,
        ensures
            S::valid(final(self).state@),
            step_taken::<S, B>(
                old(self).beta,
                (old(self).state, old(self).params),
                (final(self).state, final(self).params),
                r,
            ),
            r.lowered ==> r.accepted,
            !r.lowered ==> r.accepted == r.passed,
            final(self).accepted_moves == old(self).accepted_moves + if r.accepted {
                1int
            } else {
                0int
            },
            final(self).beta == old(self).beta,
            final(self).steps == old(self).steps,
    {
        let ghost before = self.state@;
        let change = self.state.propose_change(&mut self.rng);
        let old_energy = self.state.energy(&mut self.params);
        self.state.apply_change(change);
        let new_energy = self.state.energy(&mut self.params);
        let lowered = self.beta.lowers_energy(&old_energy, &new_energy);
        let passed = if lowered {
            false
        } else {
            self.beta.accepts_rise(&old_energy, &new_energy, &mut self.rng)
        };
        let accepted = lowered || passed;
        proof {
            S::lemma_reversible(before, change);
        }
        if accepted {
            self.accepted_moves = self.accepted_moves + 1;
        } else {
            self.state.revert_change(change);
        }
        StepOutcome { change, lowered, passed, accepted }
    }

    /// Runs the whole step budget with no probe: exactly `steps` steps.
    pub fn run_empty(&mut self)
        requires
            S::valid(old(self).state@),
            old(self).accepted_moves + old(self).steps <= usize::MAX,
        ensures
            S::valid(final(self).state@),
            final(self).beta == old(self).beta,
            final(self).steps == old(self).steps,
            old(self).accepted_moves <= final(self).accepted_moves,
            final(self).accepted_moves <= old(self).accepted_moves + old(self).steps,
            exists|t: Seq<(S, S::Params)>, o: Seq<StepOutcome<S::Change>>|
                #[trigger] runs_between::<S, B>(
                    t,
                    o,
                    old(self).steps as nat,
                    old(self).beta,
                    old(self).state,
                    old(self).params,
                    final(self).state,
                    final(self).params,
                ) && final(self).accepted_moves == old(self).accepted_moves + accepted_count(o),
    {
        let ghost start = self.accepted_moves;
        let ghost budget = self.steps;
        let ghost beta0 = self.beta;
        let ghost s0 = self.state;
        let ghost p0 = self.params;
        let ghost mut t: Seq<(S, S::Params)> = seq![(self.state, self.params)];
        let ghost mut o: Seq<StepOutcome<S::Change>> = seq![];
        let mut i: usize = 0;
        while i < self.steps
            invariant
                i <= self.steps,
                S::valid(self.state@),
                self.steps == budget,
                self.beta == beta0,
                start + self.steps <= usize::MAX,
                start <= self.accepted_moves <= start + i,
                self.accepted_moves == start + accepted_count(o),
                runs_between::<S, B>(t, o, i as nat, beta0, s0, p0, self.state, self.params),
            decreases self.steps - i,
        {
            let outcome = self.step();
            proof {
                lemma_extend_run::<S, B>(t, o, i as nat, beta0, s0, p0, (self.state, self.params), outcome);
                t = t.push((self.state, self.params));
                o = o.push(outcome);
            }
            i = i + 1;
        }
    }

    /// Runs the whole step budget with one probe, measuring the state before
    /// each step on which the probe fires.
    pub fn run_with<O: Observer<S>>(&mut self) -> (r: Vec<O::Observation>)
        requires
            S::valid(old(self).state@),
            old(self).accepted_moves + old(self).steps <= usize::MAX,
        ensures
            S::valid(final(self).state@),
            final(self).beta == old(self).beta,
            final(self).steps == old(self).steps,
            old(self).accepted_moves <= final(self).accepted_moves,
            final(self).accepted_moves <= old(self).accepted_moves + old(self).steps,
            exists|t: Seq<(S, S::Params)>, o: Seq<StepOutcome<S::Change>>|
                #[trigger] runs_between::<S, B>(
                    t,
                    o,
                    old(self).steps as nat,
                    old(self).beta,
                    old(self).state,
                    old(self).params,
                    final(self).state,
                    final(self).params,
                ) && final(self).accepted_moves == old(self).accepted_moves + accepted_count(o)
                && measured::<S, O::Observation>(
                    t,
                    r@,
                    firing_steps(old(self).steps as nat, O::spec_after() as int, O::spec_every() as int),
                    |s: S, p: S::Params| O::observed(s, p),
                ),
    {
        let ghost start = self.accepted_moves;
        let ghost budget = self.steps;
        let ghost beta0 = self.beta;
        let ghost s0 = self.state;
        let ghost p0 = self.params;
        let ghost mut t: Seq<(S, S::Params)> = seq![(self.state, self.params)];
        let ghost mut o: Seq<StepOutcome<S::Change>> = seq![];
        let mut measures: Vec<O::Observation> = Vec::new();
        let mut i: usize = 0;
        while i < self.steps
            invariant
                i <= self.steps,
                S::valid(self.state@),
                self.steps == budget,
                self.beta == beta0,
                start + self.steps <= usize::MAX,
                start <= self.accepted_moves <= start + i,
                self.accepted_moves == start + accepted_count(o),
                runs_between::<S, B>(t, o, i as nat, beta0, s0, p0, self.state, self.params),
                measured::<S, O::Observation>(
                    t,
                    measures@,
                    firing_steps(i as nat, O::spec_after() as int, O::spec_every() as int),
                    |s: S, p: S::Params| O::observed(s, p),
                ),
            decreases self.steps - i,
        {
            proof {
                lemma_firing_below(i as nat, O::spec_after() as int, O::spec_every() as int);
            }
            if should_observe(i, O::after(), O::every()) {
                measures.push(O::measure(&self.state, &self.params));
            }
            let outcome = self.step();
            proof {
                lemma_extend_run::<S, B>(t, o, i as nat, beta0, s0, p0, (self.state, self.params), outcome);
                t = t.push((self.state, self.params));
                o = o.push(outcome);
            }
            i = i + 1;
        }
        measures
    }

    /// Runs the whole step budget with two probes; each measures the state
    /// before the steps on which it fires.
    pub fn run_with_2<O1, O2>(&mut self) -> (r: (Vec<O1::Observation>, Vec<O2::Observation>))
        where
            O1: Observer<S>,
            O2: Observer<S>,
        requires
            S::valid(old(self).state@),
            old(self).accepted_moves + old(self).steps <= usize::MAX,
        ensures
            S::valid(final(self).state@),
            final(self).beta == old(self).beta,
            final(self).steps == old(self).steps,
            old(self).accepted_moves <= final(self).accepted_moves,
            final(self).accepted_moves <= old(self).accepted_moves + old(self).steps,
            exists|t: Seq<(S, S::Params)>, o: Seq<StepOutcome<S::Change>>|
                #[trigger] runs_between::<S, B>(
                    t,
                    o,
                    old(self).steps as nat,
                    old(self).beta,
                    old(self).state,
                    old(self).params,
                    final(self).state,
                    final(self).params,
                ) && final(self).accepted_moves == old(self).accepted_moves + accepted_count(o)
                && measured::<S, O1::Observation>(
                    t,
                    r.0@,
                    firing_steps(old(self).steps as nat, O1::spec_after() as int, O1::spec_every() as int),
                    |s: S, p: S::Params| O1::observed(s, p),
                )
                && measured::<S, O2::Observation>(
                    t,
                    r.1@,
                    firing_steps(old(self).steps as nat, O2::spec_after() as int, O2::spec_every() as int),
                    |s: S, p: S::Params| O2::observed(s, p),
                ),
    {
        let ghost start = self.accepted_moves;
        let ghost budget = self.steps;
        let ghost beta0 = self.beta;
        let ghost s0 = self.state;
        let ghost p0 = self.params;
        let ghost mut t: Seq<(S, S::Params)> = seq![(self.state, self.params)];
        let ghost mut o: Seq<StepOutcome<S::Change>> = seq![];
        let mut m1: Vec<O1::Observation> = Vec::new();
        let mut m2: Vec<O2::Observation> = Vec::new();
        let mut i: usize = 0;
        while i < self.steps
            invariant
                i <= self.steps,
                S::valid(self.state@),
                self.steps == budget,
                self.beta == beta0,
                start + self.steps <= usize::MAX,
                start <= self.accepted_moves <= start + i,
                self.accepted_moves == start + accepted_count(o),
                runs_between::<S, B>(t, o, i as nat, beta0, s0, p0, self.state, self.params),
                measured::<S, O1::Observation>(
                    t,
                    m1@,
                    firing_steps(i as nat, O1::spec_after() as int, O1::spec_every() as int),
                    |s: S, p: S::Params| O1::observed(s, p),
                ),
                measured::<S, O2::Observation>(
                    t,
                    m2@,
                    firing_steps(i as nat, O2::spec_after() as int, O2::spec_every() as int),
                    |s: S, p: S::Params| O2::observed(s, p),
                ),
            decreases self.steps - i,
        {
            proof {
                lemma_firing_below(i as nat, O1::spec_after() as int, O1::spec_every() as int);
                lemma_firing_below(i as nat, O2::spec_after() as int, O2::spec_every() as int);
            }
            if should_observe(i, O1::after(), O1::every()) {
                m1.push(O1::measure(&self.state, &self.params));
            }
            if should_observe(i, O2::after(), O2::every()) {
                m2.push(O2::measure(&self.state, &self.params));
            }
            let outcome = self.step();
            proof {
                lemma_extend_run::<S, B>(t, o, i as nat, beta0, s0, p0, (self.state, self.params), outcome);
                t = t.push((self.state, self.params));
                o = o.push(outcome);
            }
            i = i + 1;
        }
        (m1, m2)
    }

    /// Runs the whole step budget with three probes; each measures the state
    /// before the steps on which it fires.
    pub fn run_with_3<O1, O2, O3>(&mut self) -> (r: (Vec<O1::Observation>, Vec<O2::Observation>, Vec<O3::Observation>))
        where
            O1: Observer<S>,
            O2: Observer<S>,
            O3: Observer<S>,
        requires
            S::valid(old(self).state@),
            old(self).accepted_moves + old(self).steps <= usize::MAX,
        ensures
            S::valid(final(self).state@),
            final(self).beta == old(self).beta,
            final(self).steps == old(self).steps,
            old(self).accepted_moves <= final(self).accepted_moves,
            final(self).accepted_moves <= old(self).accepted_moves + old(self).steps,
            exists|t: Seq<(S, S::Params)>, o: Seq<StepOutcome<S::Change>>|
                #[trigger] runs_between::<S, B>(
                    t,
                    o,
                    old(self).steps as nat,
                    old(self).beta,
                    old(self).state,
                    old(self).params,
                    final(self).state,
                    final(self).params,
                ) && final(self).accepted_moves == old(self).accepted_moves + accepted_count(o)
                && measured::<S, O1::Observation>(
                    t,
                    r.0@,
                    firing_steps(old(self).steps as nat, O1::spec_after() as int, O1::spec_every() as int),
                    |s: S, p: S::Params| O1::observed(s, p),
                )
                && measured::<S, O2::Observation>(
                    t,
                    r.1@,
                    firing_steps(old(self).steps as nat, O2::spec_after() as int, O2::spec_every() as int),
                    |s: S, p: S::Params| O2::observed(s, p),
                )
                && measured::<S, O3::Observation>(
                    t,
                    r.2@,
                    firing_steps(old(self).steps as nat, O3::spec_after() as int, O3::spec_every() as int),
                    |s: S, p: S::Params| O3::observed(s, p),
                ),
    {
        let ghost start = self.accepted_moves;
        let ghost budget = self.steps;
        let ghost beta0 = self.beta;
        let ghost s0 = self.state;
        let ghost p0 = self.params;
        let ghost mut t: Seq<(S, S::Params)> = seq![(self.state, self.params)];
        let ghost mut o: Seq<StepOutcome<S::Change>> = seq![];
        let mut m1: Vec<O1::Observation> = Vec::new();
        let mut m2: Vec<O2::Observation> = Vec::new();
        let mut m3: Vec<O3::Observation> = Vec::new();
        let mut i: usize = 0;
        while i < self.steps
            invariant
                i <= self.steps,
                S::valid(self.state@),
                self.steps == budget,
                self.beta == beta0,
                start + self.steps <= usize::MAX,
                start <= self.accepted_moves <= start + i,
                self.accepted_moves == start + accepted_count(o),
                runs_between::<S, B>(t, o, i as nat, beta0, s0, p0, self.state, self.params),
                measured::<S, O1::Observation>(
                    t,
                    m1@,
                    firing_steps(i as nat, O1::spec_after() as int, O1::spec_every() as int),
                    |s: S, p: S::Params| O1::observed(s, p),
                ),
                measured::<S, O2::Observation>(
                    t,
                    m2@,
                    firing_steps(i as nat, O2::spec_after() as int, O2::spec_every() as int),
                    |s: S, p: S::Params| O2::observed(s, p),
                ),
                measured::<S, O3::Observation>(
                    t,
                    m3@,
                    firing_steps(i as nat, O3::spec_after() as int, O3::spec_every() as int),
                    |s: S, p: S::Params| O3::observed(s, p),
                ),
            decreases self.steps - i,
        {
            proof {
                lemma_firing_below(i as nat, O1::spec_after() as int, O1::spec_every() as int);
                lemma_firing_below(i as nat, O2::spec_after() as int, O2::spec_every() as int);
                lemma_firing_below(i as nat, O3::spec_after() as int, O3::spec_every() as int);
            }
            if should_observe(i, O1::after(), O1::every()) {
                m1.push(O1::measure(&self.state, &self.params));
            }
            if should_observe(i, O2::after(), O2::every()) {
                m2.push(O2::measure(&self.state, &self.params));
            }
            if should_observe(i, O3::after(), O3::every()) {
                m3.push(O3::measure(&self.state, &self.params));
            }
            let outcome = self.step();
            proof {
                lemma_extend_run::<S, B>(t, o, i as nat, beta0, s0, p0, (self.state, self.params), outcome);
                t = t.push((self.state, self.params));
                o = o.push(outcome);
            }
            i = i + 1;
        }
        (m1, m2, m3)
    }

    /// Runs the whole step budget with four probes; each measures the state
    /// before the steps on which it fires.
    pub fn run_with_4<O1, O2, O3, O4>(&mut self) -> (r: (Vec<O1::Observation>, Vec<O2::Observation>, Vec<O3::Observation>, Vec<O4::Observation>))
        where
            O1: Observer<S>,
            O2: Observer<S>,
            O3: Observer<S>,
            O4: Observer<S>,
        requires
            S::valid(old(self).state@),
            old(self).accepted_moves + old(self).steps <= usize::MAX,
        ensures
            S::valid(final(self).state@),
            final(self).beta == old(self).beta,
            final(self).steps == old(self).steps,
            old(self).accepted_moves <= final(self).accepted_moves,
            final(self).accepted_moves <= old(self).accepted_moves + old(self).steps,
            exists|t: Seq<(S, S::Params)>, o: Seq<StepOutcome<S::Change>>|
                #[trigger] runs_between::<S, B>(
                    t,
                    o,
                    old(self).steps as nat,
                    old(self).beta,
                    old(self).state,
                    old(self).params,
                    final(self).state,
                    final(self).params,
                ) && final(self).accepted_moves == old(self).accepted_moves + accepted_count(o)
                && measured::<S, O1::Observation>(
                    t,
                    r.0@,
                    firing_steps(old(self).steps as nat, O1::spec_after() as int, O1::spec_every() as int),
                    |s: S, p: S::Params| O1::observed(s, p),
                )
                && measured::<S, O2::Observation>(
                    t,
                    r.1@,
                    firing_steps(old(self).steps as nat, O2::spec_after() as int, O2::spec_every() as int),
                    |s: S, p: S::Params| O2::observed(s, p),
                )
                && measured::<S, O3::Observation>(
                    t,
                    r.2@,
                    firing_steps(old(self).steps as nat, O3::spec_after() as int, O3::spec_every() as int),
                    |s: S, p: S::Params| O3::observed(s, p),
                )
                && measured::<S, O4::Observation>(
                    t,
                    r.3@,
                    firing_steps(old(self).steps as nat, O4::spec_after() as int, O4::spec_every() as int),
                    |s: S, p: S::Params| O4::observed(s, p),
                ),
    {
        let ghost start = self.accepted_moves;
        let ghost budget = self.steps;
        let ghost beta0 = self.beta;
        let ghost s0 = self.state;
        let ghost p0 = self.params;
        let ghost mut t: Seq<(S, S::Params)> = seq![(self.state, self.params)];
        let ghost mut o: Seq<StepOutcome<S::Change>> = seq![];
        let mut m1: Vec<O1::Observation> = Vec::new();
        let mut m2: Vec<O2::Observation> = Vec::new();
        let mut m3: Vec<O3::Observation> = Vec::new();
        let mut m4: Vec<O4::Observation> = Vec::new();
        let mut i: usize = 0;
        while i < self.steps
            invariant
                i <= self.steps,
                S::valid(self.state@),
                self.steps == budget,
                self.beta == beta0,
                start + self.steps <= usize::MAX,
                start <= self.accepted_moves <= start + i,
                self.accepted_moves == start + accepted_count(o),
                runs_between::<S, B>(t, o, i as nat, beta0, s0, p0, self.state, self.params),
                measured::<S, O1::Observation>(
                    t,
                    m1@,
                    firing_steps(i as nat, O1::spec_after() as int, O1::spec_every() as int),
                    |s: S, p: S::Params| O1::observed(s, p),
                ),
                measured::<S, O2::Observation>(
                    t,
                    m2@,
                    firing_steps(i as nat, O2::spec_after() as int, O2::spec_every() as int),
                    |s: S, p: S::Params| O2::observed(s, p),
                ),
                measured::<S, O3::Observation>(
                    t,
                    m3@,
                    firing_steps(i as nat, O3::spec_after() as int, O3::spec_every() as int),
                    |s: S, p: S::Params| O3::observed(s, p),
                ),
                measured::<S, O4::Observation>(
                    t,
                    m4@,
                    firing_steps(i as nat, O4::spec_after() as int, O4::spec_every() as int),
                    |s: S, p: S::Params| O4::observed(s, p),
                ),
            decreases self.steps - i,
        {
            proof {
                lemma_firing_below(i as nat, O1::spec_after() as int, O1::spec_every() as int);
                lemma_firing_below(i as nat, O2::spec_after() as int, O2::spec_every() as int);
                lemma_firing_below(i as nat, O3::spec_after() as int, O3::spec_every() as int);
                lemma_firing_below(i as nat, O4::spec_after() as int, O4::spec_every() as int);
            }
            if should_observe(i, O1::after(), O1::every()) {
                m1.push(O1::measure(&self.state, &self.params));
            }
            if should_observe(i, O2::after(), O2::every()) {
                m2.push(O2::measure(&self.state, &self.params));
            }
            if should_observe(i, O3::after(), O3::every()) {
                m3.push(O3::measure(&self.state, &self.params));
            }
            if should_observe(i, O4::after(), O4::every()) {
                m4.push(O4::measure(&self.state, &self.params));
            }
            let outcome = self.step();
            proof {
                lemma_extend_run::<S, B>(t, o, i as nat, beta0, s0, p0, (self.state, self.params), outcome);
                t = t.push((self.state, self.params));
                o = o.push(outcome);
            }
            i = i + 1;
        }
        (m1, m2, m3, m4)
    }

    /// Runs the whole step budget with a runtime-sized set of probes that
    /// share one observation type; each gets its own sequence of
    /// measurements, in the order the probes are given.
    pub fn run_with_n<Obs>(
        &mut self,
        obs: Vec<Box<dyn DynObserver<S, Obs>>>,
    ) -> (r: Vec<Vec<Obs>>)
        requires
            S::valid(old(self).state@),
            old(self).accepted_moves + old(self).steps <= usize::MAX,
        ensures
            r@.len() == obs@.len(),
            S::valid(final(self).state@),
            final(self).beta == old(self).beta,
            final(self).steps == old(self).steps,
            old(self).accepted_moves <= final(self).accepted_moves,
            final(self).accepted_moves <= old(self).accepted_moves + old(self).steps,
            exists|t: Seq<(S, S::Params)>, o: Seq<StepOutcome<S::Change>>|
                #[trigger] runs_between::<S, B>(
                    t,
                    o,
                    old(self).steps as nat,
                    old(self).beta,
                    old(self).state,
                    old(self).params,
                    final(self).state,
                    final(self).params,
                ) && final(self).accepted_moves == old(self).accepted_moves + accepted_count(o) && forall|j: int|
                    0 <= j < obs@.len() ==> measured::<S, Obs>(
                        t,
                        #[trigger] r@[j]@,
                        firing_steps(old(self).steps as nat, obs@[j].dyn_after() as int, obs@[j].dyn_every() as int),
                        |s: S, p: S::Params| obs@[j].dyn_observed(s, p),
                    ),
    {
        let ghost start = self.accepted_moves;
        let ghost budget = self.steps;
        let ghost beta0 = self.beta;
        let ghost s0 = self.state;
        let ghost p0 = self.params;
        let ghost mut t: Seq<(S, S::Params)> = seq![(self.state, self.params)];
        let ghost mut o: Seq<StepOutcome<S::Change>> = seq![];
        let mut measures: Vec<Vec<Obs>> = Vec::new();
        let mut k: usize = 0;
        while k < obs.len()
            invariant
                k <= obs@.len(),
                measures@.len() == k,
                forall|j: int| 0 <= j < k ==> #[trigger] measures@[j]@.len() == 0,
            decreases obs.len() - k,
        {
            measures.push(Vec::new());
            k = k + 1;
        }
        assert forall|j: int| 0 <= j < obs@.len() implies measured::<S, Obs>(
            t,
            #[trigger] measures@[j]@,
            firing_steps(0, obs@[j].dyn_after() as int, obs@[j].dyn_every() as int),
            |s: S, p: S::Params| obs@[j].dyn_observed(s, p),
        ) by {
            assert(measures@[j]@.len() == 0);
        }
        let mut i: usize = 0;
        while i < self.steps
            invariant
                i <= self.steps,
                S::valid(self.state@),
                self.steps == budget,
                self.beta == beta0,
                start + self.steps <= usize::MAX,
                start <= self.accepted_moves <= start + i,
                self.accepted_moves == start + accepted_count(o),
                runs_between::<S, B>(t, o, i as nat, beta0, s0, p0, self.state, self.params),
                measures@.len() == obs@.len(),
                forall|j: int|
                    0 <= j < obs@.len() ==> measured::<S, Obs>(
                        t,
                        #[trigger] measures@[j]@,
                        firing_steps(i as nat, obs@[j].dyn_after() as int, obs@[j].dyn_every() as int),
                        |s: S, p: S::Params| obs@[j].dyn_observed(s, p),
                    ),
            decreases self.steps - i,
        {
            let mut j: usize = 0;
            while j < obs.len()
                invariant
                    i < self.steps,
                    S::valid(self.state@),
                    self.steps == budget,
                    self.beta == beta0,
                    start + self.steps <= usize::MAX,
                    start <= self.accepted_moves <= start + i,
                    self.accepted_moves == start + accepted_count(o),
                    runs_between::<S, B>(t, o, i as nat, beta0, s0, p0, self.state, self.params),
                    j <= obs@.len(),
                    measures@.len() == obs@.len(),
                    forall|m: int|
                        0 <= m < j ==> measured::<S, Obs>(
                            t,
                            #[trigger] measures@[m]@,
                            firing_steps((i + 1) as nat, obs@[m].dyn_after() as int, obs@[m].dyn_every() as int),
                            |s: S, p: S::Params| obs@[m].dyn_observed(s, p),
                        ),
                    forall|m: int|
                        j <= m < obs@.len() ==> measured::<S, Obs>(
                            t,
                            #[trigger] measures@[m]@,
                            firing_steps(i as nat, obs@[m].dyn_after() as int, obs@[m].dyn_every() as int),
                            |s: S, p: S::Params| obs@[m].dyn_observed(s, p),
                        ),
                decreases obs.len() - j,
            {
                let o = &obs[j];
                let ghost before = measures@[j as int]@;
                if should_observe(i, o.after(), o.every()) {
                    let measure = o.measure(&self.state, &self.params);
                    measures[j].push(measure);
                }
                proof {
                    lemma_record_next::<S, Obs>(
                        t,
                        before,
                        measures@[j as int]@,
                        i as nat,
                        obs@[j as int].dyn_after() as int,
                        obs@[j as int].dyn_every() as int,
                        |s: S, p: S::Params| obs@[j as int].dyn_observed(s, p),
                    );
                }
                j = j + 1;
            }
            let ghost shorter = t;
            let outcome = self.step();
            proof {
                lemma_extend_run::<S, B>(t, o, i as nat, beta0, s0, p0, (self.state, self.params), outcome);
                t = t.push((self.state, self.params));
                o = o.push(outcome);
            }

            assert forall|j: int| 0 <= j < obs@.len() implies measured::<S, Obs>(
                t,
                #[trigger] measures@[j]@,
                firing_steps((i + 1) as nat, obs@[j].dyn_after() as int, obs@[j].dyn_every() as int),
                |s: S, p: S::Params| obs@[j].dyn_observed(s, p),
            ) by {
                lemma_record_extend::<S, Obs>(
                    shorter,
                    t,
                    measures@[j]@,
                    (i + 1) as nat,
                    obs@[j].dyn_after() as int,
                    obs@[j].dyn_every() as int,
                    |s: S, p: S::Params| obs@[j].dyn_observed(s, p),
                );
            }
            i = i + 1;
        }
        measures
    }
}

} // verus!
