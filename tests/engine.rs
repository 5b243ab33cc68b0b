use csta::{
    should_observe, Acceptance, DynObserver, Ising, IsingParams, Magnetization, Metropolis, Spin,
    StepOutcome,
};
use rand::rngs::StdRng;
use rand::{Rng, SeedableRng};

/// The Metropolis test at inverse temperature `beta`.
struct Beta(f64);

impl Acceptance<i128> for Beta {
    fn lowers(&self, before: i128, after: i128) -> bool {
        ((after - before) as f64) < 0.0
    }

    fn lowers_energy(&self, before: &i128, after: &i128) -> bool {
        self.lowers(*before, *after)
    }

    fn accepts_rise(&self, before: &i128, after: &i128, rng: &mut StdRng) -> bool {
        let delta = (after - before) as f64;
        rng.random::<f64>() < (-self.0 * delta).exp()
    }

    fn unit() -> Self {
        Beta(1.0)
    }
}

/// Treats every move as lowering the energy; never asked for a draw.
struct AlwaysDownhill;

impl Acceptance<i128> for AlwaysDownhill {
    fn lowers(&self, _before: i128, _after: i128) -> bool {
        true
    }

    fn lowers_energy(&self, before: &i128, after: &i128) -> bool {
        self.lowers(*before, *after)
    }

    fn accepts_rise(&self, _before: &i128, _after: &i128, _rng: &mut StdRng) -> bool {
        panic!("a lowering move needs no draw")
    }

    fn unit() -> Self {
        AlwaysDownhill
    }
}

/// Rejects every move.
struct Frozen;

impl Acceptance<i128> for Frozen {
    fn lowers(&self, _before: i128, _after: i128) -> bool {
        false
    }

    fn lowers_energy(&self, before: &i128, after: &i128) -> bool {
        self.lowers(*before, *after)
    }

    fn accepts_rise(&self, _before: &i128, _after: &i128, _rng: &mut StdRng) -> bool {
        false
    }

    fn unit() -> Self {
        Frozen
    }
}

fn checkerboard() -> Ising {
    let spins = (0..20).map(|i| if (i / 5 + i % 5) % 2 == 0 { Spin::Up } else { Spin::Down }).collect();
    Ising::from_spins(5, 4, spins).unwrap()
}

fn engine<B: Acceptance<i128>>(beta: B, steps: usize, seed: u64) -> Metropolis<Ising, B> {
    Metropolis::with_all(checkerboard(), IsingParams::default(), beta, steps, StdRng::seed_from_u64(seed))
}

#[test]
fn same_seed_gives_the_same_decisions() {
    let mut a = engine(Beta(0.3), 0, 42);
    let mut b = engine(Beta(0.3), 0, 42);
    let run_a: Vec<StepOutcome<usize>> = (0..500).map(|_| a.step()).collect();
    let run_b: Vec<StepOutcome<usize>> = (0..500).map(|_| b.step()).collect();
    assert_eq!(run_a, run_b);
    assert_eq!(a.accepted_moves, b.accepted_moves);
    assert_eq!(a.state.states(), b.state.states());
    assert!(run_a.iter().any(|o| o.accepted) && run_a.iter().any(|o| !o.accepted));
}

#[test]
fn lowering_moves_are_always_accepted() {
    let mut m = engine(AlwaysDownhill, 300, 5);
    m.run_empty();
    assert_eq!(m.accepted_moves, 300);
    let mut m = engine(Beta(1.0), 0, 9);
    for _ in 0..300 {
        let o = m.step();
        if o.lowered {
            assert!(o.accepted);
        }
    }
}

#[test]
fn a_flip_in_a_checkerboard_lowers_the_energy() {
    // In a checkerboard every neighbour pair is anti-aligned, so under a
    // positive coupling any flip lowers the energy and is kept.
    let mut m = engine(Frozen, 0, 1);
    let o = m.step();
    assert!(!o.lowered);
    let mut m = engine(Beta(1.0), 0, 1);
    let o = m.step();
    assert!(o.lowered && o.accepted);
    assert_eq!(m.accepted_moves, 1);
}

#[test]
fn the_acceptance_test_decides_the_other_moves() {
    let mut m = engine(Frozen, 0, 3);
    for _ in 0..50 {
        let o = m.step();
        assert!(!o.lowered && !o.passed && !o.accepted);
    }
    let mut m = engine(AlwaysDownhill, 0, 3);
    for _ in 0..50 {
        let o = m.step();
        assert!(o.lowered && !o.passed && o.accepted);
    }
    let mut m = engine(Beta(0.4), 0, 13);
    for _ in 0..300 {
        let o = m.step();
        assert_eq!(o.accepted, o.lowered || o.passed);
        assert!(!(o.lowered && o.passed));
    }
    assert_eq!(m.beta.0, 0.4);
}

#[test]
fn rejected_moves_leave_the_state_unchanged() {
    let mut m = engine(Frozen, 250, 8);
    m.run_empty();
    assert_eq!(m.accepted_moves, 0);
    assert_eq!(m.state.states(), checkerboard().states());
}

#[test]
fn accepted_step_flips_the_proposed_spin() {
    let mut m = engine(AlwaysDownhill, 1, 12);
    let before = m.state.states().clone();
    let o = m.step();
    assert!(o.accepted);
    for (i, (x, y)) in before.iter().zip(m.state.states().iter()).enumerate() {
        assert_eq!(x == y, i != o.change);
    }
}

#[test]
fn accepted_count_stays_within_the_budget() {
    let mut m = engine(Beta(0.5), 1000, 77);
    m.run_empty();
    assert!(m.accepted_moves <= 1000);
    assert_eq!(m.steps, 1000);
}

#[test]
fn observer_fires_on_steps_ten_and_twenty() {
    let fired: Vec<usize> = (0..25).filter(|&i| should_observe(i, 0, 10)).collect();
    assert_eq!(fired, vec![10, 20]);
    assert!(!should_observe(0, 0, 10));
    assert!(!should_observe(10, 10, 10));
    assert!(should_observe(20, 10, 10));
    assert!(should_observe(3, 2, 1));
}

#[test]
fn run_with_measures_on_the_firing_steps() {
    let mut m = engine(Beta(0.2), 25, 4);
    let measures = m.run_with::<Magnetization>();
    assert_eq!(measures.len(), 2);
    assert!(measures.iter().all(|x| x.abs() <= 20 && x % 2 == 0));
}

#[test]
fn measurement_precedes_the_step() {
    let mut m = engine(AlwaysDownhill, 11, 4);
    let measures = m.run_with::<Magnetization>();
    // Ten flips happen before step 10 is measured; the eleventh comes after.
    assert_eq!(measures.len(), 1);
    let mut replay = engine(AlwaysDownhill, 0, 4);
    for _ in 0..10 {
        replay.step();
    }
    let net: i128 = replay.state.states().iter().map(|s| if *s == Spin::Up { 1 } else { -1 }).sum();
    assert_eq!(measures[0], net);
}

#[test]
fn several_observers_each_get_their_sequence() {
    let mut m = engine(Beta(0.2), 45, 6);
    let (a, b) = m.run_with_2::<Magnetization, Magnetization>();
    assert_eq!((a.len(), b.len()), (4, 4));
    assert_eq!(a, b);
    let (a, b, c) = m.run_with_3::<Magnetization, Magnetization, Magnetization>();
    assert_eq!((a.len(), b.len(), c.len()), (4, 4, 4));
    let (a, b, c, d) = m.run_with_4::<Magnetization, Magnetization, Magnetization, Magnetization>();
    assert_eq!((a.len(), b.len(), c.len(), d.len()), (4, 4, 4, 4));
    assert_eq!(a, d);
}

#[test]
fn run_with_n_keeps_one_sequence_per_observer() {
    let mut m = engine(Beta(0.2), 31, 2);
    let obs: Vec<Box<dyn DynObserver<Ising, i128>>> =
        vec![Box::new(Magnetization), Box::new(Magnetization), Box::new(Magnetization)];
    let measures = m.run_with_n(obs);
    assert_eq!(measures.len(), 3);
    assert!(measures.iter().all(|v| v.len() == 3));
    assert!(m.run_with_n::<i128>(vec![]).is_empty());
}

#[test]
fn constructors_start_with_no_accepted_move() {
    let m: Metropolis<Ising, Beta> = Metropolis::with_state(checkerboard(), Beta(0.7), 10).unwrap();
    assert_eq!((m.steps, m.accepted_moves), (10, 0));
    assert_eq!(m.beta.0, 0.7);
    let m: Metropolis<Ising, Beta> = Metropolis::with_state_no_beta(checkerboard(), 3).unwrap();
    assert_eq!(m.beta.0, 1.0);
    assert_eq!(m.params.j, 2);
    let m: Metropolis<Ising, Beta> =
        Metropolis::with_state_rng_no_beta(checkerboard(), 4, StdRng::seed_from_u64(1));
    assert_eq!((m.steps, m.beta.0), (4, 1.0));
    let m: Metropolis<Ising, Beta> =
        Metropolis::with_state_params_no_beta(checkerboard(), IsingParams { j: -1 }, 6).unwrap();
    assert_eq!((m.params.j, m.steps), (-1, 6));
}
