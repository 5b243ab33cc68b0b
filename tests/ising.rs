use csta::{Ising, IsingParams, Magnetization, Observer, Randomizable, Spin, State};
use rand::rngs::StdRng;
use rand::SeedableRng;

fn lattice(w: usize, h: usize, spins: Vec<Spin>) -> Ising {
    Ising::from_spins(w, h, spins).expect("sizes agree")
}

#[test]
fn flip_turns_a_spin_around() {
    let mut s = Spin::Up;
    s.flip();
    assert_eq!(s, Spin::Down);
    s.flip();
    assert_eq!(s, Spin::Up);
}

#[test]
fn mul_is_one_when_aligned() {
    assert_eq!(Spin::Up.mul(&Spin::Up), 1);
    assert_eq!(Spin::Down.mul(&Spin::Down), 1);
    assert_eq!(Spin::Up.mul(&Spin::Down), -1);
    assert_eq!(Spin::Down.mul(&Spin::Up), -1);
}

#[test]
fn from_spins_checks_the_size() {
    assert!(Ising::from_spins(2, 2, vec![Spin::Up; 3]).is_none());
    assert!(Ising::from_spins(0, 0, vec![]).is_none());
    assert!(Ising::from_spins(usize::MAX, 2, vec![Spin::Up; 2]).is_none());
    let l = lattice(3, 2, vec![Spin::Down; 6]);
    assert_eq!(l.width(), 3);
    assert_eq!(l.height(), 2);
    assert_eq!(l.states().len(), 6);
}

#[test]
fn energy_of_an_aligned_square() {
    // Site bonds 2 + 3 + 3 + 2 in a 2 by 2 lattice read row by row.
    let l = lattice(2, 2, vec![Spin::Up; 4]);
    assert_eq!(l.bonds(), 10);
    let mut params = IsingParams::default();
    assert_eq!(params.j, 2);
    assert_eq!(l.energy(&mut params), -20);
}

#[test]
fn energy_with_one_spin_against_the_rest() {
    let l = lattice(2, 2, vec![Spin::Down, Spin::Up, Spin::Up, Spin::Up]);
    // Site 0 has two bonds, each counted from both ends.
    assert_eq!(l.bonds(), 10 - 4 * 2);
    let mut params = IsingParams { j: 1 };
    assert_eq!(l.energy(&mut params), -2);
}

#[test]
fn energy_of_a_single_row() {
    let l = lattice(3, 1, vec![Spin::Up, Spin::Down, Spin::Up]);
    // Bonds 0-1 and 1-2 in both directions, each -1; with width 3 the
    // neighbours i + w and i - w always fall outside.
    assert_eq!(l.bonds(), -4);
}

#[test]
fn magnetization_sums_the_spins() {
    let l = lattice(2, 2, vec![Spin::Down, Spin::Up, Spin::Up, Spin::Up]);
    assert_eq!(Magnetization::measure(&l, &IsingParams::default()), 2);
    assert_eq!(<Magnetization as Observer<Ising>>::after(), 0);
    assert_eq!(<Magnetization as Observer<Ising>>::every(), 10);
}

#[test]
fn apply_then_revert_restores_the_lattice() {
    let spins = vec![Spin::Down, Spin::Up, Spin::Up, Spin::Down, Spin::Up, Spin::Up];
    let mut l = lattice(3, 2, spins.clone());
    for c in 0..6 {
        l.apply_change(c);
        assert_ne!(l.states()[c], spins[c]);
        l.revert_change(c);
        assert_eq!(l.states(), &spins);
    }
}

#[test]
fn proposed_changes_are_in_the_lattice() {
    let mut rng = StdRng::seed_from_u64(7);
    let l = lattice(3, 2, vec![Spin::Up; 6]);
    for _ in 0..200 {
        assert!(l.propose_change(&mut rng) < 6);
    }
}

#[test]
fn sampled_lattice_has_width_times_height_spins() {
    let mut rng = StdRng::seed_from_u64(11);
    let mut heights = [false; 10];
    for _ in 0..500 {
        let l = Ising::sample(&mut rng);
        assert_eq!(l.width(), 10);
        assert!(5 <= l.height() && l.height() < 10);
        assert_eq!(l.states().len(), l.width() * l.height());
        heights[l.height()] = true;
    }
    assert!(heights[5..10].iter().all(|&seen| seen));
}

#[test]
fn sampled_spins_take_both_values() {
    let mut rng = StdRng::seed_from_u64(3);
    let ups = (0..1000).filter(|_| Spin::sample(&mut rng) == Spin::Up).count();
    assert!(ups > 400 && ups < 600);
}
