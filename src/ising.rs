//! A lattice of spins: a sample consumer of the engine.

use crate::metropolis::State;
use crate::montecarlo::{sample_n, Randomizable};
use crate::observer::Observer;
use crate::rng::draw_in;
use crate::variant::uniform_index;
use rand::rngs::StdRng;
use vstd::prelude::*;

verus! {

/// One lattice site.
#[derive(Debug, Clone, Copy, PartialEq, Eq, PartialOrd, Ord, Structural)]
pub enum Spin {
    Up,
    Down,
}

impl Spin {
    /// The opposite orientation.
    pub open spec fn flipped(self) -> Spin {
        match self {
            Spin::Up => Spin::Down,
            Spin::Down => Spin::Up,
        }
    }

    /// +1 for up, -1 for down.
    pub open spec fn value(self) -> int {
        match self {
            Spin::Up => 1,
            Spin::Down => -1,
        }
    }

    /// Turns the spin around.
    pub fn flip(&mut self)
        ensures
            *final(self) == old(self).flipped(),
    {
        match self {
            Spin::Down => *self = Spin::Up,
            Spin::Up => *self = Spin::Down,
        }
    }

    /// The product of the two spin values: 1 when aligned, -1 otherwise.
    pub fn mul(&self, other: &Self) -> (r: i8)
        ensures
            r == self.value() * other.value(),
            r == 1 || r == -1,
    {
        if *self == *other {
            assert(self.value() * other.value() == 1) by (nonlinear_arith)
                requires
                    self.value() == other.value(),
                    self.value() == 1 || self.value() == -1,
            ;
            1
        } else {
            assert(self.value() * other.value() == -1) by (nonlinear_arith)
                requires
                    self.value() == -other.value(),
                    self.value() == 1 || self.value() == -1,
            ;
            -1
        }
    }
}

/// The product of the spins at `i` and `j`, or 0 where `j` lies outside the
/// lattice.
pub open spec fn pair(s: Seq<Spin>, i: int, j: int) -> int {
    if 0 <= j < s.len() {
        s[i].value() * s[j].value()
    } else {
        0
    }
}

/// The products of the spin at `i` with its neighbours `i + 1`, `i - 1`,
/// `i + w` and `i - w` in a row-major lattice of width `w`.
pub open spec fn site_bonds(s: Seq<Spin>, w: int, i: int) -> int {
    pair(s, i, i + 1) + pair(s, i, i - 1) + pair(s, i, i + w) + pair(s, i, i - w)
}

/// The neighbour products summed over the sites `0..k`.
pub open spec fn bond_sum(s: Seq<Spin>, w: int, k: nat) -> int
    decreases k,
{
    if k == 0 {
        0
    } else {
        bond_sum(s, w, (k - 1) as nat) + site_bonds(s, w, k - 1)
    }
}

/// The spin values summed over the sites `0..k`.
pub open spec fn spin_sum(s: Seq<Spin>, k: nat) -> int
    decreases k,
{
    if k == 0 {
        0
    } else {
        spin_sum(s, (k - 1) as nat) + s[k - 1].value()
    }
}

/// The coupling constant of the lattice's energy.
pub struct IsingParams {
    pub j: i32,
}

impl Default for IsingParams {
    fn default() -> (r: Self)
        ensures
            r.j == 2,
    {
        IsingParams { j: 2 }
    }
}

/// A `w` by `h` lattice of spins stored row by row. One that is valid as a
/// state holds exactly `w * h > 0` spins.
pub struct Ising {
    w: usize,
    h: usize,
    states: Vec<Spin>,
}

impl View for Ising {
    /// Width, height and the spins row by row.
    type V = (usize, usize, Seq<Spin>);

    closed spec fn view(&self) -> (usize, usize, Seq<Spin>) {
        (self.w, self.h, self.states@)
    }
}

impl Ising {
    /// A lattice of width `w` and height `h` holding `states` row by row;
    /// `None` unless there are exactly `w * h > 0` spins.
    pub fn from_spins(w: usize, h: usize, states: Vec<Spin>) -> (r: Option<Ising>)
        ensures
            r.is_some() <==> (states@.len() == w * h && states@.len() > 0),
            r.is_some() ==> r.unwrap()@ == (w, h, states@),
            r.is_some() ==> Ising::valid(r.unwrap()@),
    {
        let len = states.len();
        match w.checked_mul(h) {
            Some(n) => {
                if n == len && n > 0 {
                    Some(Ising { w, h, states })
                } else {
                    None
                }
            },
            None => None,
        }
    }

    /// The width.
    pub fn width(&self) -> (r: usize)
        ensures
            r == self@.0,
    {
        self.w
    }

    /// The height.
    pub fn height(&self) -> (r: usize)
        ensures
            r == self@.1,
    {
        self.h
    }

    /// The spins row by row.
    pub fn states(&self) -> (r: &Vec<Spin>)
        ensures
            r@ == self@.2,
    {
        &self.states
    }

    /// The sum over all sites of the products with their neighbours.
    #[verifier::rlimit(40)]
    pub fn bonds(&self) -> (r: i128)
        ensures
            r == bond_sum(self@.2, self@.0 as int, self@.2.len()),
            -4 * self@.2.len() <= r <= 4 * self@.2.len(),
    {
        let n = self.states.len();
        let w = self.w;
        let mut total: i128 = 0;
        let mut i: usize = 0;
        while i < n
            invariant
                n == self.states@.len(),
                w == self.w,
                i <= n,
                total == bond_sum(self.states@, w as int, i as nat),
                -4 * i <= total <= 4 * i,
            decreases n - i,
        {
            let si = self.states[i];
            let mut site: i128 = 0;
            if i + 1 < n {
                site = site + si.mul(&self.states[i + 1]) as i128;
            }
            if i >= 1 {
                site = site + si.mul(&self.states[i - 1]) as i128;
            }
            if w < n - i {
                site = site + si.mul(&self.states[i + w]) as i128;
            }
            if i >= w {
                site = site + si.mul(&self.states[i - w]) as i128;
            }
            assert(site == site_bonds(self.states@, w as int, i as int));
            total = total + site;
            i = i + 1;
        }
        total
    }
}

impl State for Ising {
    type Params = IsingParams;

    /// The index of the spin to flip.
    type Change = usize;

    type Energy = i128;

    open spec fn valid(v: (usize, usize, Seq<Spin>)) -> bool {
        v.2.len() == v.0 * v.1 && v.2.len() > 0
    }

    open spec fn energy_of(v: (usize, usize, Seq<Spin>), params: IsingParams) -> i128 {
        (-(params.j as int * bond_sum(v.2, v.0 as int, v.2.len()))) as i128
    }

    /// Computing the energy leaves the coupling as it was.
    open spec fn params_after(v: (usize, usize, Seq<Spin>), params: IsingParams) -> IsingParams {
        params
    }

    open spec fn admits(v: (usize, usize, Seq<Spin>), change: usize) -> bool {
        change < v.2.len()
    }

    open spec fn applied(v: (usize, usize, Seq<Spin>), change: usize) -> (usize, usize, Seq<Spin>) {
        (v.0, v.1, v.2.update(change as int, v.2[change as int].flipped()))
    }

    open spec fn reverted(v: (usize, usize, Seq<Spin>), change: usize) -> (usize, usize, Seq<Spin>) {
        (v.0, v.1, v.2.update(change as int, v.2[change as int].flipped()))
    }

    proof fn lemma_reversible(v: (usize, usize, Seq<Spin>), change: usize) {
        let once = Self::applied(v, change);
        assert(once.2[change as int].flipped() == v.2[change as int]);
        assert(Self::reverted(once, change).2 =~= v.2);
    }

    /// Minus the coupling times the sum of neighbour products.
    fn energy(&self, params: &mut IsingParams) -> (r: i128)
        ensures
            r == -(old(params).j as int * bond_sum(self@.2, self@.0 as int, self@.2.len())),
            *final(params) == *old(params),
    {
        let b = self.bonds();
        let n = self.states.len();
        let j = params.j as i128;
        assert(-0x10_0000_0000_0000_0000_0000_0000 <= j * b <= 0x10_0000_0000_0000_0000_0000_0000)
            by (nonlinear_arith)
            requires
                -0x8000_0000 <= j <= 0x7fff_ffff,
                -4 * n <= b <= 4 * n,
                0 <= n <= 0xffff_ffff_ffff_ffff,
        ;
        -(j * b)
    }

    fn propose_change(&self, rng: &mut StdRng) -> (r: usize) {
        draw_in(rng, 0, self.states.len() as u64) as usize
    }

    fn apply_change(&mut self, change: usize) {
        self.states[change].flip();
    }

    fn revert_change(&mut self, change: usize) {
        self.states[change].flip();
    }
}

/// Net magnetisation: the sum of the spin values, measured on steps 10, 20,
/// 30 and so on (never on step 0).
pub struct Magnetization;

impl Observer<Ising> for Magnetization {
    type Observation = i128;

    open spec fn spec_after() -> usize {
        0
    }

    open spec fn spec_every() -> usize {
        10
    }

    open spec fn observed(state: Ising, params: IsingParams) -> i128 {
        spin_sum(state@.2, state@.2.len()) as i128
    }

    fn measure(state: &Ising, _params: &IsingParams) -> (r: i128)
        ensures
            r == spin_sum(state@.2, state@.2.len()),
    {
        let states = state.states();
        let mut total: i128 = 0;
        let mut i: usize = 0;
        while i < states.len()
            invariant
                i <= states@.len(),
                total == spin_sum(states@, i as nat),
                -(i as int) <= total <= i,
            decreases states.len() - i,
        {
            match states[i] {
                Spin::Up => total = total + 1,
                Spin::Down => total = total - 1,
            }
            i = i + 1;
        }
        total
    }

    fn every() -> (r: usize) {
        10
    }

    fn after() -> (r: usize) {
        0
    }
}

impl Randomizable for Spin {
    /// Up or down with equal chance.
    fn sample(rng: &mut StdRng) -> Self {
        if uniform_index(rng, 2) == 0 {
            Spin::Up
        } else {
            Spin::Down
        }
    }
}

impl Randomizable for Ising {
    /// Width 10 by default, height drawn from `5..10`, then `w * h` spins
    /// drawn one by one.
    fn sample(rng: &mut StdRng) -> (r: Ising)
        ensures
            r@.0 == 10,
            5 <= r@.1 < 10,
            r@.2.len() == r@.0 * r@.1,
            Ising::valid(r@),
    {
        let w: usize = 10;
        let h = draw_in(rng, 5, 10) as usize;
        let states: Vec<Spin> = sample_n(rng, w * h);
        Ising { w, h, states }
    }
}

} // verus!
