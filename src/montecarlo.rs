//! The sampling protocol and the lazy sequence of sampled instances.

use core::marker::PhantomData;
use rand::rngs::StdRng;
use vstd::prelude::*;

verus! {

/// A type that can produce a random instance of itself from a random source.
pub trait Randomizable: Sized {
    /// Draws one instance.
    fn sample(rng: &mut StdRng) -> Self;
}

/// `n` independent draws of `T`, in the order drawn.
pub fn sample_n<T: Randomizable>(rng: &mut StdRng, n: usize) -> (r: Vec<T>)
    ensures
        r@.len() == n,
{
    let mut items: Vec<T> = Vec::new();
    let mut i: usize = 0;
    while i < n
        invariant
            i <= n,
            items@.len() == i,
        decreases n - i,
    {
        items.push(T::sample(rng));
        i = i + 1;
    }
    items
}

// A tuple of sampled types is sampled element by element, left to right.

impl<A: Randomizable, B: Randomizable> Randomizable for (A, B) {
    fn sample(rng: &mut StdRng) -> Self {
        (A::sample(rng), B::sample(rng))
    }
}

impl<A: Randomizable, B: Randomizable, C: Randomizable> Randomizable for (A, B, C) {
    fn sample(rng: &mut StdRng) -> Self {
        (A::sample(rng), B::sample(rng), C::sample(rng))
    }
}

impl<A: Randomizable, B: Randomizable, C: Randomizable, D: Randomizable> Randomizable for (A, B, C, D) {
    fn sample(rng: &mut StdRng) -> Self {
        (A::sample(rng), B::sample(rng), C::sample(rng), D::sample(rng))
    }
}

impl<A: Randomizable, B: Randomizable, C: Randomizable, D: Randomizable, E: Randomizable> Randomizable for (A, B, C, D, E) {
    fn sample(rng: &mut StdRng) -> Self {
        (A::sample(rng), B::sample(rng), C::sample(rng), D::sample(rng), E::sample(rng))
    }
}

impl<A: Randomizable, B: Randomizable, C: Randomizable, D: Randomizable, E: Randomizable, F: Randomizable> Randomizable for (A, B, C, D, E, F) {
    fn sample(rng: &mut StdRng) -> Self {
        (A::sample(rng), B::sample(rng), C::sample(rng), D::sample(rng), E::sample(rng), F::sample(rng))
    }
}

impl<A: Randomizable, B: Randomizable, C: Randomizable, D: Randomizable, E: Randomizable, F: Randomizable, G: Randomizable> Randomizable for (A, B, C, D, E, F, G) {
    fn sample(rng: &mut StdRng) -> Self {
        (A::sample(rng), B::sample(rng), C::sample(rng), D::sample(rng), E::sample(rng), F::sample(rng), G::sample(rng))
    }
}

impl<A: Randomizable, B: Randomizable, C: Randomizable, D: Randomizable, E: Randomizable, F: Randomizable, G: Randomizable, H: Randomizable> Randomizable for (A, B, C, D, E, F, G, H) {
    fn sample(rng: &mut StdRng) -> Self {
        (A::sample(rng), B::sample(rng), C::sample(rng), D::sample(rng), E::sample(rng), F::sample(rng), G::sample(rng), H::sample(rng))
    }
}

/// An endless sequence of independently sampled instances of `T`; it owns
/// its random source.
#[derive(Debug)]
pub struct MonteCarlo<T: Randomizable> {
    rng: StdRng,
    phantom: PhantomData<T>,
}

impl<T: Randomizable> MonteCarlo<T> {
    /// A sequence drawing from `rng`.
    pub fn new(rng: StdRng) -> (r: Self)
        ensures
            r.source() == rng,
    {
        MonteCarlo { rng, phantom: PhantomData }
    }

    /// The random source the sequence draws from.
    pub closed spec fn source(&self) -> StdRng {
        self.rng
    }

    /// The next instance: a fresh draw, never the end of the sequence.
    pub fn next(&mut self) -> (r: Option<T>)
        ensures
            r.is_some(),
    {
        Some(T::sample(&mut self.rng))
    }
}

} // verus!
