//! Choosing a variant of a sum type: uniformly, or by relative weights.

use crate::policy::PolicyError;
use crate::rng::draw_in;
use rand::rngs::StdRng;
use vstd::prelude::*;

verus! {

/// The sum of the weights.
pub open spec fn weight_sum(w: Seq<u32>) -> nat
    decreases w.len(),
{
    if w.len() == 0 {
        0
    } else {
        weight_sum(w.drop_last()) + w.last() as nat
    }
}

/// Whether a draw `x` from `[0, total)` falls in the bucket of variant `r`:
/// the buckets are laid out in declaration order, each as wide as its weight,
/// lower bound included and upper bound excluded.
pub open spec fn in_bucket(w: Seq<u32>, x: int, r: int) -> bool {
    weight_sum(w.take(r)) <= x < weight_sum(w.take(r + 1))
}

proof fn lemma_prefix_step(w: Seq<u32>, i: int)
    requires
        0 <= i < w.len(),
    ensures
        weight_sum(w.take(i + 1)) == weight_sum(w.take(i)) + w[i],
{
    assert(w.take(i + 1).drop_last() =~= w.take(i));
}

proof fn lemma_prefix_le(w: Seq<u32>, i: int)
    requires
        0 <= i <= w.len(),
    ensures
        weight_sum(w.take(i)) <= weight_sum(w),
    decreases w.len(),
{
    if i == w.len() {
        assert(w.take(i) =~= w);
    } else {
        lemma_prefix_le(w.drop_last(), i);
        assert(w.drop_last().take(i) =~= w.take(i));
    }
}

proof fn lemma_sum_bound(w: Seq<u32>)
    ensures
        weight_sum(w) <= w.len() * 0xffff_ffff,
    decreases w.len(),
{
    if w.len() > 0 {
        lemma_sum_bound(w.drop_last());
        assert(weight_sum(w) <= w.len() * 0xffff_ffff) by (nonlinear_arith)
            requires
                weight_sum(w) == weight_sum(w.drop_last()) + w.last(),
                weight_sum(w.drop_last()) <= w.drop_last().len() * 0xffff_ffff,
                w.drop_last().len() == w.len() - 1,
                w.last() <= 0xffff_ffff,
        ;
    }
}

/// The relative weights of the variants, with their running sums computed
/// once.
pub struct WeightTable {
    weights: Vec<u32>,
    cumulative: Vec<u64>,
}

impl WeightTable {
    /// The weights, in declaration order.
    pub closed spec fn weights(&self) -> Seq<u32> {
        self.weights@
    }

    /// The running sums agree with the weights.
    pub closed spec fn wf(&self) -> bool {
        &&& self.weights@.len() > 0
        &&& self.cumulative@.len() == self.weights@.len()
        &&& forall|i: int|
            0 <= i < self.weights@.len() ==> #[trigger] self.cumulative@[i] == weight_sum(
                self.weights@.take(i + 1),
            )
    }

    /// A table over `weights`; `None` when there are none.
    pub fn new(weights: Vec<u32>) -> (r: Option<WeightTable>)
        requires
            weights@.len() <= 0xffff_ffff,
        ensures
            r.is_some() <==> weights@.len() > 0,
            r.is_some() ==> r.unwrap().wf() && r.unwrap().weights() == weights@,
    {
        if weights.len() == 0 {
            return None;
        }
        proof {
            lemma_sum_bound(weights@);
            assert(weights@.len() * 0xffff_ffff <= 0xffff_ffff * 0xffff_ffff) by (nonlinear_arith)
                requires
                    weights@.len() <= 0xffff_ffff,
            ;
        }
        let mut cumulative: Vec<u64> = Vec::new();
        let mut total: u64 = 0;
        let mut i: usize = 0;
        while i < weights.len()
            invariant
                i <= weights@.len(),
                weight_sum(weights@) <= u64::MAX,
                total == weight_sum(weights@.take(i as int)),
                cumulative@.len() == i,
                forall|k: int|
                    0 <= k < i ==> #[trigger] cumulative@[k] == weight_sum(weights@.take(k + 1)),
            decreases weights.len() - i,
        {
            proof {
                lemma_prefix_step(weights@, i as int);
                lemma_prefix_le(weights@, i + 1);
            }
            total = total + weights[i] as u64;
            cumulative.push(total);
            i = i + 1;
        }
        Some(WeightTable { weights, cumulative })
    }

    /// The number of variants.
    pub fn len(&self) -> (r: usize)
        requires
            self.wf(),
        ensures
            r == self.weights().len(),
            r > 0,
    {
        self.weights.len()
    }

    /// The sum of the weights.
    pub fn total(&self) -> (r: u64)
        requires
            self.wf(),
        ensures
            r == weight_sum(self.weights()),
    {
        let n = self.cumulative.len();
        assert(self.weights@.take(n as int) =~= self.weights@);
        self.cumulative[n - 1]
    }

    /// The variant whose bucket holds the draw `x`: the first whose running
    /// sum exceeds `x`.
    pub fn select(&self, x: u64) -> (r: usize)
        requires
            self.wf(),
            x < weight_sum(self.weights()),
        ensures
            r < self.weights().len(),
            in_bucket(self.weights(), x as int, r as int),
            self.weights()[r as int] > 0,
    {
        let n = self.cumulative.len();
        assert(self.weights@.take(n as int) =~= self.weights@);
        assert(self.weights@.take(0) =~= Seq::<u32>::empty());
        assert(self.cumulative@[n - 1] == weight_sum(self.weights@));
        let mut i: usize = 0;
        while self.cumulative[i] <= x
            invariant
                self.wf(),
                n == self.cumulative@.len(),
                x < weight_sum(self.weights@),
                self.cumulative@[n - 1] == weight_sum(self.weights@),
                i < n,
                weight_sum(self.weights@.take(i as int)) <= x,
            decreases n - i,
        {
            if i + 1 == n {
                assert(false);
            }
            i = i + 1;
        }
        proof {
            lemma_prefix_step(self.weights@, i as int);
        }
        i
    }

    /// Draws a variant with probability proportional to its weight. When
    /// every weight is zero it is always the first variant, and nothing is
    /// drawn.
    pub fn pick(&self, rng: &mut StdRng) -> (r: usize)
        requires
            self.wf(),
        ensures
            r < self.weights().len(),
            weight_sum(self.weights()) == 0 ==> r == 0,
            weight_sum(self.weights()) == 0 ==> *final(rng) == *old(rng),
            weight_sum(self.weights()) > 0 ==> self.weights()[r as int] > 0,
    {
        let total = self.total();
        if total == 0 {
            return 0;
        }
        let x = draw_in(rng, 0, total);
        self.select(x)
    }
}

/// No variant declares a weight.
pub open spec fn declares_none(w: Seq<Option<u32>>) -> bool {
    forall|i: int| 0 <= i < w.len() ==> #[trigger] w[i].is_none()
}

/// Every variant declares a weight.
pub open spec fn declares_all(w: Seq<Option<u32>>) -> bool {
    forall|i: int| 0 <= i < w.len() ==> #[trigger] w[i].is_some()
}

/// The declared weights, where every variant declares one.
pub open spec fn declared_weights(w: Seq<Option<u32>>) -> Seq<u32> {
    w.map_values(|o: Option<u32>| o.unwrap())
}

/// Draws an index uniformly from `0..count`.
pub fn uniform_index(rng: &mut StdRng, count: usize) -> (r: usize)
    requires
        count > 0,
    ensures
        r < count,
{
    draw_in(rng, 0, count as u64) as usize
}

/// How a sum type picks its variant.
pub enum VariantStrategy {
    /// Uniformly among this many variants.
    Uniform(usize),
    /// By relative weights.
    Weighted(WeightTable),
}

impl VariantStrategy {
    /// Whether the strategy can draw: it has at least one variant.
    pub open spec fn wf(&self) -> bool {
        match self {
            VariantStrategy::Uniform(n) => *n > 0,
            VariantStrategy::Weighted(t) => t.wf(),
        }
    }

    /// The number of variants.
    pub open spec fn count(&self) -> nat {
        match self {
            VariantStrategy::Uniform(n) => *n as nat,
            VariantStrategy::Weighted(t) => t.weights().len(),
        }
    }

    /// Whether it draws by weights.
    pub open spec fn is_weighted(&self) -> bool {
        self is Weighted
    }

    /// The weights when it draws by weights.
    pub open spec fn weight_seq(&self) -> Seq<u32> {
        match self {
            VariantStrategy::Uniform(_) => seq![],
            VariantStrategy::Weighted(t) => t.weights(),
        }
    }

    /// The strategy declared by the variants' optional weights: uniform when
    /// none declares one, weighted when all do; an error when only some do,
    /// or when there is no variant.
    pub fn from_declarations(weights: &Vec<Option<u32>>) -> (r: Result<VariantStrategy, PolicyError>)
        requires
            weights@.len() <= 0xffff_ffff,
        ensures
            weights@.len() == 0 ==> r == Err::<VariantStrategy, PolicyError>(PolicyError::NoVariants),
            weights@.len() > 0 && declares_none(weights@) ==> r.is_ok() && !r.unwrap().is_weighted(),
            weights@.len() > 0 && declares_all(weights@) ==> r.is_ok() && r.unwrap().is_weighted()
                && r.unwrap().weight_seq() == declared_weights(weights@),
            !declares_none(weights@) && !declares_all(weights@) ==> r == Err::<
                VariantStrategy,
                PolicyError,
            >(PolicyError::InconsistentWeights),
            r.is_ok() ==> r.unwrap().wf() && r.unwrap().count() == weights@.len(),
    {
        if weights.len() == 0 {
            return Err(PolicyError::NoVariants);
        }
        let first_some = weights[0].is_some();
        let mut declared: Vec<u32> = Vec::new();
        let mut i: usize = 0;
        while i < weights.len()
            invariant
                i <= weights@.len(),
                weights@.len() > 0,
                first_some == weights@[0].is_some(),
                first_some ==> declared@.len() == i,
                !first_some ==> declared@.len() == 0,
                first_some ==> forall|k: int|
                    0 <= k < i ==> #[trigger] weights@[k].is_some() && declared@[k] == weights@[k].unwrap(),
                !first_some ==> forall|k: int| 0 <= k < i ==> #[trigger] weights@[k].is_none(),
            decreases weights.len() - i,
        {
            match weights[i] {
                Some(w) => {
                    if !first_some {
                        assert(weights@[0].is_none() && weights@[i as int].is_some());
                        assert(!declares_none(weights@) && !declares_all(weights@)) by {
                            assert(!weights@[i as int].is_none());
                        }
                        return Err(PolicyError::InconsistentWeights);
                    }
                    declared.push(w);
                },
                None => {
                    if first_some {
                        assert(weights@[0].is_some() && weights@[i as int].is_none());
                        assert(!declares_none(weights@) && !declares_all(weights@)) by {
                            assert(!weights@[0].is_none());
                        }
                        return Err(PolicyError::InconsistentWeights);
                    }
                },
            }
            i = i + 1;
        }
        proof {
            if first_some {
                assert(declared@ =~= declared_weights(weights@));
            }
            if declares_none(weights@) {
                assert(weights@[0].is_none());
            }
        }
        if declared.len() == 0 {
            Ok(VariantStrategy::Uniform(weights.len()))
        } else {
            match WeightTable::new(declared) {
                Some(t) => Ok(VariantStrategy::Weighted(t)),
                None => Err(PolicyError::NoVariants),
            }
        }
    }

    /// Draws the index of a variant.
    pub fn pick(&self, rng: &mut StdRng) -> (r: usize)
        requires
            self.wf(),
        ensures
            r < self.count(),
            self.is_weighted() && weight_sum(self.weight_seq()) == 0 ==> r == 0,
            self.is_weighted() && weight_sum(self.weight_seq()) == 0 ==> *final(rng) == *old(rng),
            self.is_weighted() && weight_sum(self.weight_seq()) > 0 ==> self.weight_seq()[r as int] > 0,
    {
        match self {
            VariantStrategy::Uniform(n) => uniform_index(rng, *n),
            VariantStrategy::Weighted(t) => t.pick(rng),
        }
    }
}

} // verus!
