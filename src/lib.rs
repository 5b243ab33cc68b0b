//! Metropolis-Hastings Monte Carlo engine, a protocol for building random
//! instances of types, and the scheduling of measurements during a run.

pub mod ising;
pub mod metropolis;
pub mod montecarlo;
pub mod observer;
pub mod policy;
pub mod rng;
pub mod variant;

pub use ising::{Ising, IsingParams, Magnetization, Spin};
pub use metropolis::{Acceptance, Metropolis, State, StepOutcome};
pub use montecarlo::{sample_n, MonteCarlo, Randomizable};
pub use observer::{should_observe, DynObserver, Observer};
pub use policy::{
    binding_plan, field_policy, transform_ops, ArithOp, Attribute, Binding, FieldPolicy, PolicyError,
    Transform,
};
pub use variant::{uniform_index, VariantStrategy, WeightTable};
