//! The random source shared by the engine and the sampling protocol.

use rand::Rng;
use rand::SeedableRng;
use vstd::prelude::*;

use rand::rngs::StdRng;

verus! {

#[verifier::external_type_specification]
#[verifier::external_body]
pub struct ExStdRng(rand::rngs::StdRng);

/// Relies on `rand::Rng::random_range`: on the non-empty range `lo..hi` it
/// returns a value `r` with `lo <= r < hi`; it panics only on an empty range.
#[verifier::external_body]
pub(crate) fn draw_in(rng: &mut StdRng, lo: u64, hi: u64) -> (r: u64)
    requires
        lo < hi,
    ensures
        lo <= r < hi,
{
    rng.random_range(lo..hi)
}

/// Relies on `rand::SeedableRng::try_from_os_rng`: a generator seeded from
/// the operating system's entropy source, or `None` where that source fails
/// (the error itself is dropped).
#[verifier::external_body]
pub(crate) fn try_os_seeded() -> Option<StdRng> {
    StdRng::try_from_os_rng().ok()
}

} // verus!
