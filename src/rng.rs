use rand::rngs::StdRng;
use rand::Rng;
use rand::SeedableRng;
use vstd::prelude::*;

verus! {

/// One in a million: probabilities are integers in `0..=PPM`.
pub const PPM: u64 = 1_000_000;

/// rand's `StdRng`, carried opaque: the private random stream of an agent
/// or of the simulator.
#[verifier::external_type_specification]
#[verifier::external_body]
pub struct ExStdRng(StdRng);

/// Relies on rand's `SeedableRng::seed_from_u64`: a generator whose stream is
/// fixed by the seed.
#[verifier::external_body]
pub(crate) fn seeded_stream(seed: u64) -> (r: StdRng) {
    StdRng::seed_from_u64(seed)
}

/// Relies on rand's `Rng::gen_range` on `0..bound`: a value below `bound`
/// (it panics only on an empty range, which `requires` leaves out).
#[verifier::external_body]
pub(crate) fn draw_below(rng: &mut StdRng, bound: u64) -> (r: u64)
    requires
        bound > 0,
    ensures
        r < bound,
{
    rng.gen_range(0..bound)
}

/// A uniform draw in `0..PPM`: it falls below `p` with probability
/// `p / PPM`.
pub fn draw_ppm(rng: &mut StdRng) -> (r: u64)
    ensures
        r < PPM,
{
    draw_below(rng, PPM)
}

} // verus!
