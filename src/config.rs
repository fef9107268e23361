use crate::rng::PPM;
use vstd::prelude::*;

verus! {

/// Largest width, height or speed: any coordinate plus any speed fits an `i64`.
pub const MAX_EXTENT: i64 = 0x4000_0000_0000_0000;

/// The parameters of one run. Lengths are in the library's length unit,
/// probabilities in parts per million (`0..=PPM`), periods in ticks.
#[derive(Clone, Copy)]
pub struct ConfigCore {
    /// Number of ticks to simulate.
    pub time_limit: u32,
    /// Width and height of the domain: positions lie in `[0, w) x [0, h)`.
    pub dimensions: (i64, i64),
    /// Largest speed an agent moves at in one tick.
    pub max_velocity: i64,
    pub population_size: u32,
    /// Ticks an agent stays infected before its infection resolves.
    pub infected_period: u32,
    /// Ticks an agent stays immune after recovering.
    pub recovered_period: u32,
    /// Half the side of the square searched for neighbours.
    pub infection_radius: i64,
    /// Ticks a hospital stay lasts for an agent that is not infected.
    pub hospital_period: u32,
    pub hospital_capacity: u32,
    pub initial_infected: u64,
    pub initial_mobile: u64,
    /// Agents drawn for a test in each tick.
    pub tests_per_time: u32,
    /// Chance that an infected agent tests positive.
    pub test_true_positive: u64,
    /// Chance that an agent that is not infected tests negative.
    pub test_true_negative: u64,
    pub distancing: bool,
}

impl ConfigCore {
    pub open spec fn wf(&self) -> bool {
        &&& 0 < self.dimensions.0 <= MAX_EXTENT
        &&& 0 < self.dimensions.1 <= MAX_EXTENT
        &&& 0 <= self.max_velocity <= MAX_EXTENT
        &&& 0 <= self.infection_radius
        &&& self.initial_infected <= PPM
        &&& self.initial_mobile <= PPM
        &&& self.test_true_positive <= PPM
        &&& self.test_true_negative <= PPM
    }

    /// Whether the parameters describe a usable run.
    pub fn is_valid(&self) -> (r: bool)
        ensures
            r == self.wf(),
    {
        0 < self.dimensions.0 && self.dimensions.0 <= MAX_EXTENT && 0 < self.dimensions.1
            && self.dimensions.1 <= MAX_EXTENT && 0 <= self.max_velocity && self.max_velocity
            <= MAX_EXTENT && 0 <= self.infection_radius && self.initial_infected <= PPM
            && self.initial_mobile <= PPM && self.test_true_positive <= PPM
            && self.test_true_negative <= PPM
    }
}

} // verus!
