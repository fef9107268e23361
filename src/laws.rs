use crate::age_distribution::MAX_AGE;
use crate::config::ConfigCore;
use crate::entity::{status_after, Entity, HospitalStatus, InfectionStatus};
use crate::kinematics::{clamp_mag, lemma_clamp_components, mag2, vzero};
use crate::simulator::Simulator;
use vstd::prelude::*;

verus! {

/// Every agent of a valid simulator, and so every agent after any number of
/// steps, has an age between 0 and `MAX_AGE`.
pub proof fn ages_in_range(sim: &Simulator)
    requires
        sim.wf(),
    ensures
        forall|j: int| 0 <= j < sim.population@.len() ==> #[trigger] sim.population@[j].age <= MAX_AGE,
{
    assert forall|j: int| 0 <= j < sim.population@.len() implies #[trigger] sim.population@[j].age
        <= MAX_AGE by {
        assert(sim.population@[j].wf(&sim.core));
    }
}

/// A pool of capacity zero never holds anyone: no bed is taken and no agent
/// is in hospital.
pub proof fn no_beds_without_capacity(sim: &Simulator)
    requires
        sim.wf(),
        sim.core.hospital_capacity == 0,
    ensures
        sim.hospital.enlisted@.len() == 0,
        forall|j: int|
            0 <= j < sim.population@.len() ==> !((#[trigger] sim.population@[j]).hospitalized is Hospitalized),
{
    assert forall|j: int| 0 <= j < sim.population@.len() implies !((#[trigger] sim.population@[j]).hospitalized is Hospitalized) by {
        if sim.population@[j].hospitalized is Hospitalized {
            assert(sim.hospital.has(j as usize));
        }
    }
}

/// When immunity runs out the agent becomes susceptible, may move again and
/// holds no bed, whatever its bed and mobility were.
pub proof fn immunity_ends(
    hospitalized: HospitalStatus,
    mobile: bool,
    survives: bool,
    core: &ConfigCore,
)
    ensures
        status_after(InfectionStatus::Recovered(0), hospitalized, mobile, survives, core) == (
            InfectionStatus::Susceptible,
            HospitalStatus::Free,
            true,
        ),
{
}

/// An infection that has run out ends in recovery exactly when the draw
/// says the agent survives, and in death otherwise.
pub proof fn infection_resolves(
    hospitalized: HospitalStatus,
    mobile: bool,
    survives: bool,
    core: &ConfigCore,
)
    ensures
        status_after(InfectionStatus::Infected(0), hospitalized, mobile, survives, core).0 == (
        if survives {
            InfectionStatus::Recovered(core.recovered_period)
        } else {
            InfectionStatus::Dead
        }),
{
}

/// An agent on the left edge moving left, with no force on it, has its
/// horizontal velocity reversed by one movement step (the clamped velocity,
/// which keeps a nonzero component nonzero, turned around) and stays inside
/// `[0, width)`.
pub proof fn bounce_off_left_edge(e: Entity, core: ConfigCore)
    requires
        core.wf(),
        e.wf(&core),
        e.position.x == 0,
        e.velocity.x < 0,
        e.acceleration == vzero(),
        core.max_velocity > 0,
    ensures
        e.moved_velocity(&core).x == -clamp_mag(e.velocity, core.max_velocity as int).x,
        e.moved_velocity(&core).x > 0,
        0 <= e.moved_position(&core).x < core.dimensions.0,
{
    if mag2(e.velocity) > core.max_velocity * core.max_velocity {
        lemma_clamp_components(e.velocity, core.max_velocity as int);
    }
}

} // verus!
