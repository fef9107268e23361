use crate::entity::{Entity, HospitalStatus, Snapshot};
use crate::rng::PPM;
use vstd::prelude::*;

verus! {

/// The injected chances that drive the state machine, in parts per million.
/// Each chance is a function of its arguments, named by a spec function.
pub trait Policy {
    /// Chance that `agent`, whose infection has run out, recovers rather than dies.
    spec fn survival_spec(&self, agent: &Entity) -> int;

    /// Chance that the infected `source` infects the susceptible `target` in
    /// one contact.
    spec fn infection_spec(&self, source: &Snapshot, target: &Snapshot) -> int;

    fn survival_chance(&self, agent: &Entity) -> (r: u64)
        ensures
            r <= PPM,
            r == self.survival_spec(agent),
    ;

    fn infection_chance(&self, source: &Snapshot, target: &Snapshot) -> (r: u64)
        ensures
            r <= PPM,
            r == self.infection_spec(source, target),
    ;
}

/// Survival falls with age (`1 - age / 200`) and is 99% in hospital;
/// infection falls with the square of the distance, counted in
/// `length_unit`s (`1 / d^2`, and certain within one unit); chances round
/// down to whole parts per million.
pub struct AgePolicy {
    pub length_unit: u32,
}

pub open spec fn age_survival(age: int, hospitalized: bool) -> int {
    if hospitalized {
        990_000
    } else if age >= 200 {
        0
    } else {
        PPM - age * 5_000
    }
}

pub open spec fn distance_infection(dx: int, dy: int, unit: int) -> int {
    let d2 = dx * dx + dy * dy;
    if d2 == 0 || unit * unit >= d2 {
        PPM as int
    } else {
        PPM * (unit * unit) / d2
    }
}

/// Beyond this distance the chance of `AgePolicy` rounds to zero.
const FAR: u128 = 0x800_0000_0000;

impl Policy for AgePolicy {
    open spec fn survival_spec(&self, agent: &Entity) -> int {
        age_survival(agent.age as int, agent.hospitalized is Hospitalized)
    }

    open spec fn infection_spec(&self, source: &Snapshot, target: &Snapshot) -> int {
        distance_infection(
            source.position.x - target.position.x,
            source.position.y - target.position.y,
            self.length_unit as int,
        )
    }

    fn survival_chance(&self, agent: &Entity) -> (r: u64) {
        let hospitalized = match agent.hospitalized {
            HospitalStatus::Hospitalized(_) => true,
            HospitalStatus::Free => false,
        };
        if hospitalized {
            990_000
        } else if agent.age >= 200 {
            0
        } else {
            PPM - agent.age as u64 * 5_000
        }
    }

    fn infection_chance(&self, source: &Snapshot, target: &Snapshot) -> (r: u64) {
        let dx: i128 = source.position.x as i128 - target.position.x as i128;
        let dy: i128 = source.position.y as i128 - target.position.y as i128;
        let ax: u128 = if dx >= 0 { dx as u128 } else { (-dx) as u128 };
        let ay: u128 = if dy >= 0 { dy as u128 } else { (-dy) as u128 };
        assert(ax * ax == dx * dx && ay * ay == dy * dy) by (nonlinear_arith)
            requires
                ax == if dx >= 0 { dx as int } else { -dx },
                ay == if dy >= 0 { dy as int } else { -dy },
        ;
        let u: u128 = self.length_unit as u128;
        assert(u * u < 0x1_0000_0000_0000_0000int) by (nonlinear_arith)
            requires
                0 <= u < 0x1_0000_0000int,
        ;
        if ax >= FAR || ay >= FAR {
            assert(dx * dx + dy * dy >= FAR * FAR) by (nonlinear_arith)
                requires
                    ax >= FAR || ay >= FAR,
                    ax >= 0,
                    ay >= 0,
                    ax * ax == dx * dx,
                    ay * ay == dy * dy,
            ;
            assert(PPM * (u * u) / (dx * dx + dy * dy) == 0) by (nonlinear_arith)
                requires
                    dx * dx + dy * dy >= FAR * FAR,
                    0 <= u * u < 0x1_0000_0000_0000_0000int,
                    FAR == 0x800_0000_0000int,
            ;
            return 0;
        }
        assert(ax * ax <= FAR * FAR) by (nonlinear_arith)
            requires
                0 <= ax <= FAR,
        ;
        assert(ay * ay <= FAR * FAR) by (nonlinear_arith)
            requires
                0 <= ay <= FAR,
        ;
        let d2: u128 = ax * ax + ay * ay;
        let uu: u128 = u * u;
        if d2 == 0 || uu >= d2 {
            PPM
        } else {
            let reach: u128 = PPM as u128 * uu;
            assert(reach / d2 <= PPM) by (nonlinear_arith)
                requires
                    reach == PPM * uu,
                    uu < d2,
                    d2 > 0,
            ;
            (reach / d2) as u64
        }
    }
}

} // verus!
