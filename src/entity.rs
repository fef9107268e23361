use crate::age_distribution::{AgeDistribution, MAX_AGE};
use crate::config::ConfigCore;
use crate::kinematics::{
    clamp_mag, clamp_magnitude, in_limit, mag2, sat, sat_add, saturating_add, vzero, Vec2, LIMIT,
};
use crate::policy::Policy;
use crate::rng::{draw_below, draw_ppm, seeded_stream, PPM};
use rand::rngs::StdRng;
use vstd::prelude::*;

verus! {

/// Health of an agent; the counter is the number of ticks left in the state.
#[derive(Clone, Copy, Debug, PartialEq, Eq, Structural)]
pub enum InfectionStatus {
    Susceptible,
    Infected(u32),
    Recovered(u32),
    Dead,
}

/// Whether an agent holds a hospital bed, and for how many more ticks.
#[derive(Clone, Copy, Debug, PartialEq, Eq, Structural)]
pub enum HospitalStatus {
    Hospitalized(u32),
    Free,
}

/// What other agents may read of an agent during the interaction pass: its
/// position and health as they stood when the pass began.
#[derive(Clone, Copy, Debug, PartialEq, Eq, Structural)]
pub struct Snapshot {
    pub position: Vec2,
    pub health: InfectionStatus,
}

/// Repulsion between two agents is their offset times the elapsed
/// milliseconds divided by this (a coefficient of 0.05 per second).
pub const REPULSION_DIVISOR: i128 = 20_000;

/// One simulated individual.
pub struct Entity {
    /// Stable identity: the agent's index in the population.
    pub id: usize,
    pub position: Vec2,
    pub velocity: Vec2,
    pub acceleration: Vec2,
    pub health: InfectionStatus,
    pub hospitalized: HospitalStatus,
    /// Whether the agent may move about (neither dead nor in hospital).
    pub mobile: bool,
    pub age: u8,
    /// The agent's private random stream.
    pub rng: StdRng,
}

pub open spec fn in_domain(p: Vec2, core: &ConfigCore) -> bool {
    &&& 0 <= p.x < core.dimensions.0
    &&& 0 <= p.y < core.dimensions.1
}

/// A coordinate `p` moving at `v` along an axis of length `w`: outside the
/// axis the coordinate is clamped to it and the speed is reversed.
pub open spec fn bounce(p: int, v: int, w: int) -> (int, int) {
    if p < 0 {
        (0, -v)
    } else if p >= w {
        (w - 1, -v)
    } else {
        (p, v)
    }
}

/// The repulsion along one axis for an offset `d` after `dt` milliseconds.
pub open spec fn repulsion(d: int, dt: int) -> int {
    let a = d * dt;
    sat(
        if a >= 0 {
            a / (REPULSION_DIVISOR as int)
        } else {
            -((-a) / (REPULSION_DIVISOR as int))
        },
    )
}

pub open spec fn force_between(p: Vec2, q: Vec2, dt: int) -> Vec2 {
    Vec2 { x: repulsion(p.x - q.x, dt) as i64, y: repulsion(p.y - q.y, dt) as i64 }
}

/// Acceleration after the forces from the first `n` listed neighbours.
pub open spec fn acceleration_after(
    acc: Vec2,
    p: Vec2,
    snapshot: Seq<Snapshot>,
    neighbors: Seq<usize>,
    dt: int,
    n: int,
) -> Vec2
    decreases n,
{
    if n <= 0 {
        acc
    } else {
        sat_add(
            acceleration_after(acc, p, snapshot, neighbors, dt, n - 1),
            force_between(p, snapshot[neighbors[n - 1] as int].position, dt),
        )
    }
}

/// Whether a test comes out positive, given a uniform draw in `0..PPM`.
pub open spec fn test_outcome(health: InfectionStatus, draw: int, core: &ConfigCore) -> bool {
    match health {
        InfectionStatus::Infected(_) => draw < core.test_true_positive,
        InfectionStatus::Dead => false,
        _ => draw >= core.test_true_negative,
    }
}

/// Health, bed and mobility after one tick of the state machine; `survives`
/// decides an infection that has run out.
pub open spec fn status_after(
    health: InfectionStatus,
    hospitalized: HospitalStatus,
    mobile: bool,
    survives: bool,
    core: &ConfigCore,
) -> (InfectionStatus, HospitalStatus, bool) {
    let (h, b, m) = match health {
        InfectionStatus::Infected(d) => if d == 0 {
            if survives {
                (InfectionStatus::Recovered(core.recovered_period), HospitalStatus::Free, mobile)
            } else {
                (InfectionStatus::Dead, HospitalStatus::Free, false)
            }
        } else {
            (InfectionStatus::Infected((d - 1) as u32), hospitalized, mobile)
        },
        InfectionStatus::Recovered(d) => if d == 0 {
            (InfectionStatus::Susceptible, HospitalStatus::Free, true)
        } else {
            (InfectionStatus::Recovered((d - 1) as u32), hospitalized, mobile)
        },
        _ => (health, hospitalized, mobile),
    };
    match b {
        HospitalStatus::Hospitalized(d) => if d == 0 {
            (h, HospitalStatus::Free, !(h is Dead))
        } else {
            (h, HospitalStatus::Hospitalized((d - 1) as u32), m)
        },
        HospitalStatus::Free => (h, b, m),
    }
}

/// The length of a hospital stay that starts now.
pub open spec fn stay_length(health: InfectionStatus, core: &ConfigCore) -> u32 {
    match health {
        InfectionStatus::Infected(d) => d,
        _ => core.hospital_period,
    }
}

/// Whether one of the first `n` listed neighbours infects `me`: an
/// infected neighbour does so when its draw falls below the policy's chance.
pub open spec fn infection_hits<P: Policy>(
    policy: &P,
    me: Snapshot,
    snapshot: Seq<Snapshot>,
    neighbors: Seq<usize>,
    draws: Seq<u64>,
    n: int,
) -> bool
    decreases n,
{
    if n <= 0 {
        false
    } else {
        infection_hits(policy, me, snapshot, neighbors, draws, n - 1) || (
        snapshot[neighbors[n - 1] as int].health is Infected && draws[n - 1]
            < policy.infection_spec(&snapshot[neighbors[n - 1] as int], &me))
    }
}

/// Health, bed and mobility after one tick of the state machine, when an
/// infection that has run out is decided by the draw `d` in `0..PPM`
/// against the policy's survival chance for `b`.
pub open spec fn resolved<P: Policy>(policy: &P, b: Entity, d: int, core: &ConfigCore) -> (
    InfectionStatus,
    HospitalStatus,
    bool,
) {
    status_after(b.health, b.hospitalized, b.mobile, d < policy.survival_spec(&b), core)
}

proof fn lemma_infection_hits_prefix<P: Policy>(
    policy: &P,
    me: Snapshot,
    snapshot: Seq<Snapshot>,
    neighbors: Seq<usize>,
    before: Seq<u64>,
    draws: Seq<u64>,
    k: int,
)
    requires
        0 <= k,
        before.len() == k,
        draws.len() == k + 1,
        draws.subrange(0, k) == before,
    ensures
        infection_hits(policy, me, snapshot, neighbors, draws, k) == infection_hits(
            policy,
            me,
            snapshot,
            neighbors,
            before,
            k,
        ),
    decreases k,
{
    if k > 0 {
        assert(draws.subrange(0, k - 1) == before.subrange(0, k - 1));
        assert(draws[k - 1] == before[k - 1]);
        lemma_infection_hits_same(policy, me, snapshot, neighbors, before, draws, k - 1);
    }
}

proof fn lemma_infection_hits_same<P: Policy>(
    policy: &P,
    me: Snapshot,
    snapshot: Seq<Snapshot>,
    neighbors: Seq<usize>,
    a: Seq<u64>,
    b: Seq<u64>,
    n: int,
)
    requires
        0 <= n,
        n <= a.len(),
        n <= b.len(),
        forall|i: int| 0 <= i < n ==> a[i] == b[i],
    ensures
        infection_hits(policy, me, snapshot, neighbors, a, n) == infection_hits(
            policy,
            me,
            snapshot,
            neighbors,
            b,
            n,
        ),
    decreases n,
{
    if n > 0 {
        lemma_infection_hits_same(policy, me, snapshot, neighbors, a, b, n - 1);
    }
}

/// What the interaction pass does to one agent `b`, leaving it as `a`.
pub open spec fn interacted<P: Policy>(
    policy: &P,
    b: Entity,
    a: Entity,
    snapshot: Seq<Snapshot>,
    neighbors: Seq<usize>,
    dt: int,
    core: &ConfigCore,
) -> bool {
    &&& a.acceleration == acceleration_after(
        b.acceleration,
        b.position,
        snapshot,
        neighbors,
        dt,
        neighbors.len() as int,
    )
    &&& a.id == b.id
    &&& a.position == b.position
    &&& a.velocity == b.velocity
    &&& a.hospitalized == b.hospitalized
    &&& a.mobile == b.mobile
    &&& a.age == b.age
    &&& !(b.health is Susceptible) ==> a.health == b.health
    &&& b.health is Susceptible ==> exists|draws: Seq<u64>|
        draws.len() == neighbors.len() && (forall|i: int| 0 <= i < draws.len() ==> draws[i] < PPM)
            && a.health == (if #[trigger] infection_hits(
            policy,
            b.snapshot_spec(),
            snapshot,
            neighbors,
            draws,
            neighbors.len() as int,
        ) {
            InfectionStatus::Infected(core.infected_period)
        } else {
            InfectionStatus::Susceptible
        })
}

proof fn lemma_component_bound(x: int, y: int, m: int)
    requires
        m >= 0,
        x * x + y * y <= m * m,
    ensures
        -m <= x <= m,
{
    assert(x * x <= m * m) by (nonlinear_arith)
        requires
            x * x + y * y <= m * m,
    ;
    assert(-m <= x <= m) by (nonlinear_arith)
        requires
            x * x <= m * m,
            m >= 0,
    ;
}

fn bounce_exec(p: i64, v: i64, w: i64) -> (r: (i64, i64))
    requires
        0 < w,
        -LIMIT <= v,
    ensures
        (r.0 as int, r.1 as int) == bounce(p as int, v as int, w as int),
        -LIMIT <= r.1,
{
    if p < 0 {
        (0, -v)
    } else if p >= w {
        (w - 1, -v)
    } else {
        (p, v)
    }
}

fn repulsion_exec(d: i64, dt: u32) -> (r: i64)
    ensures
        r == repulsion(d as int, dt as int),
        -LIMIT <= r,
{
    assert(-0x8000_0000_0000_0000_0000_0000 <= d * dt <= 0x8000_0000_0000_0000_0000_0000)
        by (nonlinear_arith)
        requires
            -0x8000_0000_0000_0000 <= d < 0x8000_0000_0000_0000,
            0 <= dt < 0x1_0000_0000,
    ;
    let a: i128 = d as i128 * dt as i128;
    let q: i128 = if a >= 0 {
        a / REPULSION_DIVISOR
    } else {
        -((-a) / REPULSION_DIVISOR)
    };
    if q > LIMIT as i128 {
        LIMIT
    } else if q < -(LIMIT as i128) {
        -LIMIT
    } else {
        q as i64
    }
}

impl Entity {
    /// What the library keeps true of every agent.
    pub open spec fn wf(&self, core: &ConfigCore) -> bool {
        &&& self.age <= MAX_AGE
        &&& in_domain(self.position, core)
        &&& in_limit(self.velocity)
        &&& in_limit(self.acceleration)
        &&& !(self.health is Dead && self.hospitalized is Hospitalized)
    }

    pub open spec fn snapshot_spec(&self) -> Snapshot {
        Snapshot { position: self.position, health: self.health }
    }

    /// Position after `update_movement`.
    pub open spec fn moved_position(&self, core: &ConfigCore) -> Vec2 {
        let c = clamp_mag(self.velocity, core.max_velocity as int);
        let v = sat_add(c, self.acceleration);
        Vec2 {
            x: bounce(self.position.x + c.x, v.x as int, core.dimensions.0 as int).0 as i64,
            y: bounce(self.position.y + c.y, v.y as int, core.dimensions.1 as int).0 as i64,
        }
    }

    /// Velocity after `update_movement`.
    pub open spec fn moved_velocity(&self, core: &ConfigCore) -> Vec2 {
        let c = clamp_mag(self.velocity, core.max_velocity as int);
        let v = sat_add(c, self.acceleration);
        Vec2 {
            x: bounce(self.position.x + c.x, v.x as int, core.dimensions.0 as int).1 as i64,
            y: bounce(self.position.y + c.y, v.y as int, core.dimensions.1 as int).1 as i64,
        }
    }

    /// A new agent with identity `id`: a uniform position in the domain,
    /// infected with chance `initial_infected`, mobile with chance
    /// `initial_mobile`, an age drawn from `ages`, and a private random
    /// stream seeded with `seed`.
    pub fn new(id: usize, core: &ConfigCore, ages: &AgeDistribution, seed: u64) -> (r: Entity)
        requires
            core.wf(),
            ages.wf(),
        ensures
            r.wf(core),
            r.id == id,
            r.velocity == vzero(),
            r.acceleration == vzero(),
            r.hospitalized == HospitalStatus::Free,
            r.health == InfectionStatus::Susceptible || r.health == InfectionStatus::Infected(
                core.infected_period,
            ),
            core.initial_infected == 0 ==> r.health == InfectionStatus::Susceptible,
            core.initial_infected == PPM ==> r.health == InfectionStatus::Infected(
                core.infected_period,
            ),
            core.initial_mobile == 0 ==> !r.mobile,
            core.initial_mobile == PPM ==> r.mobile,
            ages.weights@[r.age as int] > 0,
    {
        let mut rng = seeded_stream(seed);
        let x = draw_below(&mut rng, core.dimensions.0 as u64);
        let y = draw_below(&mut rng, core.dimensions.1 as u64);
        let infected = draw_ppm(&mut rng) < core.initial_infected;
        let mobile = draw_ppm(&mut rng) < core.initial_mobile;
        let age = ages.sample(&mut rng);
        Entity {
            id,
            position: Vec2 { x: x as i64, y: y as i64 },
            velocity: Vec2 { x: 0, y: 0 },
            acceleration: Vec2 { x: 0, y: 0 },
            health: if infected {
                InfectionStatus::Infected(core.infected_period)
            } else {
                InfectionStatus::Susceptible
            },
            hospitalized: HospitalStatus::Free,
            mobile,
            age,
            rng,
        }
    }

    /// An agent in a given state, out of hospital, at rest, with a private
    /// random stream seeded with `seed`.
    pub fn with_state(
        id: usize,
        position: Vec2,
        velocity: Vec2,
        health: InfectionStatus,
        mobile: bool,
        age: u8,
        seed: u64,
    ) -> (r: Entity)
        ensures
            r.id == id,
            r.position == position,
            r.velocity == velocity,
            r.acceleration == vzero(),
            r.health == health,
            r.hospitalized == HospitalStatus::Free,
            r.mobile == mobile,
            r.age == age,
    {
        Entity {
            id,
            position,
            velocity,
            acceleration: Vec2 { x: 0, y: 0 },
            health,
            hospitalized: HospitalStatus::Free,
            mobile,
            age,
            rng: seeded_stream(seed),
        }
    }

    /// Moves the agent one tick: the velocity is clamped to the maximum
    /// speed, the position advances by it, the acceleration is added to the
    /// velocity and reset, and on each axis where the position left the
    /// domain it is clamped back and the velocity component reversed.
    pub fn update_movement(&mut self, core: &ConfigCore)
        requires
            core.wf(),
            old(self).wf(core),
        ensures
            final(self).wf(core),
            final(self).position == old(self).moved_position(core),
            final(self).velocity == old(self).moved_velocity(core),
            final(self).acceleration == vzero(),
            final(self).id == old(self).id,
            final(self).health == old(self).health,
            final(self).hospitalized == old(self).hospitalized,
            final(self).mobile == old(self).mobile,
            final(self).age == old(self).age,
            final(self).rng == old(self).rng,
    {
        let c = clamp_magnitude(self.velocity, core.max_velocity);
        proof {
            if mag2(self.velocity) <= core.max_velocity * core.max_velocity {
                lemma_component_bound(c.x as int, c.y as int, core.max_velocity as int);
                lemma_component_bound(c.y as int, c.x as int, core.max_velocity as int);
            }
        }
        let px: i64 = self.position.x + c.x;
        let py: i64 = self.position.y + c.y;
        let v = saturating_add(c, self.acceleration);
        let (nx, vx) = bounce_exec(px, v.x, core.dimensions.0);
        let (ny, vy) = bounce_exec(py, v.y, core.dimensions.1);
        self.position = Vec2 { x: nx, y: ny };
        self.velocity = Vec2 { x: vx, y: vy };
        self.acceleration = Vec2 { x: 0, y: 0 };
    }

    /// Adds `force` to the acceleration, saturating.
    pub fn apply_force(&mut self, force: Vec2)
        requires
            in_limit(old(self).acceleration),
            in_limit(force),
        ensures
            final(self).acceleration == sat_add(old(self).acceleration, force),
            final(self).id == old(self).id,
            final(self).position == old(self).position,
            final(self).velocity == old(self).velocity,
            final(self).health == old(self).health,
            final(self).hospitalized == old(self).hospitalized,
            final(self).mobile == old(self).mobile,
            final(self).age == old(self).age,
            final(self).rng == old(self).rng,
    {
        self.acceleration = saturating_add(self.acceleration, force);
    }

    /// Runs an infection test: positive with chance `test_true_positive` when
    /// infected, negative with chance `test_true_negative` when susceptible or
    /// recovered, never positive when dead.
    pub fn test(&mut self, core: &ConfigCore) -> (r: bool)
        ensures
            exists|d: int| 0 <= d < PPM && r == test_outcome(old(self).health, d, core),
            old(self).health is Dead ==> !r && *final(self) == *old(self),
            final(self).id == old(self).id,
            final(self).position == old(self).position,
            final(self).velocity == old(self).velocity,
            final(self).acceleration == old(self).acceleration,
            final(self).health == old(self).health,
            final(self).hospitalized == old(self).hospitalized,
            final(self).mobile == old(self).mobile,
            final(self).age == old(self).age,
    {
        match self.health {
            InfectionStatus::Dead => {
                assert(test_outcome(self.health, 0, core) == false);
                false
            },
            InfectionStatus::Infected(_) => {
                let d = draw_ppm(&mut self.rng);
                let r = d < core.test_true_positive;
                assert(r == test_outcome(self.health, d as int, core));
                r
            },
            _ => {
                let d = draw_ppm(&mut self.rng);
                let r = d >= core.test_true_negative;
                assert(r == test_outcome(self.health, d as int, core));
                r
            },
        }
    }

    /// Puts the agent in a hospital bed for `stay_length` ticks and makes it
    /// immobile; a dead agent gets no bed.
    pub fn hospitalize(&mut self, core: &ConfigCore)
        ensures
            final(self).hospitalized == (if old(self).health is Dead {
                HospitalStatus::Free
            } else {
                HospitalStatus::Hospitalized(stay_length(old(self).health, core))
            }),
            !final(self).mobile,
            final(self).id == old(self).id,
            final(self).position == old(self).position,
            final(self).velocity == old(self).velocity,
            final(self).acceleration == old(self).acceleration,
            final(self).health == old(self).health,
            final(self).age == old(self).age,
            final(self).rng == old(self).rng,
    {
        self.hospitalized = match self.health {
            InfectionStatus::Susceptible => HospitalStatus::Hospitalized(core.hospital_period),
            InfectionStatus::Infected(d) => HospitalStatus::Hospitalized(d),
            InfectionStatus::Recovered(_) => HospitalStatus::Hospitalized(core.hospital_period),
            InfectionStatus::Dead => HospitalStatus::Free,
        };
        self.mobile = false;
    }

    /// Frees the agent's bed; it may move again unless dead.
    pub fn release(&mut self)
        ensures
            final(self).hospitalized == HospitalStatus::Free,
            final(self).mobile == !(old(self).health is Dead),
            final(self).id == old(self).id,
            final(self).position == old(self).position,
            final(self).velocity == old(self).velocity,
            final(self).acceleration == old(self).acceleration,
            final(self).health == old(self).health,
            final(self).age == old(self).age,
            final(self).rng == old(self).rng,
    {
        self.hospitalized = HospitalStatus::Free;
        self.mobile = !matches!(self.health, InfectionStatus::Dead);
    }

    pub fn is_hospitalized(&self) -> (r: bool)
        ensures
            r == (self.hospitalized is Hospitalized),
    {
        match self.hospitalized {
            HospitalStatus::Hospitalized(_) => true,
            HospitalStatus::Free => false,
        }
    }

    pub fn status(&self) -> (r: &InfectionStatus)
        ensures
            *r == self.health,
    {
        &self.health
    }

    pub fn health(&self) -> (r: &InfectionStatus)
        ensures
            *r == self.health,
    {
        &self.health
    }

    pub fn age(&self) -> (r: u8)
        ensures
            r == self.age,
    {
        self.age
    }

    pub fn position(&self) -> (r: Vec2)
        ensures
            r == self.position,
    {
        self.position
    }

    /// The agent as others read it during the interaction pass.
    pub fn snapshot(&self) -> (r: Snapshot)
        ensures
            r == self.snapshot_spec(),
    {
        Snapshot { position: self.position, health: self.health }
    }

    /// A uniform draw in `0..PPM` from the agent's stream.
    pub fn rand(&mut self) -> (r: u64)
        ensures
            r < PPM,
            final(self).id == old(self).id,
            final(self).position == old(self).position,
            final(self).velocity == old(self).velocity,
            final(self).acceleration == old(self).acceleration,
            final(self).health == old(self).health,
            final(self).hospitalized == old(self).hospitalized,
            final(self).mobile == old(self).mobile,
            final(self).age == old(self).age,
    {
        draw_ppm(&mut self.rng)
    }

    /// Immunity has run out: the agent is susceptible, free and mobile again.
    pub fn susceptible(&mut self)
        ensures
            final(self).health == InfectionStatus::Susceptible,
            final(self).hospitalized == HospitalStatus::Free,
            final(self).mobile,
            final(self).id == old(self).id,
            final(self).position == old(self).position,
            final(self).velocity == old(self).velocity,
            final(self).acceleration == old(self).acceleration,
            final(self).age == old(self).age,
            final(self).rng == old(self).rng,
    {
        self.health = InfectionStatus::Susceptible;
        self.hospitalized = HospitalStatus::Free;
        self.mobile = true;
    }

    /// The agent survived its infection: immune for `recovered_period` ticks,
    /// out of hospital.
    pub fn recover(&mut self, core: &ConfigCore)
        ensures
            final(self).health == InfectionStatus::Recovered(core.recovered_period),
            final(self).hospitalized == HospitalStatus::Free,
            final(self).mobile == old(self).mobile,
            final(self).id == old(self).id,
            final(self).position == old(self).position,
            final(self).velocity == old(self).velocity,
            final(self).acceleration == old(self).acceleration,
            final(self).age == old(self).age,
            final(self).rng == old(self).rng,
    {
        self.health = InfectionStatus::Recovered(core.recovered_period);
        self.hospitalized = HospitalStatus::Free;
    }

    /// The agent died: it leaves hospital and never moves again.
    pub fn die(&mut self)
        ensures
            final(self).health == InfectionStatus::Dead,
            final(self).hospitalized == HospitalStatus::Free,
            !final(self).mobile,
            final(self).id == old(self).id,
            final(self).position == old(self).position,
            final(self).velocity == old(self).velocity,
            final(self).acceleration == old(self).acceleration,
            final(self).age == old(self).age,
            final(self).rng == old(self).rng,
    {
        self.health = InfectionStatus::Dead;
        self.hospitalized = HospitalStatus::Free;
        self.mobile = false;
    }

    /// The agent caught the infection: infected for `infected_period` ticks.
    pub fn infect(&mut self, core: &ConfigCore)
        ensures
            final(self).health == InfectionStatus::Infected(core.infected_period),
            final(self).hospitalized == old(self).hospitalized,
            final(self).mobile == old(self).mobile,
            final(self).id == old(self).id,
            final(self).position == old(self).position,
            final(self).velocity == old(self).velocity,
            final(self).acceleration == old(self).acceleration,
            final(self).age == old(self).age,
            final(self).rng == old(self).rng,
    {
        self.health = InfectionStatus::Infected(core.infected_period);
    }

    /// One tick of the state machine, health first, then the hospital bed;
    /// `survives` decides an infection that has run out.
    pub fn apply_status(&mut self, survives: bool, core: &ConfigCore)
        requires
            old(self).wf(core),
        ensures
            final(self).wf(core),
            (final(self).health, final(self).hospitalized, final(self).mobile) == status_after(
                old(self).health,
                old(self).hospitalized,
                old(self).mobile,
                survives,
                core,
            ),
            final(self).id == old(self).id,
            final(self).position == old(self).position,
            final(self).velocity == old(self).velocity,
            final(self).acceleration == old(self).acceleration,
            final(self).age == old(self).age,
            final(self).rng == old(self).rng,
    {
        match self.health {
            InfectionStatus::Infected(d) => {
                if d == 0 {
                    if survives {
                        self.recover(core);
                    } else {
                        self.die();
                    }
                } else {
                    self.health = InfectionStatus::Infected(d - 1);
                }
            },
            InfectionStatus::Recovered(d) => {
                if d == 0 {
                    self.susceptible();
                } else {
                    self.health = InfectionStatus::Recovered(d - 1);
                }
            },
            _ => {},
        }
        match self.hospitalized {
            HospitalStatus::Hospitalized(d) => {
                if d == 0 {
                    self.release();
                } else {
                    self.hospitalized = HospitalStatus::Hospitalized(d - 1);
                }
            },
            HospitalStatus::Free => {},
        }
    }

    /// One tick of the state machine. An infection that has run out ends in
    /// recovery when a draw in `0..PPM` from the agent's stream falls below
    /// the policy's survival chance for this agent, and in death otherwise;
    /// only then is a value drawn.
    pub fn update_status<P: Policy>(&mut self, core: &ConfigCore, policy: &P)
        requires
            old(self).wf(core),
        ensures
            final(self).wf(core),
            exists|d: int|
                0 <= d < PPM && (final(self).health, final(self).hospitalized, final(self).mobile)
                    == #[trigger] resolved(policy, *old(self), d, core),
            old(self).health != InfectionStatus::Infected(0) ==> final(self).rng == old(self).rng,
            final(self).id == old(self).id,
            final(self).position == old(self).position,
            final(self).velocity == old(self).velocity,
            final(self).acceleration == old(self).acceleration,
            final(self).age == old(self).age,
    {
        let ghost start = *self;
        if self.health == InfectionStatus::Infected(0) {
            let chance = policy.survival_chance(self);
            let draw = self.rand();
            self.apply_status(draw < chance, core);
            assert((self.health, self.hospitalized, self.mobile) == resolved(policy, start, draw as int, core));
        } else {
            self.apply_status(true, core);
            assert((self.health, self.hospitalized, self.mobile) == resolved(policy, start, 0, core));
        }
    }

    /// The interaction pass for this agent: each listed neighbour (an index
    /// into `snapshot`) pushes it away in proportion to their offset and the
    /// elapsed milliseconds, and while the agent is susceptible each infected
    /// neighbour infects it when a draw in `0..PPM` falls below the policy's
    /// infection chance.
    pub fn interact<P: Policy>(
        &mut self,
        snapshot: &Vec<Snapshot>,
        neighbors: &Vec<usize>,
        elapsed_ms: u32,
        core: &ConfigCore,
        policy: &P,
    )
        requires
            old(self).wf(core),
            forall|k: int| 0 <= k < neighbors@.len() ==> #[trigger] neighbors@[k] < snapshot@.len(),
            forall|j: int|
                0 <= j < snapshot@.len() ==> in_domain(#[trigger] snapshot@[j].position, core),
        ensures
            final(self).wf(core),
            interacted(policy, *old(self), *final(self), snapshot@, neighbors@, elapsed_ms as int, core),
    {
        let ghost start = *self;
        let ghost me = start.snapshot_spec();
        let ghost mut draws: Seq<u64> = Seq::empty();
        let mut k: usize = 0;
        while k < neighbors.len()
            invariant
                self.wf(core),
                0 <= k <= neighbors@.len(),
                forall|i: int| 0 <= i < neighbors@.len() ==> #[trigger] neighbors@[i] < snapshot@.len(),
                forall|j: int|
                    0 <= j < snapshot@.len() ==> in_domain(#[trigger] snapshot@[j].position, core),
                me == start.snapshot_spec(),
                self.acceleration == acceleration_after(
                    start.acceleration,
                    start.position,
                    snapshot@,
                    neighbors@,
                    elapsed_ms as int,
                    k as int,
                ),
                !(start.health is Susceptible) ==> self.health == start.health,
                draws.len() == k,
                forall|i: int| 0 <= i < k ==> #[trigger] draws[i] < PPM,
                start.health is Susceptible ==> self.health == (if infection_hits(
                    policy,
                    me,
                    snapshot@,
                    neighbors@,
                    draws,
                    k as int,
                ) {
                    InfectionStatus::Infected(core.infected_period)
                } else {
                    InfectionStatus::Susceptible
                }),
                self.id == start.id,
                self.position == start.position,
                self.velocity == start.velocity,
                self.hospitalized == start.hospitalized,
                self.mobile == start.mobile,
                self.age == start.age,
            decreases neighbors@.len() - k,
        {
            let other = snapshot[neighbors[k]];
            let fx = repulsion_exec(self.position.x - other.position.x, elapsed_ms);
            let fy = repulsion_exec(self.position.y - other.position.y, elapsed_ms);
            self.apply_force(Vec2 { x: fx, y: fy });
            let ghost before = draws;
            match (other.health, self.health) {
                (InfectionStatus::Infected(_), InfectionStatus::Susceptible) => {
                    let target = self.snapshot();
                    let chance = policy.infection_chance(&other, &target);
                    let draw = self.rand();
                    proof {
                        draws = draws.push(draw);
                    }
                    if draw < chance {
                        self.infect(core);
                    }
                },
                _ => {
                    proof {
                        draws = draws.push(0);
                    }
                },
            }
            proof {
                assert(draws.subrange(0, k as int) =~= before);
                assert forall|i: int| 0 <= i < k + 1 implies #[trigger] draws[i] < PPM by {
                    if i < k {
                        assert(draws[i] == before[i]);
                    }
                }
                lemma_infection_hits_prefix(policy, me, snapshot@, neighbors@, before, draws, k as int);
            }
            k = k + 1;
        }
        assert(infection_hits(policy, me, snapshot@, neighbors@, draws, neighbors@.len() as int)
            == infection_hits(policy, me, snapshot@, neighbors@, draws, neighbors@.len() as int));
    }

}

} // verus!
