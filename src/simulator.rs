use crate::age_distribution::AgeDistribution;
use crate::config::ConfigCore;
use crate::entity::{InfectionStatus, in_domain, interacted, resolved, stay_length, Entity, HospitalStatus, Snapshot};
use crate::kinematics::vzero;
use crate::rng::PPM;
use crate::hospital::{ids_unique, on_roster, Hospital, Patient};
use crate::policy::Policy;
use crate::rng::{draw_below, seeded_stream};
use rand::rngs::StdRng;
use vstd::prelude::*;

verus! {

/// First index of partition `w` when `n` agents are split among `t` workers.
pub open spec fn partition_start(n: int, t: int, w: int) -> int {
    w * n / t
}

/// The static split of `0..n` into `t` contiguous ranges, one per worker.
pub open spec fn partition_spec(n: int, t: int) -> Seq<(usize, usize)> {
    Seq::new(
        t as nat,
        |w: int| (partition_start(n, t, w) as usize, partition_start(n, t, w + 1) as usize),
    )
}

proof fn lemma_partition_bounds(n: int, t: int, w: int)
    requires
        n >= 0,
        t > 0,
        0 <= w < t,
    ensures
        0 <= partition_start(n, t, w) <= partition_start(n, t, w + 1) <= n,
{
    assert(0 <= w * n) by (nonlinear_arith)
        requires
            n >= 0,
            w >= 0,
    ;
    assert(w * n <= (w + 1) * n <= t * n) by (nonlinear_arith)
        requires
            n >= 0,
            0 <= w < t,
    ;
    assert(0 <= w * n / t) by (nonlinear_arith)
        requires
            0 <= w * n,
            t > 0,
    ;
    assert(w * n / t <= (w + 1) * n / t) by (nonlinear_arith)
        requires
            w * n <= (w + 1) * n,
            t > 0,
    ;
    assert((w + 1) * n / t <= t * n / t) by (nonlinear_arith)
        requires
            (w + 1) * n <= t * n,
            t > 0,
    ;
    assert(t * n / t == n) by (nonlinear_arith)
        requires
            t > 0,
    ;
}

/// Splits `0..n` into `workers` contiguous ranges whose sizes differ by at
/// most one.
pub fn partition(n: usize, workers: usize) -> (r: Vec<(usize, usize)>)
    requires
        workers > 0,
    ensures
        r@ == partition_spec(n as int, workers as int),
{
    let mut r: Vec<(usize, usize)> = Vec::new();
    let mut w: usize = 0;
    while w < workers
        invariant
            workers > 0,
            0 <= w <= workers,
            r@ =~= partition_spec(n as int, workers as int).take(w as int),
        decreases workers - w,
    {
        proof {
            lemma_partition_bounds(n as int, workers as int, w as int);
        }
        assert(usize::MAX <= u64::MAX);
        assert((w + 1) * n <= usize::MAX * usize::MAX) by (nonlinear_arith)
            requires
                0 <= w < workers,
                0 <= n,
                workers <= usize::MAX,
                n <= usize::MAX,
        ;
        assert(w * n <= (w + 1) * n) by (nonlinear_arith)
            requires
                0 <= w,
                0 <= n,
        ;
        assert(usize::MAX * usize::MAX <= u64::MAX * u64::MAX) by (nonlinear_arith)
            requires
                usize::MAX <= u64::MAX,
        ;
        let lo_wide: u128 = w as u128 * n as u128 / workers as u128;
        let hi_wide: u128 = (w as u128 + 1) * n as u128 / workers as u128;
        let lo = lo_wide as usize;
        let hi = hi_wide as usize;
        r.push((lo, hi));
        assert(r@[w as int] == partition_spec(n as int, workers as int)[w as int]);
        w = w + 1;
    }
    r
}

/// The partitions cover `0..n` in order: the first starts at 0, each
/// starts where the one before it ends, and the last ends at `n`.
pub proof fn partitions_cover(n: int, t: int)
    requires
        0 <= n <= usize::MAX,
        t > 0,
    ensures
        partition_spec(n, t)[0].0 == 0,
        partition_spec(n, t)[t - 1].1 == n,
        forall|w: int|
            0 <= w < t ==> (#[trigger] partition_spec(n, t)[w]).0 <= partition_spec(n, t)[w].1,
        forall|w: int|
            0 <= w < t - 1 ==> (#[trigger] partition_spec(n, t)[w]).1 == partition_spec(n, t)[w
                + 1].0,
{
    assert forall|w: int| 0 <= w < t implies (#[trigger] partition_spec(n, t)[w]).0
        <= partition_spec(n, t)[w].1 && partition_spec(n, t)[w].1 <= n by {
        lemma_partition_bounds(n, t, w);
    }
    lemma_partition_bounds(n, t, 0);
    lemma_partition_bounds(n, t, t - 1);
    assert(partition_start(n, t, 0) == 0) by (nonlinear_arith)
        requires
            t > 0,
    ;
    assert(partition_start(n, t, t) == n) by (nonlinear_arith)
        requires
            t > 0,
    ;
    assert forall|w: int| 0 <= w < t - 1 implies (#[trigger] partition_spec(n, t)[w]).1
        == partition_spec(n, t)[w + 1].0 by {
        lemma_partition_bounds(n, t, w);
        lemma_partition_bounds(n, t, w + 1);
    }
}

/// Runs the simulation one tick at a time.
pub struct Simulator {
    pub core: ConfigCore,
    /// The agents; agent `i` has identity `i`.
    pub population: Vec<Entity>,
    /// Ticks run so far.
    pub time: u32,
    pub threads: usize,
    /// The range of agents each worker owns, fixed for the run.
    pub partitions: Vec<(usize, usize)>,
    pub hospital: Hospital,
    /// The stream that picks the agents to test.
    pub rng: StdRng,
}

/// The agents that hold a bed are exactly those on the roster.
pub open spec fn beds_agree(population: Seq<Entity>, hospital: Hospital) -> bool {
    &&& forall|i: int|
        0 <= i < population.len() ==> (hospital.has(i as usize) <==> (#[trigger] population[i]).hospitalized is Hospitalized)
    &&& forall|k: int|
        0 <= k < hospital.enlisted@.len() ==> (#[trigger] hospital.enlisted@[k]).entity_id
            < population.len()
}

/// What every pass keeps of an agent: its validity, identity and age, and
/// death once it has come.
pub open spec fn agent_kept(before: Entity, after: Entity, core: &ConfigCore) -> bool {
    &&& after.wf(core)
    &&& after.id == before.id
    &&& after.age == before.age
    &&& (before.health is Dead ==> after.health is Dead)
}

proof fn lemma_on_roster_push(r: Seq<Patient>, p: Patient, id: usize)
    ensures
        on_roster(r.push(p), id) <==> (on_roster(r, id) || p.entity_id == id),
{
    if on_roster(r, id) {
        let i = choose|i: int| 0 <= i < r.len() && (#[trigger] r[i]).entity_id == id;
        assert(r.push(p)[i] == r[i]);
    }
    if p.entity_id == id {
        assert(r.push(p)[r.len() as int] == p);
    }
    if on_roster(r.push(p), id) {
        let i = choose|i: int| 0 <= i < r.push(p).len() && (#[trigger] r.push(p)[i]).entity_id == id;
        if i < r.len() {
            assert(r.push(p)[i] == r[i]);
        }
    }
}

proof fn lemma_on_roster_remove(r: Seq<Patient>, i: int, id: usize)
    requires
        ids_unique(r),
        0 <= i < r.len(),
    ensures
        on_roster(r.remove(i), id) <==> (on_roster(r, id) && r[i].entity_id != id),
{
    if on_roster(r, id) && r[i].entity_id != id {
        let j = choose|j: int| 0 <= j < r.len() && (#[trigger] r[j]).entity_id == id;
        if j < i {
            assert(r.remove(i)[j] == r[j]);
        } else {
            assert(r.remove(i)[j - 1] == r[j]);
        }
    }
    if on_roster(r.remove(i), id) {
        let j = choose|j: int| 0 <= j < r.remove(i).len() && (#[trigger] r.remove(i)[j]).entity_id == id;
        let j2 = if j < i { j } else { j + 1 };
        assert(r.remove(i)[j] == r[j2]);
        assert(r[j2].entity_id != r[i].entity_id);
    }
}

proof fn lemma_on_roster_same_ids(r: Seq<Patient>, q: Seq<Patient>, id: usize)
    requires
        r.len() == q.len(),
        forall|k: int| 0 <= k < r.len() ==> (#[trigger] r[k]).entity_id == q[k].entity_id,
    ensures
        on_roster(r, id) <==> on_roster(q, id),
{
    if on_roster(r, id) {
        let k = choose|k: int| 0 <= k < r.len() && (#[trigger] r[k]).entity_id == id;
        assert(q[k].entity_id == id);
    }
    if on_roster(q, id) {
        let k = choose|k: int| 0 <= k < q.len() && (#[trigger] q[k]).entity_id == id;
        assert(r[k].entity_id == id);
    }
}

/// Positions and health of every agent, as the interaction pass reads them.
pub open spec fn snapshot_of(pop: Seq<Entity>) -> Seq<Snapshot> {
    Seq::new(pop.len(), |j: int| pop[j].snapshot_spec())
}

/// What the admission pass may do to one agent `b`, leaving it as `a`:
/// test it, which advances its stream, and give it a bed for
/// `stay_length` ticks if it held none and is alive.
pub open spec fn admitted_or_kept(b: Entity, a: Entity, core: &ConfigCore) -> bool {
    &&& a.id == b.id
    &&& a.position == b.position
    &&& a.velocity == b.velocity
    &&& a.acceleration == b.acceleration
    &&& a.health == b.health
    &&& a.age == b.age
    &&& (a.hospitalized == b.hospitalized && a.mobile == b.mobile) || (b.hospitalized is Free
        && !(b.health is Dead) && a.hospitalized == HospitalStatus::Hospitalized(
        stay_length(b.health, core),
    ) && !a.mobile)
}

/// What the transition pass does to one agent `b`, leaving it as `a`: one
/// tick of the state machine, an infection that has run out being decided
/// by a draw against the policy's survival chance, then one movement step.
pub open spec fn ticked<P: Policy>(policy: &P, b: Entity, a: Entity, core: &ConfigCore) -> bool {
    &&& exists|d: int|
        0 <= d < PPM && (a.health, a.hospitalized, a.mobile) == #[trigger] resolved(
            policy,
            b,
            d,
            core,
        )
    &&& a.position == b.moved_position(core)
    &&& a.velocity == b.moved_velocity(core)
    &&& a.acceleration == vzero()
    &&& a.id == b.id
    &&& a.age == b.age
}

/// One tick, agent by agent: `p0` is the population before it, `p1` after
/// the interaction pass over `neighbors` (read against `p0`), `p2` after the
/// admission pass and `p3` after the transition pass.
pub open spec fn tick_phases<P: Policy>(
    policy: &P,
    p0: Seq<Entity>,
    p1: Seq<Entity>,
    p2: Seq<Entity>,
    p3: Seq<Entity>,
    neighbors: Seq<Vec<usize>>,
    dt: int,
    core: &ConfigCore,
) -> bool {
    &&& p1.len() == p0.len()
    &&& p2.len() == p0.len()
    &&& p3.len() == p0.len()
    &&& forall|i: int|
        0 <= i < p0.len() ==> interacted(
            policy,
            p0[i],
            #[trigger] p1[i],
            snapshot_of(p0),
            neighbors[i]@,
            dt,
            core,
        )
    &&& forall|i: int| 0 <= i < p0.len() ==> admitted_or_kept(p1[i], #[trigger] p2[i], core)
    &&& forall|i: int| 0 <= i < p0.len() ==> ticked(policy, p2[i], #[trigger] p3[i], core)
}

/// In one tick infection enters only from susceptibility: a recovered agent
/// ends it recovered or susceptible, a dead one dead, and an infected one
/// counts down, or, once its time has run out, recovers or dies.
pub proof fn infection_runs_its_course<P: Policy>(
    policy: &P,
    p0: Seq<Entity>,
    p1: Seq<Entity>,
    p2: Seq<Entity>,
    p3: Seq<Entity>,
    neighbors: Seq<Vec<usize>>,
    dt: int,
    core: &ConfigCore,
)
    requires
        tick_phases(policy, p0, p1, p2, p3, neighbors, dt, core),
    ensures
        forall|i: int| 0 <= i < p0.len() ==> health_follows(p0[i].health, #[trigger] p3[i].health, core),
{
    assert forall|i: int| 0 <= i < p0.len() implies health_follows(p0[i].health, #[trigger] p3[i].health, core) by {
        assert(interacted(policy, p0[i], p1[i], snapshot_of(p0), neighbors[i]@, dt, core));
        assert(admitted_or_kept(p1[i], p2[i], core));
        assert(ticked(policy, p2[i], p3[i], core));
    }
}

/// How an agent that is not susceptible may change health in one tick.
pub open spec fn health_follows(
    before: InfectionStatus,
    after: InfectionStatus,
    core: &ConfigCore,
) -> bool {
    match before {
        InfectionStatus::Susceptible => true,
        InfectionStatus::Infected(d) => if d == 0 {
            after == InfectionStatus::Recovered(core.recovered_period) || after
                == InfectionStatus::Dead
        } else {
            after == InfectionStatus::Infected((d - 1) as u32)
        },
        InfectionStatus::Recovered(d) => if d == 0 {
            after == InfectionStatus::Susceptible
        } else {
            after == InfectionStatus::Recovered((d - 1) as u32)
        },
        InfectionStatus::Dead => after == InfectionStatus::Dead,
    }
}

proof fn lemma_partition_ends(n: int, t: int)
    requires
        n >= 0,
        t > 0,
    ensures
        partition_start(n, t, 0) == 0,
        partition_start(n, t, t) == n,
{
    assert(0 * n / t == 0) by (nonlinear_arith)
        requires
            t > 0,
    ;
    assert(t * n / t == n) by (nonlinear_arith)
        requires
            t > 0,
    ;
}

/// A new agent: at rest, out of hospital, and susceptible or infected for
/// the whole infected period.
pub open spec fn fresh(e: Entity, core: &ConfigCore) -> bool {
    &&& e.velocity == vzero()
    &&& e.acceleration == vzero()
    &&& e.hospitalized == HospitalStatus::Free
    &&& (e.health == InfectionStatus::Susceptible || e.health == InfectionStatus::Infected(
        core.infected_period,
    ))
}

pub open spec fn agents_wf(population: Seq<Entity>, core: &ConfigCore) -> bool {
    forall|i: int|
        0 <= i < population.len() ==> (#[trigger] population[i]).wf(core) && population[i].id
            == i
}

impl Simulator {
    pub open spec fn wf(&self) -> bool {
        &&& self.core.wf()
        &&& self.hospital.wf()
        &&& self.hospital.capacity == self.core.hospital_capacity
        &&& self.threads > 0
        &&& self.partitions@ == partition_spec(self.population@.len() as int, self.threads as int)
        &&& agents_wf(self.population@, &self.core)
        &&& beds_agree(self.population@, self.hospital)
    }

    /// A simulator over `population_size` new agents, agent `i` seeded from a
    /// stream seeded with `seed`, split among `threads` workers.
    pub fn new(core: ConfigCore, ages: &AgeDistribution, threads: usize, seed: u64) -> (r:
        Simulator)
        requires
            core.wf(),
            ages.wf(),
            threads > 0,
        ensures
            r.wf(),
            r.core == core,
            r.time == 0,
            r.threads == threads,
            r.population@.len() == core.population_size,
            r.hospital.enlisted@.len() == 0,
            forall|j: int|
                0 <= j < r.population@.len() ==> fresh(#[trigger] r.population@[j], &core),
    {
        let mut rng = seeded_stream(seed);
        let mut population: Vec<Entity> = Vec::new();
        let mut i: u32 = 0;
        while i < core.population_size
            invariant
                core.wf(),
                ages.wf(),
                0 <= i <= core.population_size,
                population@.len() == i,
                forall|j: int|
                    0 <= j < i ==> (#[trigger] population@[j]).wf(&core) && population@[j].id == j
                        && population@[j].hospitalized == HospitalStatus::Free && fresh(
                        population@[j],
                        &core,
                    ),
            decreases core.population_size - i,
        {
            let agent_seed = draw_below(&mut rng, u64::MAX);
            let e = Entity::new(i as usize, &core, ages, agent_seed);
            population.push(e);
            i = i + 1;
        }
        Simulator::from_population(core, population, threads, rng)
    }

    /// A simulator over the given agents, none of them in hospital; `rng`
    /// picks the agents to test.
    pub fn from_population(
        core: ConfigCore,
        population: Vec<Entity>,
        threads: usize,
        rng: StdRng,
    ) -> (r: Simulator)
        requires
            core.wf(),
            threads > 0,
            forall|j: int|
                0 <= j < population@.len() ==> (#[trigger] population@[j]).wf(&core)
                    && population@[j].id == j && population@[j].hospitalized
                    == HospitalStatus::Free,
        ensures
            r.wf(),
            r.core == core,
            r.time == 0,
            r.threads == threads,
            r.population@ == population@,
            r.hospital.enlisted@.len() == 0,
    {
        let partitions = partition(population.len(), threads);
        let hospital = Hospital::new(core.hospital_capacity as usize);
        Simulator { core, population, time: 0, threads, partitions, hospital, rng }
    }

    /// A seeded stream for `from_population`.
    pub fn stream(seed: u64) -> StdRng {
        seeded_stream(seed)
    }

    /// Whether the run has reached its tick limit.
    pub fn done(&self) -> (r: bool)
        ensures
            r == (self.time >= self.core.time_limit),
    {
        self.time >= self.core.time_limit
    }

    pub fn current_time(&self) -> (r: u32)
        ensures
            r == self.time,
    {
        self.time
    }

    pub fn population(&self) -> (r: &Vec<Entity>)
        ensures
            r@ == self.population@,
    {
        &self.population
    }

    pub fn hospital(&self) -> (r: &Hospital)
        ensures
            *r == self.hospital,
    {
        &self.hospital
    }

    /// Positions and health of all agents as they stand now.
    fn snapshot_all(&self) -> (r: Vec<Snapshot>)
        requires
            agents_wf(self.population@, &self.core),
        ensures
            r@ == snapshot_of(self.population@),
            forall|j: int| 0 <= j < r@.len() ==> in_domain(#[trigger] r@[j].position, &self.core),
    {
        let mut r: Vec<Snapshot> = Vec::new();
        let mut i: usize = 0;
        while i < self.population.len()
            invariant
                agents_wf(self.population@, &self.core),
                0 <= i <= self.population@.len(),
                r@.len() == i,
                forall|j: int| 0 <= j < i ==> #[trigger] r@[j] == self.population@[j].snapshot_spec(),
            decreases self.population@.len() - i,
        {
            r.push(self.population[i].snapshot());
            i = i + 1;
        }
        assert forall|j: int| 0 <= j < r@.len() implies in_domain(#[trigger] r@[j].position, &self.core) by {
            assert(self.population@[j].wf(&self.core));
        }
        assert(r@ =~= snapshot_of(self.population@));
        r
    }

    /// The interaction pass, worker range by worker range. Each agent writes
    /// only itself and reads the others from `snapshot`, so the ranges are
    /// independent of one another.
    fn interaction_pass<P: Policy>(
        &mut self,
        snapshot: &Vec<Snapshot>,
        neighbors: &Vec<Vec<usize>>,
        elapsed_ms: u32,
        policy: &P,
    )
        requires
            old(self).wf(),
            neighbors@.len() == old(self).population@.len(),
            snapshot@.len() == old(self).population@.len(),
            forall|j: int| 0 <= j < snapshot@.len() ==> in_domain(#[trigger] snapshot@[j].position, &old(self).core),
            forall|i: int, k: int|
                0 <= i < neighbors@.len() && 0 <= k < neighbors@[i]@.len() ==> #[trigger] neighbors@[i]@[k]
                    < old(self).population@.len(),
        ensures
            final(self).wf(),
            final(self).core == old(self).core,
            final(self).time == old(self).time,
            final(self).threads == old(self).threads,
            final(self).hospital == old(self).hospital,
            final(self).population@.len() == old(self).population@.len(),
            forall|j: int|
                0 <= j < old(self).population@.len() ==> agent_kept(
                    old(self).population@[j],
                    #[trigger] final(self).population@[j],
                    &old(self).core,
                ),
            forall|j: int|
                0 <= j < old(self).population@.len() ==> interacted(
                    policy,
                    old(self).population@[j],
                    #[trigger] final(self).population@[j],
                    snapshot@,
                    neighbors@[j]@,
                    elapsed_ms as int,
                    &old(self).core,
                ),
    {
        let ghost start = self.population@;
        let n = self.population.len();
        proof {
            lemma_partition_ends(n as int, self.threads as int);
        }
        let mut w: usize = 0;
        while w < self.partitions.len()
            invariant
                self.wf(),
                self.core == old(self).core,
                self.time == old(self).time,
                self.hospital == old(self).hospital,
                self.threads == old(self).threads,
                self.partitions@ == old(self).partitions@,
                start == old(self).population@,
                n == start.len(),
                self.population@.len() == n,
                self.partitions@.len() == self.threads,
                0 <= w <= self.partitions@.len(),
                neighbors@.len() == n,
                snapshot@.len() == n,
                forall|j: int| 0 <= j < snapshot@.len() ==> in_domain(#[trigger] snapshot@[j].position, &self.core),
                forall|i: int, k: int|
                    0 <= i < neighbors@.len() && 0 <= k < neighbors@[i]@.len() ==> #[trigger] neighbors@[i]@[k]
                        < n,
                forall|j: int|
                    0 <= j < n ==> agent_kept(start[j], #[trigger] self.population@[j], &self.core)
                        && self.population@[j].hospitalized == start[j].hospitalized,
                partition_start(n as int, self.threads as int, 0) == 0,
                partition_start(n as int, self.threads as int, self.threads as int) == n,
                forall|j: int|
                    0 <= j < partition_start(n as int, self.threads as int, w as int) ==> interacted(
                        policy,
                        start[j],
                        #[trigger] self.population@[j],
                        snapshot@,
                        neighbors@[j]@,
                        elapsed_ms as int,
                        &self.core,
                    ),
                forall|j: int|
                    partition_start(n as int, self.threads as int, w as int) <= j < n ==> #[trigger] self.population@[j]
                        == start[j],
            decreases self.partitions@.len() - w,
        {
            proof {
                lemma_partition_bounds(n as int, self.threads as int, w as int);
            }
            let (lo, hi) = self.partitions[w];
            assert(lo == partition_start(n as int, self.threads as int, w as int));
            assert(hi == partition_start(n as int, self.threads as int, w as int + 1));
            let mut i: usize = lo;
            while i < hi
                invariant
                    self.wf(),
                    self.core == old(self).core,
                    self.time == old(self).time,
                    self.hospital == old(self).hospital,
                    self.threads == old(self).threads,
                    self.partitions@ == old(self).partitions@,
                    start == old(self).population@,
                    self.partitions@.len() == self.threads,
                    lo <= i <= hi <= n,
                    self.population@.len() == n,
                    neighbors@.len() == n,
                    snapshot@.len() == n,
                    forall|j: int| 0 <= j < snapshot@.len() ==> in_domain(#[trigger] snapshot@[j].position, &self.core),
                    forall|a: int, k: int|
                        0 <= a < neighbors@.len() && 0 <= k < neighbors@[a]@.len() ==> #[trigger] neighbors@[a]@[k]
                            < n,
                    forall|j: int|
                        0 <= j < n ==> agent_kept(start[j], #[trigger] self.population@[j], &self.core)
                            && self.population@[j].hospitalized == start[j].hospitalized,
                    forall|j: int|
                        0 <= j < i ==> interacted(
                            policy,
                            start[j],
                            #[trigger] self.population@[j],
                            snapshot@,
                            neighbors@[j]@,
                            elapsed_ms as int,
                            &self.core,
                        ),
                    forall|j: int| i <= j < n ==> #[trigger] self.population@[j] == start[j],
                decreases hi - i,
            {
                let ghost before = self.population@;
                assert(before[i as int].wf(&self.core));
                let nb = &neighbors[i];
                assert forall|k: int| 0 <= k < nb@.len() implies #[trigger] nb@[k] < snapshot@.len() by {
                    assert(neighbors@[i as int]@[k] < n);
                }
                self.population[i].interact(snapshot, nb, elapsed_ms, &self.core, policy);
                proof {
                    assert forall|j: int| 0 <= j < n implies agent_kept(start[j], #[trigger] self.population@[j], &self.core)
                        && self.population@[j].hospitalized == start[j].hospitalized by {
                        if j != i {
                            assert(self.population@[j] == before[j]);
                        }
                    }
                    assert forall|j: int| 0 <= j < i + 1 implies interacted(
                        policy,
                        start[j],
                        #[trigger] self.population@[j],
                        snapshot@,
                        neighbors@[j]@,
                        elapsed_ms as int,
                        &self.core,
                    ) by {
                        if j != i {
                            assert(self.population@[j] == before[j]);
                        }
                    }
                    assert forall|j: int| i + 1 <= j < n implies #[trigger] self.population@[j] == start[j] by {
                        assert(self.population@[j] == before[j]);
                    }
                    assert(agents_wf(self.population@, &self.core));
                    assert forall|a: int| 0 <= a < self.population@.len() implies (self.hospital.has(a as usize)
                        <==> (#[trigger] self.population@[a]).hospitalized is Hospitalized) by {
                        if a != i {
                            assert(self.population@[a] == before[a]);
                        }
                        assert(before[a].hospitalized == start[a].hospitalized);
                        assert(old(self).population@[a] == start[a]);
                    }
                }
                i = i + 1;
            }
            w = w + 1;
        }
    }

    /// The admission pass: `tests_per_time` times, an agent drawn uniformly
    /// is tested, and on a positive result while a bed is free it is
    /// admitted; refusals are ignored.
    fn admission_pass(&mut self)
        requires
            old(self).wf(),
        ensures
            final(self).wf(),
            final(self).core == old(self).core,
            final(self).time == old(self).time,
            final(self).threads == old(self).threads,
            final(self).population@.len() == old(self).population@.len(),
            forall|j: int|
                0 <= j < old(self).population@.len() ==> agent_kept(
                    old(self).population@[j],
                    #[trigger] final(self).population@[j],
                    &old(self).core,
                ),
            forall|j: int|
                0 <= j < old(self).population@.len() ==> admitted_or_kept(
                    old(self).population@[j],
                    #[trigger] final(self).population@[j],
                    &old(self).core,
                ),
    {
        let ghost start = self.population@;
        let n = self.population.len();
        if n == 0 {
            return;
        }
        assert forall|j: int| 0 <= j < n implies admitted_or_kept(start[j], #[trigger] self.population@[j], &self.core) by {}
        let mut t: u32 = 0;
        while t < self.core.tests_per_time
            invariant
                self.wf(),
                self.core == old(self).core,
                self.time == old(self).time,
                self.threads == old(self).threads,
                start == old(self).population@,
                n == start.len(),
                n > 0,
                self.population@.len() == n,
                forall|j: int|
                    0 <= j < n ==> agent_kept(start[j], #[trigger] self.population@[j], &self.core),
                forall|j: int|
                    0 <= j < n ==> admitted_or_kept(start[j], #[trigger] self.population@[j], &self.core),
            decreases self.core.tests_per_time - t,
        {
            let idx = draw_below(&mut self.rng, n as u64) as usize;
            let ghost before = self.population@;
            let ghost roster = self.hospital.enlisted@;
            let positive = self.population[idx].test(&self.core);
            let ghost tested = self.population@;
            assert forall|j: int| 0 <= j < n implies #[trigger] tested[j].hospitalized
                == before[j].hospitalized && agent_kept(start[j], tested[j], &self.core)
                && admitted_or_kept(start[j], tested[j], &self.core) by {
                if j != idx {
                    assert(tested[j] == before[j]);
                }
            }
            if positive && !self.hospital.is_full() {
                let r = self.hospital.try_hospitalize(&mut self.population[idx], &self.core);
                proof {
                    if r is Ok {
                        assert forall|a: int| 0 <= a < n implies (self.hospital.has(a as usize)
                            <==> (#[trigger] self.population@[a]).hospitalized is Hospitalized) by {
                            lemma_on_roster_push(roster, Patient { entity_id: idx, time_to_recover: stay_length(tested[idx as int].health, &self.core) }, a as usize);
                            if a != idx {
                                assert(self.population@[a] == tested[a]);
                            }
                        }
                        assert forall|k: int| 0 <= k < self.hospital.enlisted@.len() implies (
                        #[trigger] self.hospital.enlisted@[k]).entity_id < n by {
                            if k < roster.len() {
                                assert(self.hospital.enlisted@[k] == roster[k]);
                            }
                        }
                    } else {
                        assert forall|a: int| 0 <= a < n implies (self.hospital.has(a as usize)
                            <==> (#[trigger] self.population@[a]).hospitalized is Hospitalized) by {
                            if a != idx {
                                assert(self.population@[a] == tested[a]);
                            }
                        }
                    }
                    assert forall|j: int| 0 <= j < n implies agent_kept(start[j], #[trigger] self.population@[j], &self.core)
                        && admitted_or_kept(start[j], self.population@[j], &self.core) by {
                        if j != idx {
                            assert(self.population@[j] == tested[j]);
                        } else {
                            assert(tested[j].wf(&self.core));
                            if r is Ok {
                                                assert(!on_roster(roster, idx));
                                assert(!(tested[j].hospitalized is Hospitalized));
                            }
                        }
                    }
                }
            } else {
                proof {
                    assert forall|a: int| 0 <= a < n implies (self.hospital.has(a as usize)
                        <==> (#[trigger] self.population@[a]).hospitalized is Hospitalized) by {
                        assert(tested[a].hospitalized == before[a].hospitalized);
                    }
                }
            }
            t = t + 1;
        }
    }

    /// The transition pass: stays are counted down, then, worker range by
    /// worker range, each agent takes one tick of its state machine and
    /// moves. Agents only ever lose beds here.
    fn transition_pass<P: Policy>(&mut self, policy: &P)
        requires
            old(self).wf(),
        ensures
            final(self).core == old(self).core,
            final(self).time == old(self).time,
            final(self).threads == old(self).threads,
            final(self).partitions@ == old(self).partitions@,
            final(self).population@.len() == old(self).population@.len(),
            final(self).hospital.wf(),
            final(self).hospital.capacity == old(self).hospital.capacity,
            agents_wf(final(self).population@, &final(self).core),
            forall|k: int|
                0 <= k < final(self).hospital.enlisted@.len() ==> (
                #[trigger] final(self).hospital.enlisted@[k]).entity_id
                    < final(self).population@.len(),
            forall|j: int|
                0 <= j < final(self).population@.len() ==> (
                #[trigger] final(self).population@[j]).hospitalized is Hospitalized
                    ==> final(self).hospital.has(j as usize),
            forall|j: int|
                0 <= j < old(self).population@.len() ==> agent_kept(
                    old(self).population@[j],
                    #[trigger] final(self).population@[j],
                    &old(self).core,
                ),
            forall|j: int|
                0 <= j < old(self).population@.len() ==> ticked(
                    policy,
                    old(self).population@[j],
                    #[trigger] final(self).population@[j],
                    &old(self).core,
                ),
    {
        let ghost start = self.population@;
        let ghost roster = self.hospital.enlisted@;
        self.hospital.update();
        proof {
            assert forall|j: usize| #[trigger] self.hospital.has(j) == on_roster(roster, j) by {
                lemma_on_roster_same_ids(self.hospital.enlisted@, roster, j);
            }
            assert forall|k: int| 0 <= k < self.hospital.enlisted@.len() implies (
            #[trigger] self.hospital.enlisted@[k]).entity_id < start.len() by {
                assert(roster[k].entity_id < start.len());
            }
        }
        let n = self.population.len();
        proof {
            lemma_partition_ends(n as int, self.threads as int);
        }
        let mut w: usize = 0;
        while w < self.partitions.len()
            invariant
                self.core == old(self).core,
                self.core.wf(),
                self.time == old(self).time,
                self.threads == old(self).threads,
                self.threads > 0,
                self.partitions@ == old(self).partitions@,
                self.partitions@ == partition_spec(n as int, self.threads as int),
                self.hospital.wf(),
                self.hospital.capacity == old(self).hospital.capacity,
                start == old(self).population@,
                n == start.len(),
                self.population@.len() == n,
                0 <= w <= self.partitions@.len(),
                forall|k: int|
                    0 <= k < self.hospital.enlisted@.len() ==> (
                    #[trigger] self.hospital.enlisted@[k]).entity_id < n,
                forall|j: int|
                    0 <= j < n ==> (#[trigger] self.population@[j]).hospitalized is Hospitalized
                        ==> self.hospital.has(j as usize),
                forall|j: int|
                    0 <= j < n ==> agent_kept(start[j], #[trigger] self.population@[j], &self.core),
                partition_start(n as int, self.threads as int, 0) == 0,
                partition_start(n as int, self.threads as int, self.threads as int) == n,
                forall|j: int|
                    0 <= j < partition_start(n as int, self.threads as int, w as int) ==> ticked(
                        policy,
                        start[j],
                        #[trigger] self.population@[j],
                        &self.core,
                    ),
                forall|j: int|
                    partition_start(n as int, self.threads as int, w as int) <= j < n ==> #[trigger] self.population@[j]
                        == start[j],
            decreases self.partitions@.len() - w,
        {
            proof {
                lemma_partition_bounds(n as int, self.threads as int, w as int);
            }
            let (lo, hi) = self.partitions[w];
            assert(lo == partition_start(n as int, self.threads as int, w as int));
            assert(hi == partition_start(n as int, self.threads as int, w as int + 1));
            let mut i: usize = lo;
            while i < hi
                invariant
                    self.core == old(self).core,
                    self.core.wf(),
                    self.time == old(self).time,
                    self.threads == old(self).threads,
                    self.partitions@ == old(self).partitions@,
                    self.hospital.wf(),
                    self.hospital.capacity == old(self).hospital.capacity,
                    start == old(self).population@,
                    lo <= i <= hi <= n,
                    self.population@.len() == n,
                    forall|k: int|
                        0 <= k < self.hospital.enlisted@.len() ==> (
                        #[trigger] self.hospital.enlisted@[k]).entity_id < n,
                    forall|j: int|
                        0 <= j < n ==> (#[trigger] self.population@[j]).hospitalized is Hospitalized
                            ==> self.hospital.has(j as usize),
                    forall|j: int|
                        0 <= j < n ==> agent_kept(start[j], #[trigger] self.population@[j], &self.core),
                    forall|j: int|
                        0 <= j < i ==> ticked(policy, start[j], #[trigger] self.population@[j], &self.core),
                    forall|j: int| i <= j < n ==> #[trigger] self.population@[j] == start[j],
                decreases hi - i,
            {
                let ghost before = self.population@;
                assert(before[i as int].wf(&self.core));
                self.population[i].update_status(&self.core, policy);
                self.population[i].update_movement(&self.core);
                proof {
                    assert forall|j: int| 0 <= j < n implies agent_kept(start[j], #[trigger] self.population@[j], &self.core)
                        && (self.population@[j].hospitalized is Hospitalized ==> self.hospital.has(j as usize)) by {
                        if j != i {
                            assert(self.population@[j] == before[j]);
                        }
                    }
                    assert forall|j: int| 0 <= j < i + 1 implies ticked(
                        policy,
                        start[j],
                        #[trigger] self.population@[j],
                        &self.core,
                    ) by {
                        if j != i {
                            assert(self.population@[j] == before[j]);
                        }
                    }
                    assert forall|j: int| i + 1 <= j < n implies #[trigger] self.population@[j] == start[j] by {
                        assert(self.population@[j] == before[j]);
                    }
                }
                i = i + 1;
            }
            w = w + 1;
        }
    }

    /// Gives up the bed of every agent that no longer holds one.
    fn release_freed(&mut self)
        requires
            old(self).hospital.wf(),
            forall|k: int|
                0 <= k < old(self).hospital.enlisted@.len() ==> (
                #[trigger] old(self).hospital.enlisted@[k]).entity_id
                    < old(self).population@.len(),
            forall|j: int|
                0 <= j < old(self).population@.len() ==> (
                #[trigger] old(self).population@[j]).hospitalized is Hospitalized
                    ==> old(self).hospital.has(j as usize),
        ensures
            final(self).hospital.wf(),
            final(self).hospital.capacity == old(self).hospital.capacity,
            beds_agree(final(self).population@, final(self).hospital),
            final(self).population@ == old(self).population@,
            final(self).core == old(self).core,
            final(self).time == old(self).time,
            final(self).threads == old(self).threads,
            final(self).partitions@ == old(self).partitions@,
    {
        let n = self.population.len();
        let mut i: usize = 0;
        while i < n
            invariant
                self.hospital.wf(),
                self.hospital.capacity == old(self).hospital.capacity,
                self.population@ == old(self).population@,
                self.core == old(self).core,
                self.time == old(self).time,
                self.threads == old(self).threads,
                self.partitions@ == old(self).partitions@,
                n == self.population@.len(),
                0 <= i <= n,
                forall|k: int|
                    0 <= k < self.hospital.enlisted@.len() ==> (
                    #[trigger] self.hospital.enlisted@[k]).entity_id < n,
                forall|j: int|
                    0 <= j < n ==> (#[trigger] self.population@[j]).hospitalized is Hospitalized
                        ==> self.hospital.has(j as usize),
                forall|j: int|
                    0 <= j < i ==> (self.hospital.has(j as usize) <==> (
                    #[trigger] self.population@[j]).hospitalized is Hospitalized),
            decreases n - i,
        {
            if !self.population[i].is_hospitalized() {
                let ghost roster = self.hospital.enlisted@;
                let ghost was = self.hospital.has(i);
                self.hospital.release(i);
                proof {
                    if was {
                        let x = choose|x: int|
                            0 <= x < roster.len() && (#[trigger] roster[x]).entity_id == i
                                && self.hospital.enlisted@ == roster.remove(x);
                        assert forall|a: usize| a != i implies #[trigger] self.hospital.has(a)
                            == on_roster(roster, a) by {
                            lemma_on_roster_remove(roster, x, a);
                        }
                        assert forall|k: int| 0 <= k < self.hospital.enlisted@.len() implies (
                        #[trigger] self.hospital.enlisted@[k]).entity_id < n by {
                            let k2 = if k < x { k } else { k + 1 };
                            assert(self.hospital.enlisted@[k] == roster[k2]);
                        }
                    }
                }
            }
            i = i + 1;
        }
    }

    /// Advances the run by one tick: the interaction pass over `neighbors`
    /// (for each agent, the indices of the agents near it, as a spatial
    /// index reports them), the admission pass, the transition pass, and
    /// the beds freed in it are given back. `elapsed_ms` is the real time
    /// since the last tick, which scales the repulsion.
    pub fn step<P: Policy>(&mut self, neighbors: &Vec<Vec<usize>>, elapsed_ms: u32, policy: &P)
        requires
            old(self).wf(),
            old(self).time < u32::MAX,
            neighbors@.len() == old(self).population@.len(),
            forall|i: int, k: int|
                0 <= i < neighbors@.len() && 0 <= k < neighbors@[i]@.len() ==> #[trigger] neighbors@[i]@[k]
                    < old(self).population@.len(),
        ensures
            final(self).wf(),
            final(self).time == old(self).time + 1,
            final(self).core == old(self).core,
            final(self).threads == old(self).threads,
            final(self).population@.len() == old(self).population@.len(),
            forall|j: int|
                0 <= j < old(self).population@.len() ==> agent_kept(
                    old(self).population@[j],
                    #[trigger] final(self).population@[j],
                    &old(self).core,
                ),
            exists|p1: Seq<Entity>, p2: Seq<Entity>|
                #[trigger] tick_phases(
                    policy,
                    old(self).population@,
                    p1,
                    p2,
                    final(self).population@,
                    neighbors@,
                    elapsed_ms as int,
                    &old(self).core,
                ),
            forall|j: int|
                0 <= j < old(self).population@.len() ==> health_follows(
                    old(self).population@[j].health,
                    #[trigger] final(self).population@[j].health,
                    &old(self).core,
                ),
            final(self).hospital.enlisted@.len() <= old(self).core.hospital_capacity,
    {
        let ghost p0 = self.population@;
        let snapshot = self.snapshot_all();
        self.interaction_pass(&snapshot, neighbors, elapsed_ms, policy);
        let ghost p1 = self.population@;
        self.admission_pass();
        let ghost p2 = self.population@;
        self.transition_pass(policy);
        let ghost p3 = self.population@;
        self.release_freed();
        self.time = self.time + 1;
        assert(tick_phases(policy, p0, p1, p2, self.population@, neighbors@, elapsed_ms as int, &self.core));
        proof {
            infection_runs_its_course(policy, p0, p1, p2, self.population@, neighbors@, elapsed_ms as int, &self.core);
        }
        assert forall|j: int| 0 <= j < p0.len() implies agent_kept(p0[j], #[trigger] self.population@[j], &self.core) by {
            assert(agent_kept(p0[j], p1[j], &self.core));
            assert(agent_kept(p1[j], p2[j], &self.core));
            assert(agent_kept(p2[j], p3[j], &self.core));
        }
    }
}

} // verus!
