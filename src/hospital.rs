use crate::config::ConfigCore;
use crate::entity::{stay_length, Entity, HospitalStatus, InfectionStatus};
use vstd::prelude::*;

verus! {

/// A roster entry: an agent's identity and the ticks left in its stay.
#[derive(Clone, Copy, Debug, PartialEq, Eq, Structural)]
pub struct Patient {
    pub entity_id: usize,
    pub time_to_recover: u32,
}

impl Patient {
    pub fn new(entity_id: usize, time_to_recover: u32) -> (r: Patient)
        ensures
            r.entity_id == entity_id,
            r.time_to_recover == time_to_recover,
    {
        Patient { entity_id, time_to_recover }
    }

    /// One tick less to stay, stopping at zero.
    pub fn tick(&mut self)
        ensures
            final(self).entity_id == old(self).entity_id,
            final(self).time_to_recover == (if old(self).time_to_recover == 0 {
                0
            } else {
                old(self).time_to_recover - 1
            }),
    {
        if self.time_to_recover > 0 {
            self.time_to_recover = self.time_to_recover - 1;
        }
    }

    pub fn ready_to_release(&self) -> (r: bool)
        ensures
            r == (self.time_to_recover == 0),
    {
        self.time_to_recover == 0
    }
}

/// Why an admission was refused.
#[derive(Clone, Copy, Debug, PartialEq, Eq, Structural)]
pub enum AdmitError {
    /// Every bed is taken.
    Full,
    /// The agent already holds a bed.
    AlreadyAdmitted,
}

/// A capacity-bounded pool of hospital beds, keyed by agent identity.
pub struct Hospital {
    pub capacity: usize,
    pub enlisted: Vec<Patient>,
}

/// Whether `id` holds a bed in `roster`.
pub open spec fn on_roster(roster: Seq<Patient>, id: usize) -> bool {
    exists|i: int| 0 <= i < roster.len() && (#[trigger] roster[i]).entity_id == id
}

pub open spec fn ids_unique(roster: Seq<Patient>) -> bool {
    forall|i: int, j: int|
        0 <= i < roster.len() && 0 <= j < roster.len() && i != j ==> (#[trigger] roster[i]).entity_id
            != (#[trigger] roster[j]).entity_id
}

impl Hospital {
    /// At most `capacity` patients, each identity at most once.
    pub open spec fn wf(&self) -> bool {
        &&& self.enlisted@.len() <= self.capacity
        &&& ids_unique(self.enlisted@)
    }

    pub open spec fn has(&self, id: usize) -> bool {
        on_roster(self.enlisted@, id)
    }

    pub fn new(capacity: usize) -> (r: Hospital)
        ensures
            r.wf(),
            r.capacity == capacity,
            r.enlisted@ == Seq::<Patient>::empty(),
    {
        Hospital { capacity, enlisted: Vec::new() }
    }

    /// Admits `id` for `days` ticks. Refused with `AlreadyAdmitted` when it
    /// already holds a bed, else with `Full` when every bed is taken; a
    /// refusal changes nothing.
    pub fn try_admit(&mut self, id: usize, days: u32) -> (r: Result<(), AdmitError>)
        requires
            old(self).wf(),
        ensures
            final(self).wf(),
            final(self).capacity == old(self).capacity,
            old(self).has(id) ==> r == Err::<(), AdmitError>(AdmitError::AlreadyAdmitted),
            !old(self).has(id) && old(self).enlisted@.len() >= old(self).capacity ==> r == Err::<
                (),
                AdmitError,
            >(AdmitError::Full),
            r is Err ==> final(self).enlisted@ == old(self).enlisted@,
            r is Ok <==> (!old(self).has(id) && old(self).enlisted@.len() < old(self).capacity),
            r is Ok ==> final(self).enlisted@ == old(self).enlisted@.push(
                Patient { entity_id: id, time_to_recover: days },
            ),
    {
        if self.contains(id) {
            return Err(AdmitError::AlreadyAdmitted);
        }
        if self.is_full() {
            return Err(AdmitError::Full);
        }
        self.enlisted.push(Patient::new(id, days));
        proof {
            assert forall|i: int| 0 <= i < self.enlisted@.len() - 1 implies (
            #[trigger] self.enlisted@[i]).entity_id != id by {
                assert(old(self).enlisted@[i] == self.enlisted@[i]);
            }
        }
        Ok(())
    }

    /// Admits `entity` for `stay_length` ticks and gives it the bed; the
    /// same refusals as `try_admit`, which leave the agent as it was.
    pub fn try_hospitalize(&mut self, entity: &mut Entity, core: &ConfigCore) -> (r: Result<
        (),
        AdmitError,
    >)
        requires
            old(self).wf(),
            !(old(entity).health is Dead),
        ensures
            final(self).wf(),
            final(self).capacity == old(self).capacity,
            old(self).has(old(entity).id) ==> r == Err::<(), AdmitError>(
                AdmitError::AlreadyAdmitted,
            ),
            !old(self).has(old(entity).id) && old(self).enlisted@.len() >= old(self).capacity ==> r
                == Err::<(), AdmitError>(AdmitError::Full),
            r is Ok <==> (!old(self).has(old(entity).id) && old(self).enlisted@.len()
                < old(self).capacity),
            r is Err ==> final(self).enlisted@ == old(self).enlisted@ && *final(entity) == *old(
                entity,
            ),
            r is Ok ==> final(self).enlisted@ == old(self).enlisted@.push(
                Patient {
                    entity_id: old(entity).id,
                    time_to_recover: stay_length(old(entity).health, core),
                },
            ),
            r is Ok ==> final(entity).hospitalized == HospitalStatus::Hospitalized(
                stay_length(old(entity).health, core),
            ) && !final(entity).mobile,
            final(entity).id == old(entity).id,
            final(entity).position == old(entity).position,
            final(entity).velocity == old(entity).velocity,
            final(entity).acceleration == old(entity).acceleration,
            final(entity).health == old(entity).health,
            final(entity).age == old(entity).age,
    {
        let days = match entity.health {
            InfectionStatus::Infected(d) => d,
            _ => core.hospital_period,
        };
        let r = self.try_admit(entity.id, days);
        if r.is_ok() {
            entity.hospitalize(core);
        }
        r
    }

    /// Whether `id` holds a bed.
    pub fn contains(&self, id: usize) -> (r: bool)
        ensures
            r == self.has(id),
    {
        let mut i: usize = 0;
        while i < self.enlisted.len()
            invariant
                0 <= i <= self.enlisted@.len(),
                forall|j: int| 0 <= j < i ==> (#[trigger] self.enlisted@[j]).entity_id != id,
            decreases self.enlisted@.len() - i,
        {
            if self.enlisted[i].entity_id == id {
                return true;
            }
            i = i + 1;
        }
        false
    }

    /// Number of beds taken.
    pub fn count(&self) -> (r: usize)
        ensures
            r == self.enlisted@.len(),
    {
        self.enlisted.len()
    }

    pub fn is_full(&self) -> (r: bool)
        ensures
            r == (self.enlisted@.len() >= self.capacity),
    {
        self.enlisted.len() >= self.capacity
    }

    /// Counts every stay down by one tick, stopping at zero.
    pub fn update(&mut self)
        requires
            old(self).wf(),
        ensures
            final(self).wf(),
            final(self).capacity == old(self).capacity,
            final(self).enlisted@.len() == old(self).enlisted@.len(),
            forall|i: int|
                0 <= i < old(self).enlisted@.len() ==> (#[trigger] final(self).enlisted@[i]).entity_id
                    == old(self).enlisted@[i].entity_id && final(self).enlisted@[i].time_to_recover
                    == (if old(self).enlisted@[i].time_to_recover == 0 {
                    0
                } else {
                    old(self).enlisted@[i].time_to_recover - 1
                }),
    {
        let ghost start = self.enlisted@;
        let mut i: usize = 0;
        while i < self.enlisted.len()
            invariant
                0 <= i <= self.enlisted@.len(),
                self.enlisted@.len() == start.len(),
                self.capacity == old(self).capacity,
                start == old(self).enlisted@,
                forall|j: int|
                    0 <= j < start.len() ==> (#[trigger] self.enlisted@[j]).entity_id
                        == start[j].entity_id,
                forall|j: int|
                    i <= j < start.len() ==> (#[trigger] self.enlisted@[j]).time_to_recover
                        == start[j].time_to_recover,
                forall|j: int|
                    0 <= j < i ==> (#[trigger] self.enlisted@[j]).time_to_recover == (if start[j].time_to_recover
                        == 0 {
                        0
                    } else {
                        start[j].time_to_recover - 1
                    }),
            decreases self.enlisted@.len() - i,
        {
            let mut p = self.enlisted[i];
            p.tick();
            self.enlisted.set(i, p);
            i = i + 1;
        }
        assert(ids_unique(self.enlisted@)) by {
            assert forall|a: int, b: int|
                0 <= a < self.enlisted@.len() && 0 <= b < self.enlisted@.len() && a != b implies (
            #[trigger] self.enlisted@[a]).entity_id != (#[trigger] self.enlisted@[b]).entity_id by {
                assert(start[a].entity_id != start[b].entity_id);
            }
        }
    }

    /// Gives up the bed of `id`, if it holds one.
    pub fn release(&mut self, id: usize)
        requires
            old(self).wf(),
        ensures
            final(self).wf(),
            final(self).capacity == old(self).capacity,
            !final(self).has(id),
            !old(self).has(id) ==> final(self).enlisted@ == old(self).enlisted@,
            old(self).has(id) ==> exists|i: int|
                0 <= i < old(self).enlisted@.len() && (#[trigger] old(self).enlisted@[i]).entity_id
                    == id && final(self).enlisted@ == old(self).enlisted@.remove(i),
    {
        let mut i: usize = 0;
        while i < self.enlisted.len()
            invariant
                self.wf(),
                *self == *old(self),
                0 <= i <= self.enlisted@.len(),
                forall|j: int| 0 <= j < i ==> (#[trigger] self.enlisted@[j]).entity_id != id,
            decreases self.enlisted@.len() - i,
        {
            if self.enlisted[i].entity_id == id {
                let ghost before = self.enlisted@;
                self.enlisted.remove(i);
                proof {
                    assert(before[i as int].entity_id == id);
                    assert forall|a: int| 0 <= a < self.enlisted@.len() implies (
                    #[trigger] self.enlisted@[a]).entity_id != id by {
                        if a < i {
                            assert(self.enlisted@[a] == before[a]);
                        } else {
                            assert(self.enlisted@[a] == before[a + 1]);
                            assert(before[a + 1].entity_id != before[i as int].entity_id);
                        }
                    }
                    assert forall|a: int, b: int|
                        0 <= a < self.enlisted@.len() && 0 <= b < self.enlisted@.len() && a
                            != b implies (#[trigger] self.enlisted@[a]).entity_id != (
                    #[trigger] self.enlisted@[b]).entity_id by {
                        let a2 = if a < i { a } else { a + 1 };
                        let b2 = if b < i { b } else { b + 1 };
                        assert(self.enlisted@[a] == before[a2]);
                        assert(self.enlisted@[b] == before[b2]);
                    }
                }
                return;
            }
            i = i + 1;
        }
    }

    /// Whether `id` holds a bed whose stay has run out.
    pub fn ready_to_release(&self, id: usize) -> (r: bool)
        requires
            self.wf(),
        ensures
            r == exists|i: int|
                0 <= i < self.enlisted@.len() && (#[trigger] self.enlisted@[i]).entity_id == id
                    && self.enlisted@[i].time_to_recover == 0,
    {
        let mut i: usize = 0;
        while i < self.enlisted.len()
            invariant
                self.wf(),
                0 <= i <= self.enlisted@.len(),
                forall|j: int|
                    0 <= j < i ==> !((#[trigger] self.enlisted@[j]).entity_id == id
                        && self.enlisted@[j].time_to_recover == 0),
            decreases self.enlisted@.len() - i,
        {
            if self.enlisted[i].entity_id == id {
                proof {
                    assert forall|j: int|
                        0 <= j < self.enlisted@.len() && (#[trigger] self.enlisted@[j]).entity_id
                            == id implies j == i by {
                        if j != i {
                            assert(self.enlisted@[j].entity_id != self.enlisted@[i as int].entity_id);
                        }
                    }
                }
                return self.enlisted[i].ready_to_release();
            }
            i = i + 1;
        }
        false
    }
}

/// Whatever sequence of admissions and releases a pool goes through, it
/// never holds more patients than its capacity.
pub proof fn count_within_capacity(h: &Hospital)
    requires
        h.wf(),
    ensures
        h.enlisted@.len() <= h.capacity,
{
}

} // verus!
