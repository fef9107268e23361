use epidemic::age_distribution::AgeDistribution;
use epidemic::config::ConfigCore;
use epidemic::entity::{Entity, HospitalStatus, InfectionStatus, Snapshot};
use epidemic::hospital::{AdmitError, Hospital, Patient};
use epidemic::kinematics::{clamp_magnitude, saturating_add, Vec2, LIMIT};
use epidemic::policy::{AgePolicy, Policy};
use epidemic::rng::PPM;
use epidemic::simulator::{partition, Simulator};
use epidemic::statistics::{DataFrame, DataPoint, Demographics};

fn config(population_size: u32, capacity: u32) -> ConfigCore {
    ConfigCore {
        time_limit: 20,
        dimensions: (100_000, 80_000),
        max_velocity: 1_000,
        population_size,
        infected_period: 3,
        recovered_period: 100,
        infection_radius: 5_000,
        hospital_period: 4,
        hospital_capacity: capacity,
        initial_infected: 200_000,
        initial_mobile: 500_000,
        tests_per_time: 10,
        test_true_positive: 900_000,
        test_true_negative: 950_000,
        distancing: true,
    }
}

fn uniform_ages() -> AgeDistribution {
    AgeDistribution::from_weights(vec![1; 101]).unwrap()
}

fn all_neighbors(n: usize) -> Vec<Vec<usize>> {
    (0..n).map(|_| (0..n).collect()).collect()
}

fn agent(id: usize, health: InfectionStatus, seed: u64) -> Entity {
    Entity::with_state(id, Vec2 { x: 50, y: 50 }, Vec2 { x: 0, y: 0 }, health, true, 40, seed)
}

#[test]
fn ages_stay_between_zero_and_one_hundred() {
    let c = config(200, 10);
    let mut sim = Simulator::new(c, &uniform_ages(), 4, 7);
    assert_eq!(sim.population().len(), 200);
    for _ in 0..5 {
        let n = sim.population().len();
        sim.step(&all_neighbors(n), 16, &AgePolicy { length_unit: 1_000 });
        assert!(sim.population().iter().all(|e| e.age() <= 100));
    }
}

#[test]
fn sampled_age_has_positive_weight() {
    let mut w = vec![0u64; 101];
    w[37] = 5;
    let ages = AgeDistribution::from_weights(w).unwrap();
    for seed in 0..50 {
        let e = Entity::new(0, &config(1, 1), &ages, seed);
        assert_eq!(e.age(), 37);
    }
}

#[test]
fn age_for_picks_the_slot_of_the_draw() {
    let mut w = vec![0u64; 101];
    w[0] = 2;
    w[3] = 5;
    w[100] = 1;
    let ages = AgeDistribution::from_weights(w).unwrap();
    assert_eq!(ages.total, 8);
    assert_eq!(ages.age_for(0), 0);
    assert_eq!(ages.age_for(1), 0);
    assert_eq!(ages.age_for(2), 3);
    assert_eq!(ages.age_for(6), 3);
    assert_eq!(ages.age_for(7), 100);
}

#[test]
fn age_distribution_rejects_bad_weights() {
    assert!(AgeDistribution::from_weights(vec![1; 100]).is_none());
    assert!(AgeDistribution::from_weights(vec![0; 101]).is_none());
    let mut w = vec![0u64; 101];
    w[0] = u64::MAX;
    w[1] = 1;
    assert!(AgeDistribution::from_weights(w).is_none());
}

#[test]
fn pool_never_exceeds_capacity() {
    let mut h = Hospital::new(3);
    for id in 0..10 {
        let _ = h.try_admit(id, 5);
        assert!(h.count() <= 3);
        if id % 4 == 0 {
            h.release(id);
            assert!(h.count() <= 3);
        }
    }
    assert_eq!(h.count(), 3);
    assert!(h.is_full());
}

#[test]
fn admitting_twice_is_refused() {
    let mut h = Hospital::new(4);
    assert_eq!(h.try_admit(7, 3), Ok(()));
    assert_eq!(h.count(), 1);
    assert_eq!(h.try_admit(7, 3), Err(AdmitError::AlreadyAdmitted));
    assert_eq!(h.count(), 1);
    assert!(h.contains(7));
    assert!(!h.contains(8));
}

#[test]
fn admitted_agent_in_full_pool_reports_already_admitted() {
    let mut h = Hospital::new(1);
    assert_eq!(h.try_admit(2, 3), Ok(()));
    assert_eq!(h.try_admit(2, 3), Err(AdmitError::AlreadyAdmitted));
    assert_eq!(h.try_admit(3, 3), Err(AdmitError::Full));
}

#[test]
fn hundred_positive_tests_fill_five_beds() {
    let c = config(100, 5);
    let mut h = Hospital::new(5);
    let mut agents: Vec<Entity> = (0..100).map(|i| agent(i, InfectionStatus::Infected(2), i as u64)).collect();
    let mut results = Vec::new();
    for e in agents.iter_mut() {
        results.push(h.try_hospitalize(e, &c));
    }
    assert_eq!(h.count(), 5);
    assert!(results[..5].iter().all(|r| *r == Ok(())));
    assert!(results[5..].iter().all(|r| *r == Err(AdmitError::Full)));
    assert_eq!(agents.iter().filter(|e| e.is_hospitalized()).count(), 5);
    assert_eq!(agents[0].hospitalized, HospitalStatus::Hospitalized(2));
    assert!(!agents[0].mobile);
    assert!(agents[5].mobile);
}

#[test]
fn release_and_countdown() {
    let mut h = Hospital::new(3);
    h.try_admit(1, 1).unwrap();
    h.try_admit(2, 0).unwrap();
    assert!(h.ready_to_release(2));
    assert!(!h.ready_to_release(1));
    h.update();
    assert!(h.ready_to_release(1));
    assert_eq!(h.enlisted[1], Patient { entity_id: 2, time_to_recover: 0 });
    h.release(2);
    assert_eq!(h.count(), 1);
    assert!(!h.contains(2));
    h.release(2);
    assert_eq!(h.count(), 1);
}

#[test]
fn patient_tick_stops_at_zero() {
    let mut p = Patient::new(3, 1);
    assert!(!p.ready_to_release());
    p.tick();
    assert!(p.ready_to_release());
    p.tick();
    assert_eq!(p.time_to_recover, 0);
}

#[test]
fn survival_frequency_matches_policy() {
    let c = config(1, 1);
    // Survival is 1 - 60 / 200 = 70% at age 60.
    let policy = AgePolicy { length_unit: 1 };
    let mut recovered = 0;
    for seed in 0..10_000u64 {
        let mut e = agent(0, InfectionStatus::Infected(0), seed);
        e.age = 60;
        e.update_status(&c, &policy);
        match e.health {
            InfectionStatus::Recovered(d) => {
                assert_eq!(d, 100);
                recovered += 1;
            }
            InfectionStatus::Dead => assert!(!e.mobile),
            other => panic!("unexpected state {:?}", other),
        }
    }
    let freq = recovered as f64 / 10_000.0;
    assert!((freq - 0.7).abs() <= 0.02, "frequency {}", freq);
}

#[test]
fn same_seed_same_outcome() {
    let c = config(1, 1);
    let policy = AgePolicy { length_unit: 1 };
    for seed in 0..20u64 {
        let mut a = agent(0, InfectionStatus::Infected(0), seed);
        let mut b = agent(0, InfectionStatus::Infected(0), seed);
        a.update_status(&c, &policy);
        b.update_status(&c, &policy);
        assert_eq!(a.health, b.health);
    }
}

#[test]
fn immunity_end_restores_mobility_and_frees_bed() {
    let c = config(1, 1);
    let mut e = agent(0, InfectionStatus::Recovered(0), 1);
    e.hospitalized = HospitalStatus::Hospitalized(5);
    e.mobile = false;
    e.update_status(&c, &AgePolicy { length_unit: 1 });
    assert_eq!(e.health, InfectionStatus::Susceptible);
    assert!(e.mobile);
    assert_eq!(e.hospitalized, HospitalStatus::Free);
}

#[test]
fn counters_count_down() {
    let c = config(1, 1);
    let mut e = agent(0, InfectionStatus::Infected(2), 1);
    e.hospitalized = HospitalStatus::Hospitalized(0);
    e.mobile = false;
    e.apply_status(true, &c);
    assert_eq!(e.health, InfectionStatus::Infected(1));
    assert_eq!(e.hospitalized, HospitalStatus::Free);
    assert!(e.mobile);
    let mut r = agent(0, InfectionStatus::Recovered(4), 1);
    r.apply_status(false, &c);
    assert_eq!(r.health, InfectionStatus::Recovered(3));
    let mut d = agent(0, InfectionStatus::Infected(0), 1);
    d.apply_status(false, &c);
    assert_eq!(d.health, InfectionStatus::Dead);
    d.apply_status(true, &c);
    assert_eq!(d.health, InfectionStatus::Dead);
}

#[test]
fn left_edge_reverses_velocity() {
    let c = config(1, 1);
    let mut e = Entity::with_state(0, Vec2 { x: 0, y: 10 }, Vec2 { x: -30, y: 40 }, InfectionStatus::Susceptible, true, 20, 3);
    e.update_movement(&c);
    assert_eq!(e.velocity, Vec2 { x: 30, y: 40 });
    assert_eq!(e.position, Vec2 { x: 0, y: 50 });
    assert!(e.position.x >= 0 && e.position.x < 100_000);
}

#[test]
fn left_edge_reverses_a_steep_velocity() {
    let mut c = config(1, 1);
    c.max_velocity = 1;
    let mut e = Entity::with_state(0, Vec2 { x: 0, y: 10 }, Vec2 { x: -1, y: 1_000_000 }, InfectionStatus::Susceptible, true, 20, 3);
    e.update_movement(&c);
    assert_eq!(e.velocity, Vec2 { x: 1, y: 1 });
    assert_eq!(e.position, Vec2 { x: 0, y: 11 });
}

#[test]
fn right_edge_clamps_and_reverses() {
    let c = config(1, 1);
    let mut e = Entity::with_state(0, Vec2 { x: 99_990, y: 10 }, Vec2 { x: 600, y: 0 }, InfectionStatus::Susceptible, true, 20, 3);
    e.apply_force(Vec2 { x: 5, y: -2 });
    e.update_movement(&c);
    assert_eq!(e.position, Vec2 { x: 99_999, y: 10 });
    assert_eq!(e.velocity, Vec2 { x: -605, y: -2 });
    assert_eq!(e.acceleration, Vec2 { x: 0, y: 0 });
}

#[test]
fn velocity_is_clamped_to_max_speed() {
    assert_eq!(clamp_magnitude(Vec2 { x: 30, y: 40 }, 10), Vec2 { x: 6, y: 8 });
    assert_eq!(clamp_magnitude(Vec2 { x: -30, y: 40 }, 10), Vec2 { x: -6, y: 8 });
    assert_eq!(clamp_magnitude(Vec2 { x: 3, y: 4 }, 10), Vec2 { x: 3, y: 4 });
    assert_eq!(clamp_magnitude(Vec2 { x: -1, y: 1_000_000 }, 10), Vec2 { x: -1, y: 9 });
    assert_eq!(clamp_magnitude(Vec2 { x: 3, y: 4 }, 0), Vec2 { x: 0, y: 0 });
    let big = clamp_magnitude(Vec2 { x: LIMIT, y: -LIMIT }, 1_000);
    assert!(big.x * big.x + big.y * big.y <= 1_000_000);
    assert!(big.x > 0 && big.y < 0);
}

#[test]
fn saturating_sum_stops_at_limit() {
    let r = saturating_add(Vec2 { x: LIMIT, y: -LIMIT }, Vec2 { x: 1, y: -1 });
    assert_eq!(r, Vec2 { x: LIMIT, y: -LIMIT });
    assert_eq!(saturating_add(Vec2 { x: 2, y: 3 }, Vec2 { x: -5, y: 1 }), Vec2 { x: -3, y: 4 });
}

#[test]
fn tests_follow_health() {
    let mut c = config(1, 1);
    c.test_true_positive = PPM;
    c.test_true_negative = PPM;
    let mut dead = agent(0, InfectionStatus::Dead, 1);
    let mut sick = agent(0, InfectionStatus::Infected(3), 1);
    let mut well = agent(0, InfectionStatus::Susceptible, 1);
    for _ in 0..20 {
        assert!(!dead.test(&c));
        assert!(sick.test(&c));
        assert!(!well.test(&c));
    }
    c.test_true_negative = 0;
    assert!(well.test(&c));
}

#[test]
fn new_agents_lie_in_the_domain() {
    let mut c = config(1, 1);
    c.dimensions = (3, 2);
    c.initial_infected = PPM;
    c.initial_mobile = 0;
    for seed in 0..100 {
        let e = Entity::new(4, &c, &uniform_ages(), seed);
        assert!(e.position.x >= 0 && e.position.x < 3);
        assert!(e.position.y >= 0 && e.position.y < 2);
        assert_eq!(e.health, InfectionStatus::Infected(3));
        assert!(!e.mobile);
        assert_eq!(e.id, 4);
    }
}

#[test]
fn neighbours_push_apart_and_infect() {
    let c = config(2, 1);
    let mut e = agent(0, InfectionStatus::Susceptible, 9);
    let snapshot = vec![
        Snapshot { position: Vec2 { x: 50, y: 50 }, health: InfectionStatus::Susceptible },
        Snapshot { position: Vec2 { x: 30, y: 90 }, health: InfectionStatus::Infected(1) },
    ];
    e.interact(&snapshot, &vec![0, 1], 1_000, &c, &AgePolicy { length_unit: 1_000 });
    assert_eq!(e.acceleration, Vec2 { x: 1, y: -2 });
    assert_eq!(e.health, InfectionStatus::Infected(3));
    assert_eq!(e.position, Vec2 { x: 50, y: 50 });
}

#[test]
fn age_policy_values() {
    let p = AgePolicy { length_unit: 10 };
    let mut e = agent(0, InfectionStatus::Infected(0), 1);
    assert_eq!(p.survival_chance(&e), 800_000);
    e.hospitalized = HospitalStatus::Hospitalized(1);
    assert_eq!(p.survival_chance(&e), 990_000);
    let near = Snapshot { position: Vec2 { x: 55, y: 50 }, health: InfectionStatus::Infected(1) };
    assert_eq!(p.infection_chance(&near, &e.snapshot()), PPM);
    let far = Snapshot { position: Vec2 { x: 50, y: 90 }, health: InfectionStatus::Infected(1) };
    assert_eq!(p.infection_chance(&far, &e.snapshot()), 62_500);
}

#[test]
fn partitions_split_evenly() {
    assert_eq!(partition(10, 3), vec![(0, 3), (3, 6), (6, 10)]);
    assert_eq!(partition(2, 4), vec![(0, 0), (0, 1), (1, 1), (1, 2)]);
    assert_eq!(partition(0, 1), vec![(0, 0)]);
}

#[test]
fn outbreak_resolves_without_beds() {
    let mut c = config(50, 0);
    c.dimensions = (100, 100);
    c.infection_radius = 100;
    let mut population = Vec::new();
    for i in 0..50usize {
        let health = if i == 0 { InfectionStatus::Infected(3) } else { InfectionStatus::Susceptible };
        let pos = Vec2 { x: (i as i64 * 7) % 100, y: (i as i64 * 13) % 100 };
        population.push(Entity::with_state(i, pos, Vec2 { x: 1, y: -1 }, health, true, 30, i as u64));
    }
    let mut sim = Simulator::from_population(c, population, 3, Simulator::stream(11));
    let policy = AgePolicy { length_unit: 1_000 };
    while !sim.done() {
        sim.step(&all_neighbors(50), 10, &policy);
        assert_eq!(sim.hospital().count(), 0);
    }
    assert_eq!(sim.current_time(), 20);
    assert!(sim.population().iter().all(|e| !matches!(e.health(), InfectionStatus::Infected(_))));
    assert!(sim.population().iter().all(|e| matches!(e.health(), InfectionStatus::Recovered(_) | InfectionStatus::Dead)));
}

#[test]
fn beds_follow_the_roster() {
    let mut c = config(30, 4);
    c.test_true_positive = PPM;
    c.tests_per_time = 30;
    c.initial_infected = PPM;
    c.infected_period = 6;
    let mut sim = Simulator::new(c, &uniform_ages(), 2, 5);
    for _ in 0..10 {
        sim.step(&all_neighbors(30), 5, &AgePolicy { length_unit: 1 });
        assert!(sim.hospital().count() <= 4);
        let beds = sim.population().iter().filter(|e| e.is_hospitalized()).count();
        assert_eq!(beds, sim.hospital().count());
        for e in sim.population() {
            assert_eq!(e.is_hospitalized(), sim.hospital().contains(e.id));
            assert!(!(matches!(e.health(), InfectionStatus::Dead) && e.is_hospitalized()));
        }
    }
}

#[test]
fn csv_line_of_a_point() {
    let p = DataPoint::new(1, 20, 3, 40, 5, 60);
    assert_eq!(p.as_csv(), "1,20,3,40,5,60\n");
    assert_eq!(DataPoint::new(0, 4294967295, 0, 0, 0, 10).as_csv(), "0,4294967295,0,0,0,10\n");
}

#[test]
fn frame_collects_ticks() {
    let mut c = config(10, 2);
    c.initial_infected = 0;
    let mut sim = Simulator::new(c, &uniform_ages(), 1, 3);
    let mut frame = DataFrame::new(4);
    frame.push_data(&sim);
    sim.step(&all_neighbors(10), 1, &AgePolicy { length_unit: 1 });
    frame.push_data(&sim);
    assert_eq!(frame.datapoints().len(), 2);
    assert_eq!(frame.datapoints()[0], DataPoint::new(0, 10, 0, 0, 0, 0));
    assert_eq!(frame.datapoints()[1].timestamp, 1);
    assert_eq!(frame.datapoints()[1].susceptible, 10);
    assert_eq!(
        frame.to_csv(),
        format!("time,susceptible,infected,hospital,recovered,dead\n0,10,0,0,0,0\n1,10,0,{},0,0\n", sim.hospital().count())
    );
    assert_eq!(DataFrame::new(0).to_csv(), "time,susceptible,infected,hospital,recovered,dead\n");
}

#[test]
fn demographics_count_ages() {
    let mut w = vec![0u64; 101];
    w[20] = 1;
    w[70] = 1;
    let ages = AgeDistribution::from_weights(w).unwrap();
    let sim = Simulator::new(config(40, 1), &ages, 2, 8);
    let d = Demographics::from_simulator(&sim);
    assert_eq!(d.counts.len(), 101);
    assert_eq!(d.counts[20] + d.counts[70], 40);
    assert_eq!(d.counts.iter().sum::<u32>(), 40);
    assert_eq!(d.max_bucket(), d.counts[20].max(d.counts[70]));
}

#[test]
fn config_validity() {
    let mut c = config(1, 1);
    assert!(c.is_valid());
    c.dimensions = (0, 5);
    assert!(!c.is_valid());
    c.dimensions = (5, 5);
    c.test_true_positive = PPM + 1;
    assert!(!c.is_valid());
}


#[test]
fn new_simulator_agents_are_fresh() {
    let c = config(25, 3);
    let sim = Simulator::new(c, &uniform_ages(), 3, 21);
    for (i, e) in sim.population().iter().enumerate() {
        assert_eq!(e.id, i);
        assert_eq!(e.velocity, Vec2 { x: 0, y: 0 });
        assert_eq!(e.acceleration, Vec2 { x: 0, y: 0 });
        assert_eq!(e.hospitalized, HospitalStatus::Free);
        assert!(e.health == InfectionStatus::Susceptible || e.health == InfectionStatus::Infected(3));
    }
    assert_eq!(sim.partitions, vec![(0, 8), (8, 16), (16, 25)]);
}

#[test]
fn dead_agent_test_leaves_it_unchanged() {
    let c = config(1, 1);
    let mut a = agent(0, InfectionStatus::Dead, 4);
    assert!(!a.test(&c));
    // The dead agent's stream did not advance: its next draw matches a fresh one.
    let mut fresh = agent(0, InfectionStatus::Dead, 4);
    assert_eq!(a.rand(), fresh.rand());
}
