use crate::age_distribution::MAX_AGE;
use crate::entity::{Entity, InfectionStatus};
use crate::simulator::Simulator;
use vstd::prelude::*;
use vstd::string::StringExecFns;

verus! {

pub open spec fn digit_char(d: int) -> char {
    if d == 0 {
        '0'
    } else if d == 1 {
        '1'
    } else if d == 2 {
        '2'
    } else if d == 3 {
        '3'
    } else if d == 4 {
        '4'
    } else if d == 5 {
        '5'
    } else if d == 6 {
        '6'
    } else if d == 7 {
        '7'
    } else if d == 8 {
        '8'
    } else {
        '9'
    }
}

/// Decimal digits of `n`, without leading zeros.
pub open spec fn decimal(n: nat) -> Seq<char>
    decreases n,
{
    if n < 10 {
        seq![digit_char(n as int)]
    } else {
        decimal(n / 10) + seq![digit_char((n % 10) as int)]
    }
}

fn digit_str(d: u32) -> (r: &'static str)
    requires
        d < 10,
    ensures
        r@ == seq![digit_char(d as int)],
{
    proof {
        reveal_strlit("0");
        reveal_strlit("1");
        reveal_strlit("2");
        reveal_strlit("3");
        reveal_strlit("4");
        reveal_strlit("5");
        reveal_strlit("6");
        reveal_strlit("7");
        reveal_strlit("8");
        reveal_strlit("9");
    }
    if d == 0 {
        "0"
    } else if d == 1 {
        "1"
    } else if d == 2 {
        "2"
    } else if d == 3 {
        "3"
    } else if d == 4 {
        "4"
    } else if d == 5 {
        "5"
    } else if d == 6 {
        "6"
    } else if d == 7 {
        "7"
    } else if d == 8 {
        "8"
    } else {
        "9"
    }
}

/// Appends the decimal digits of `n` to `s`.
pub fn push_decimal(s: &mut String, n: u32)
    ensures
        final(s)@ == old(s)@ + decimal(n as nat),
    decreases n,
{
    if n >= 10 {
        push_decimal(s, n / 10);
    }
    s.append(digit_str(n % 10));
    assert(decimal(n as nat) == if n < 10 {
        seq![digit_char(n as int)]
    } else {
        decimal((n / 10) as nat) + seq![digit_char((n % 10) as int)]
    });
}

/// Counts of the population by state at one tick.
#[derive(Clone, Copy, Debug, PartialEq, Eq, Structural)]
pub struct DataPoint {
    pub timestamp: u32,
    pub susceptible: u32,
    pub infected: u32,
    pub hospitalized: u32,
    pub recovered: u32,
    pub dead: u32,
}

pub open spec fn comma() -> Seq<char> {
    seq![',']
}

/// `timestamp,susceptible,infected,hospitalized,recovered,dead` and a newline.
pub open spec fn csv_line(p: DataPoint) -> Seq<char> {
    decimal(p.timestamp as nat) + comma() + decimal(p.susceptible as nat) + comma() + decimal(
        p.infected as nat,
    ) + comma() + decimal(p.hospitalized as nat) + comma() + decimal(p.recovered as nat) + comma()
        + decimal(p.dead as nat) + seq!['\n']
}

impl DataPoint {
    pub fn new(
        timestamp: u32,
        susceptible: u32,
        infected: u32,
        hospitalized: u32,
        recovered: u32,
        dead: u32,
    ) -> (r: DataPoint)
        ensures
            r == (DataPoint { timestamp, susceptible, infected, hospitalized, recovered, dead }),
    {
        DataPoint { timestamp, susceptible, infected, hospitalized, recovered, dead }
    }

    /// One CSV line of the counts.
    pub fn as_csv(&self) -> (r: String)
        ensures
            r@ == csv_line(*self),
    {
        let mut s = String::new();
        proof {
            reveal_strlit(",");
            reveal_strlit("\n");
        }
        push_decimal(&mut s, self.timestamp);
        s.append(",");
        push_decimal(&mut s, self.susceptible);
        s.append(",");
        push_decimal(&mut s, self.infected);
        s.append(",");
        push_decimal(&mut s, self.hospitalized);
        s.append(",");
        push_decimal(&mut s, self.recovered);
        s.append(",");
        push_decimal(&mut s, self.dead);
        s.append("\n");
        assert(s@ =~= csv_line(*self));
        s
    }
}


/// 0 for susceptible, 1 for infected, 2 for recovered, 3 for dead.
pub open spec fn health_kind(h: InfectionStatus) -> int {
    match h {
        InfectionStatus::Susceptible => 0,
        InfectionStatus::Infected(_) => 1,
        InfectionStatus::Recovered(_) => 2,
        InfectionStatus::Dead => 3,
    }
}

/// How many of the first `n` agents are in health state `kind`.
pub open spec fn count_kind(pop: Seq<Entity>, kind: int, n: int) -> nat
    decreases n,
{
    if n <= 0 {
        0
    } else {
        count_kind(pop, kind, n - 1) + if health_kind(pop[n - 1].health) == kind {
            1nat
        } else {
            0nat
        }
    }
}

proof fn lemma_count_kind_bound(pop: Seq<Entity>, kind: int, n: int)
    requires
        n >= 0,
    ensures
        count_kind(pop, kind, n) <= n,
    decreases n,
{
    if n > 0 {
        lemma_count_kind_bound(pop, kind, n - 1);
    }
}

pub open spec fn csv_header() -> Seq<char> {
    "time,susceptible,infected,hospital,recovered,dead\n"@
}

/// The header and the first `n` points, one line each.
pub open spec fn csv_table(points: Seq<DataPoint>, n: int) -> Seq<char>
    decreases n,
{
    if n <= 0 {
        csv_header()
    } else {
        csv_table(points, n - 1) + csv_line(points[n - 1])
    }
}

/// The data points of a run, one per tick.
pub struct DataFrame {
    pub datapoints: Vec<DataPoint>,
}

impl DataFrame {
    /// An empty frame with room for `size` points.
    pub fn new(size: usize) -> (r: DataFrame)
        ensures
            r.datapoints@ == Seq::<DataPoint>::empty(),
    {
        DataFrame { datapoints: Vec::with_capacity(size) }
    }

    pub fn datapoints(&self) -> (r: &Vec<DataPoint>)
        ensures
            r@ == self.datapoints@,
    {
        &self.datapoints
    }

    /// Records the simulator's current tick: the number of agents in each
    /// health state and the number of beds taken.
    pub fn push_data(&mut self, simulator: &Simulator)
        requires
            simulator.wf(),
            simulator.population@.len() <= u32::MAX,
        ensures
            final(self).datapoints@ == old(self).datapoints@.push(
                DataPoint {
                    timestamp: simulator.time,
                    susceptible: count_kind(simulator.population@, 0, simulator.population@.len() as int) as u32,
                    infected: count_kind(simulator.population@, 1, simulator.population@.len() as int) as u32,
                    hospitalized: simulator.hospital.enlisted@.len() as u32,
                    recovered: count_kind(simulator.population@, 2, simulator.population@.len() as int) as u32,
                    dead: count_kind(simulator.population@, 3, simulator.population@.len() as int) as u32,
                },
            ),
    {
        let pop = simulator.population();
        let mut susceptible: u32 = 0;
        let mut infected: u32 = 0;
        let mut recovered: u32 = 0;
        let mut dead: u32 = 0;
        let mut i: usize = 0;
        while i < pop.len()
            invariant
                pop@ == simulator.population@,
                pop@.len() <= u32::MAX,
                0 <= i <= pop@.len(),
                susceptible == count_kind(pop@, 0, i as int),
                infected == count_kind(pop@, 1, i as int),
                recovered == count_kind(pop@, 2, i as int),
                dead == count_kind(pop@, 3, i as int),
            decreases pop@.len() - i,
        {
            proof {
                lemma_count_kind_bound(pop@, 0, i as int);
                lemma_count_kind_bound(pop@, 1, i as int);
                lemma_count_kind_bound(pop@, 2, i as int);
                lemma_count_kind_bound(pop@, 3, i as int);
            }
            match pop[i].health() {
                InfectionStatus::Susceptible => susceptible = susceptible + 1,
                InfectionStatus::Infected(_) => infected = infected + 1,
                InfectionStatus::Recovered(_) => recovered = recovered + 1,
                InfectionStatus::Dead => dead = dead + 1,
            }
            i = i + 1;
        }
        let beds = simulator.hospital().count() as u32;
        self.datapoints.push(
            DataPoint::new(simulator.current_time(), susceptible, infected, beds, recovered, dead),
        );
    }

    /// The frame as CSV: a header line, then one line per point.
    pub fn to_csv(&self) -> (r: String)
        ensures
            r@ == csv_table(self.datapoints@, self.datapoints@.len() as int),
    {
        proof {
            reveal_strlit("time,susceptible,infected,hospital,recovered,dead\n");
        }
        let mut csv = String::from_str("time,susceptible,infected,hospital,recovered,dead\n");
        let mut i: usize = 0;
        while i < self.datapoints.len()
            invariant
                0 <= i <= self.datapoints@.len(),
                csv@ == csv_table(self.datapoints@, i as int),
            decreases self.datapoints@.len() - i,
        {
            let line = self.datapoints[i].as_csv();
            csv.append(line.as_str());
            i = i + 1;
        }
        csv
    }
}


/// How many of the first `n` agents are aged `age`.
pub open spec fn tally(pop: Seq<Entity>, age: int, n: int) -> nat
    decreases n,
{
    if n <= 0 {
        0
    } else {
        tally(pop, age, n - 1) + if pop[n - 1].age == age {
            1nat
        } else {
            0nat
        }
    }
}

proof fn lemma_tally_bound(pop: Seq<Entity>, age: int, n: int)
    requires
        n >= 0,
    ensures
        tally(pop, age, n) <= n,
    decreases n,
{
    if n > 0 {
        lemma_tally_bound(pop, age, n - 1);
    }
}

/// The age structure of a population: `counts[a]` agents are aged `a`.
pub struct Demographics {
    pub counts: Vec<u32>,
}

impl Demographics {
    /// Counts the simulator's agents by age.
    pub fn from_simulator(simulator: &Simulator) -> (r: Demographics)
        requires
            simulator.wf(),
            simulator.population@.len() <= u32::MAX,
        ensures
            r.counts@.len() == MAX_AGE + 1,
            forall|a: int|
                0 <= a <= MAX_AGE ==> #[trigger] r.counts@[a] == tally(
                    simulator.population@,
                    a,
                    simulator.population@.len() as int,
                ),
    {
        let pop = simulator.population();
        let mut d = Demographics { counts: Vec::new() };
        let mut a: usize = 0;
        while a <= MAX_AGE as usize
            invariant
                0 <= a <= MAX_AGE + 1,
                d.counts@.len() == a,
                forall|b: int| 0 <= b < a ==> #[trigger] d.counts@[b] == 0,
            decreases MAX_AGE + 1 - a,
        {
            d.counts.push(0);
            a = a + 1;
        }
        let mut i: usize = 0;
        while i < pop.len()
            invariant
                pop@ == simulator.population@,
                simulator.wf(),
                pop@.len() <= u32::MAX,
                0 <= i <= pop@.len(),
                d.counts@.len() == MAX_AGE + 1,
                forall|b: int| 0 <= b <= MAX_AGE ==> #[trigger] d.counts@[b] == tally(pop@, b, i as int),
            decreases pop@.len() - i,
        {
            assert(pop@[i as int].wf(&simulator.core));
            proof {
                lemma_tally_bound(pop@, pop@[i as int].age as int, i as int);
            }
            d.add(pop[i].age());
            i = i + 1;
        }
        d
    }

    /// One more agent aged `age`.
    fn add(&mut self, age: u8)
        requires
            old(self).counts@.len() == MAX_AGE + 1,
            age <= MAX_AGE,
            old(self).counts@[age as int] < u32::MAX,
        ensures
            final(self).counts@ == old(self).counts@.update(
                age as int,
                (old(self).counts@[age as int] + 1) as u32,
            ),
    {
        let c = self.counts[age as usize];
        self.counts.set(age as usize, c + 1);
    }

    /// The largest count of any one age.
    pub fn max_bucket(&self) -> (r: u32)
        ensures
            forall|a: int| 0 <= a < self.counts@.len() ==> #[trigger] self.counts@[a] <= r,
            r == 0 || exists|a: int| 0 <= a < self.counts@.len() && #[trigger] self.counts@[a] == r,
    {
        let mut max: u32 = 0;
        let mut i: usize = 0;
        while i < self.counts.len()
            invariant
                0 <= i <= self.counts@.len(),
                forall|a: int| 0 <= a < i ==> #[trigger] self.counts@[a] <= max,
                max == 0 || exists|a: int| 0 <= a < i && #[trigger] self.counts@[a] == max,
            decreases self.counts@.len() - i,
        {
            if self.counts[i] > max {
                max = self.counts[i];
            }
            i = i + 1;
        }
        max
    }
}

} // verus!
