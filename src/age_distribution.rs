use crate::rng::draw_below;
use rand::rngs::StdRng;
use vstd::prelude::*;

verus! {

/// Ages run from 0 to `MAX_AGE` inclusive.
pub const MAX_AGE: u8 = 100;

/// Sum of the first `n` weights.
pub open spec fn cumulative(w: Seq<u64>, n: int) -> int
    decreases n,
{
    if n <= 0 {
        0
    } else {
        cumulative(w, n - 1) + w[n - 1]
    }
}

proof fn lemma_cumulative_monotone(w: Seq<u64>, a: int, b: int)
    requires
        0 <= a <= b,
    ensures
        cumulative(w, a) <= cumulative(w, b),
    decreases b - a,
{
    if a < b {
        lemma_cumulative_monotone(w, a, b - 1);
    }
}

/// A distribution of ages: age `i` has weight `weights[i]`, and is drawn with
/// probability `weights[i] / total`.
pub struct AgeDistribution {
    pub weights: Vec<u64>,
    pub total: u64,
}

impl AgeDistribution {
    pub open spec fn wf(&self) -> bool {
        &&& self.weights@.len() == MAX_AGE + 1
        &&& self.total == cumulative(self.weights@, MAX_AGE + 1)
        &&& self.total > 0
    }

    /// A distribution from one weight per age; `None` unless there are
    /// exactly `MAX_AGE + 1` weights whose sum is positive and fits a `u64`.
    pub fn from_weights(weights: Vec<u64>) -> (r: Option<AgeDistribution>)
        ensures
            r is Some <==> (weights@.len() == MAX_AGE + 1 && 0 < cumulative(weights@, MAX_AGE + 1)
                <= u64::MAX),
            r matches Some(d) ==> d.wf() && d.weights@ == weights@,
    {
        if weights.len() != MAX_AGE as usize + 1 {
            return None;
        }
        let mut total: u64 = 0;
        let mut i: usize = 0;
        while i < weights.len()
            invariant
                weights@.len() == MAX_AGE + 1,
                0 <= i <= weights@.len(),
                total == cumulative(weights@, i as int),
            decreases weights@.len() - i,
        {
            if total > u64::MAX - weights[i] {
                proof {
                    assert(cumulative(weights@, i + 1) > u64::MAX);
                    lemma_cumulative_monotone(weights@, i + 1, MAX_AGE + 1);
                }
                return None;
            }
            total = total + weights[i];
            i = i + 1;
        }
        if total == 0 {
            return None;
        }
        Some(AgeDistribution { weights, total })
    }

    /// The age whose slot in `[0, total)` holds `draw`: slot `i` is
    /// `[cumulative(i), cumulative(i + 1))`.
    pub fn age_for(&self, draw: u64) -> (r: u8)
        requires
            self.wf(),
            draw < self.total,
        ensures
            r <= MAX_AGE,
            cumulative(self.weights@, r as int) <= draw < cumulative(self.weights@, r + 1),
    {
        let mut i: usize = 0;
        let mut below: u64 = 0;
        while i < MAX_AGE as usize
            invariant
                self.wf(),
                draw < self.total,
                0 <= i <= MAX_AGE,
                below == cumulative(self.weights@, i as int),
                below <= draw,
            decreases MAX_AGE - i,
        {
            proof {
                lemma_cumulative_monotone(self.weights@, i + 1, MAX_AGE + 1);
            }
            let next: u64 = below + self.weights[i];
            if draw < next {
                return i as u8;
            }
            below = next;
            i = i + 1;
        }
        i as u8
    }

    /// Draws an age from `rng`; only ages of positive weight come out.
    pub fn sample(&self, rng: &mut StdRng) -> (r: u8)
        requires
            self.wf(),
        ensures
            r <= MAX_AGE,
            self.weights@[r as int] > 0,
    {
        let d = draw_below(rng, self.total);
        self.age_for(d)
    }
}

} // verus!
