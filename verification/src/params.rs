//! The colony's tuning parameters and the ranges they are searched in.

use crate::fixed::ONE;
use crate::random::random_between;
use rand::rngs::SmallRng;
use std::ops::RangeInclusive;
use vstd::prelude::*;

verus! {

/// `RangeInclusive::start`: the lower bound that the range was made with.
pub assume_specification<Idx>[ RangeInclusive::<Idx>::start ](r: &RangeInclusive<Idx>) -> (ret:
    &Idx)
    ensures
        *ret == r@.start,
;

/// `RangeInclusive::end`: the upper bound that the range was made with.
pub assume_specification<Idx>[ RangeInclusive::<Idx>::end ](r: &RangeInclusive<Idx>) -> (ret: &Idx)
    ensures
        *ret == r@.end,
;

/// One configuration of the colony. The real-valued fields are fixed-point.
#[derive(Debug, Clone, Copy, PartialEq, Eq, Structural)]
pub struct Parameters {
    /// How many ants walk in each iteration.
    pub ants: usize,
    /// The level of an edge that no ant has crossed yet.
    pub initial_pheromone_level: u64,
    /// The weight of new information in every pheromone update.
    pub alpha: u64,
    /// The exponent of the pheromone level in a step's score.
    pub beta: u64,
    /// The level that a crossed edge is pulled towards.
    pub tau0: u64,
    /// The probability that an ant takes the best-scored step.
    pub p_of_take_best_path: u64,
    /// How many iterations a run makes.
    pub iterations: usize,
}

impl Parameters {
    /// The configuration can drive a colony: at least one ant, and `alpha`
    /// and the probability at most 1.
    pub open spec fn wf(&self) -> bool {
        &&& self.ants >= 1
        &&& self.alpha <= ONE
        &&& self.p_of_take_best_path <= ONE
    }

    /// Tests [`Parameters::wf`].
    pub fn is_valid(&self) -> (b: bool)
        ensures
            b == self.wf(),
    {
        self.ants >= 1 && self.alpha <= ONE && self.p_of_take_best_path <= ONE
    }
}

impl Default for Parameters {
    fn default() -> (r: Self)
        ensures
            r == (Parameters {
                ants: 0,
                initial_pheromone_level: 0,
                alpha: 0,
                beta: 0,
                tau0: 0,
                p_of_take_best_path: 0,
                iterations: 0,
            }),
    {
        Parameters {
            ants: 0,
            initial_pheromone_level: 0,
            alpha: 0,
            beta: 0,
            tau0: 0,
            p_of_take_best_path: 0,
            iterations: 0,
        }
    }
}

/// `x` moved to the nearer bound where it lies outside `low..=high`.
pub open spec fn clamped(x: int, low: int, high: int) -> int {
    if x < low {
        low
    } else if x > high {
        high
    } else {
        x
    }
}

/// A value clamped into a range that is not empty lies within it, and a value
/// that already lies within it stays.
pub proof fn lemma_clamped_within(x: int, low: int, high: int)
    requires
        low <= high,
    ensures
        low <= clamped(x, low, high) <= high,
        low <= x <= high ==> clamped(x, low, high) == x,
{
}

/// Inclusive bounds for every field of a [`Parameters`].
pub struct ParametersRange {
    pub ants: RangeInclusive<usize>,
    pub initial_pheromone_level: RangeInclusive<u64>,
    pub alpha: RangeInclusive<u64>,
    pub beta: RangeInclusive<u64>,
    pub tau0: RangeInclusive<u64>,
    pub p_of_take_best_path: RangeInclusive<u64>,
    pub iterations: RangeInclusive<usize>,
}

impl Clone for ParametersRange {
    fn clone(&self) -> (r: Self)
        ensures
            r.same_bounds(*self),
    {
        ParametersRange {
            ants: RangeInclusive::new(*self.ants.start(), *self.ants.end()),
            initial_pheromone_level: RangeInclusive::new(
                *self.initial_pheromone_level.start(),
                *self.initial_pheromone_level.end(),
            ),
            alpha: RangeInclusive::new(*self.alpha.start(), *self.alpha.end()),
            beta: RangeInclusive::new(*self.beta.start(), *self.beta.end()),
            tau0: RangeInclusive::new(*self.tau0.start(), *self.tau0.end()),
            p_of_take_best_path: RangeInclusive::new(
                *self.p_of_take_best_path.start(),
                *self.p_of_take_best_path.end(),
            ),
            iterations: RangeInclusive::new(*self.iterations.start(), *self.iterations.end()),
        }
    }
}

impl ParametersRange {
    /// Both have the same bounds for every field.
    pub open spec fn same_bounds(&self, other: ParametersRange) -> bool {
        &&& self.ants@.start == other.ants@.start
        &&& self.ants@.end == other.ants@.end
        &&& self.initial_pheromone_level@.start == other.initial_pheromone_level@.start
        &&& self.initial_pheromone_level@.end == other.initial_pheromone_level@.end
        &&& self.alpha@.start == other.alpha@.start
        &&& self.alpha@.end == other.alpha@.end
        &&& self.beta@.start == other.beta@.start
        &&& self.beta@.end == other.beta@.end
        &&& self.tau0@.start == other.tau0@.start
        &&& self.tau0@.end == other.tau0@.end
        &&& self.p_of_take_best_path@.start == other.p_of_take_best_path@.start
        &&& self.p_of_take_best_path@.end == other.p_of_take_best_path@.end
        &&& self.iterations@.start == other.iterations@.start
        &&& self.iterations@.end == other.iterations@.end
    }

    /// No range is empty.
    pub open spec fn wf(&self) -> bool {
        &&& self.ants@.start <= self.ants@.end
        &&& self.initial_pheromone_level@.start <= self.initial_pheromone_level@.end
        &&& self.alpha@.start <= self.alpha@.end
        &&& self.beta@.start <= self.beta@.end
        &&& self.tau0@.start <= self.tau0@.end
        &&& self.p_of_take_best_path@.start <= self.p_of_take_best_path@.end
        &&& self.iterations@.start <= self.iterations@.end
    }

    /// No range is empty, and every configuration within them is valid.
    pub open spec fn admissible(&self) -> bool {
        &&& self.wf()
        &&& self.ants@.start >= 1
        &&& self.alpha@.end <= ONE
        &&& self.p_of_take_best_path@.end <= ONE
    }

    /// Every field of `p` lies within its range.
    pub open spec fn contains(&self, p: Parameters) -> bool {
        &&& self.ants@.start <= p.ants <= self.ants@.end
        &&& self.initial_pheromone_level@.start <= p.initial_pheromone_level
            <= self.initial_pheromone_level@.end
        &&& self.alpha@.start <= p.alpha <= self.alpha@.end
        &&& self.beta@.start <= p.beta <= self.beta@.end
        &&& self.tau0@.start <= p.tau0 <= self.tau0@.end
        &&& self.p_of_take_best_path@.start <= p.p_of_take_best_path
            <= self.p_of_take_best_path@.end
        &&& self.iterations@.start <= p.iterations <= self.iterations@.end
    }

    /// `p` with every field moved to the nearer bound of its range.
    pub open spec fn clamp_spec(&self, p: Parameters) -> Parameters {
        Parameters {
            ants: clamped(p.ants as int, self.ants@.start as int, self.ants@.end as int) as usize,
            initial_pheromone_level: clamped(
                p.initial_pheromone_level as int,
                self.initial_pheromone_level@.start as int,
                self.initial_pheromone_level@.end as int,
            ) as u64,
            alpha: clamped(p.alpha as int, self.alpha@.start as int, self.alpha@.end as int) as u64,
            beta: clamped(p.beta as int, self.beta@.start as int, self.beta@.end as int) as u64,
            tau0: clamped(p.tau0 as int, self.tau0@.start as int, self.tau0@.end as int) as u64,
            p_of_take_best_path: clamped(
                p.p_of_take_best_path as int,
                self.p_of_take_best_path@.start as int,
                self.p_of_take_best_path@.end as int,
            ) as u64,
            iterations: clamped(
                p.iterations as int,
                self.iterations@.start as int,
                self.iterations@.end as int,
            ) as usize,
        }
    }

    /// Tests [`ParametersRange::wf`].
    pub fn is_valid(&self) -> (b: bool)
        ensures
            b == self.wf(),
    {
        *self.ants.start() <= *self.ants.end() && *self.initial_pheromone_level.start()
            <= *self.initial_pheromone_level.end() && *self.alpha.start() <= *self.alpha.end()
            && *self.beta.start() <= *self.beta.end() && *self.tau0.start() <= *self.tau0.end()
            && *self.p_of_take_best_path.start() <= *self.p_of_take_best_path.end()
            && *self.iterations.start() <= *self.iterations.end()
    }

    /// Tests [`ParametersRange::admissible`].
    pub fn is_admissible(&self) -> (b: bool)
        ensures
            b == self.admissible(),
    {
        self.is_valid() && *self.ants.start() >= 1 && *self.alpha.end() <= ONE
            && *self.p_of_take_best_path.end() <= ONE
    }

    /// Draws every field from its range.
    pub fn sample(&self, rng: &mut SmallRng) -> (p: Parameters)
        requires
            self.wf(),
        ensures
            self.contains(p),
            self.admissible() ==> p.wf(),
    {
        let ants: usize = draw_usize(rng, *self.ants.start(), *self.ants.end());
        let initial_pheromone_level: u64 = draw_u64(
            rng,
            *self.initial_pheromone_level.start(),
            *self.initial_pheromone_level.end(),
        );
        let alpha: u64 = draw_u64(rng, *self.alpha.start(), *self.alpha.end());
        let beta: u64 = draw_u64(rng, *self.beta.start(), *self.beta.end());
        let tau0: u64 = draw_u64(rng, *self.tau0.start(), *self.tau0.end());
        let p_of_take_best_path: u64 = draw_u64(
            rng,
            *self.p_of_take_best_path.start(),
            *self.p_of_take_best_path.end(),
        );
        let iterations: usize = draw_usize(rng, *self.iterations.start(), *self.iterations.end());
        Parameters {
            ants,
            initial_pheromone_level,
            alpha,
            beta,
            tau0,
            p_of_take_best_path,
            iterations,
        }
    }

    /// Draws every field from its range.
    pub fn random(self, rng: &mut SmallRng) -> (p: Parameters)
        requires
            self.wf(),
        ensures
            self.contains(p),
            self.admissible() ==> p.wf(),
    {
        self.sample(rng)
    }

    /// Moves every field of `p` that lies outside its range to the nearer
    /// bound.
    pub fn clamp(&self, p: &mut Parameters)
        ensures
            *final(p) == self.clamp_spec(*old(p)),
            self.wf() ==> self.contains(*final(p)),
            self.contains(*old(p)) ==> *final(p) == *old(p),
    {
        p.ants = clamp_usize(p.ants, *self.ants.start(), *self.ants.end());
        p.initial_pheromone_level = clamp_u64(
            p.initial_pheromone_level,
            *self.initial_pheromone_level.start(),
            *self.initial_pheromone_level.end(),
        );
        p.alpha = clamp_u64(p.alpha, *self.alpha.start(), *self.alpha.end());
        p.beta = clamp_u64(p.beta, *self.beta.start(), *self.beta.end());
        p.tau0 = clamp_u64(p.tau0, *self.tau0.start(), *self.tau0.end());
        p.p_of_take_best_path = clamp_u64(
            p.p_of_take_best_path,
            *self.p_of_take_best_path.start(),
            *self.p_of_take_best_path.end(),
        );
        p.iterations = clamp_usize(p.iterations, *self.iterations.start(), *self.iterations.end());
    }

    /// The width of the range of `ants` and of each real-valued field, in the
    /// order of the fields.
    pub fn spans(&self) -> (s: (usize, u64, u64, u64, u64, u64))
        requires
            self.wf(),
        ensures
            s.0 == self.ants@.end - self.ants@.start,
            s.1 == self.initial_pheromone_level@.end - self.initial_pheromone_level@.start,
            s.2 == self.alpha@.end - self.alpha@.start,
            s.3 == self.beta@.end - self.beta@.start,
            s.4 == self.tau0@.end - self.tau0@.start,
            s.5 == self.p_of_take_best_path@.end - self.p_of_take_best_path@.start,
    {
        (
            *self.ants.end() - *self.ants.start(),
            *self.initial_pheromone_level.end() - *self.initial_pheromone_level.start(),
            *self.alpha.end() - *self.alpha.start(),
            *self.beta.end() - *self.beta.start(),
            *self.tau0.end() - *self.tau0.start(),
            *self.p_of_take_best_path.end() - *self.p_of_take_best_path.start(),
        )
    }
}

/// A count drawn from `low..=high`.
pub fn draw_usize(rng: &mut SmallRng, low: usize, high: usize) -> (r: usize)
    requires
        low <= high,
    ensures
        low <= r <= high,
{
    random_between(rng, low as i128, high as i128) as usize
}

/// A fixed-point number drawn from `low..=high`.
pub fn draw_u64(rng: &mut SmallRng, low: u64, high: u64) -> (r: u64)
    requires
        low <= high,
    ensures
        low <= r <= high,
{
    random_between(rng, low as i128, high as i128) as u64
}

/// `x` moved to the nearer of the bounds where it lies outside them.
pub fn clamp_usize(x: usize, low: usize, high: usize) -> (r: usize)
    ensures
        r == clamped(x as int, low as int, high as int),
{
    if x < low {
        low
    } else if x > high {
        high
    } else {
        x
    }
}

/// `x` moved to the nearer of the bounds where it lies outside them.
pub fn clamp_u64(x: u64, low: u64, high: u64) -> (r: u64)
    ensures
        r == clamped(x as int, low as int, high as int),
{
    if x < low {
        low
    } else if x > high {
        high
    } else {
        x
    }
}

} // verus!
