//! The genetic search over the colony's parameters.

use crate::colony::{is_tour, run, walked};
use crate::fixed::{floor_sqrt, lemma_product_fits, multiply, product, scale, times, ONE};
use crate::params::{clamped, Parameters, ParametersRange};
use crate::random::{distinct, distinct_indices, random_between, random_ratio};
use crate::ranking::{is_ranking, rank, valid_entries, Entry};
use crate::tsp::SymmetricTSP;
use rand::rngs::SmallRng;
use std::collections::hash_map::DefaultHasher;
use std::collections::HashMap;
use std::hash::Hasher;
use vstd::bytes::{spec_u64_to_le_bytes, u64_to_le_bytes};
use vstd::prelude::*;
use vstd::std_specs::hash::DefaultHasherAdditionalSpecFns;

verus! {

/// `r` is the integer nearest to the square root of `n`.
pub open spec fn is_round_sqrt(n: int, r: int) -> bool {
    0 <= r && n <= r * r + r && (r == 0 || r * r - r < n)
}

/// The integer nearest to the square root of `n`.
pub fn round_sqrt(n: usize) -> (r: u64)
    ensures
        is_round_sqrt(n as int, r as int),
{
    let floor: u64 = floor_sqrt(n as u128);
    let wide: u128 = floor as u128;
    assert(wide * wide <= n);
    assert(wide <= 0xffff_ffff) by (nonlinear_arith)
        requires
            wide * wide <= 0xffff_ffff_ffff_ffff,
            0 <= wide,
    ;
    assert(wide * wide + wide <= 0xffff_ffff * 0xffff_ffff + 0xffff_ffff) by (nonlinear_arith)
        requires
            0 <= wide <= 0xffff_ffff,
    ;
    if n as u128 > wide * wide + wide {
        assert((wide + 1) * (wide + 1) == wide * wide + 2 * wide + 1) by (nonlinear_arith);
        assert((wide + 1) * (wide + 1) - (wide + 1) == wide * wide + wide) by (nonlinear_arith);
        assert((wide + 1) * (wide + 1) + (wide + 1) >= (wide + 1) * (wide + 1)) by (nonlinear_arith)
            requires
                wide >= 0,
        ;
        floor + 1
    } else {
        assert(wide > 0 ==> wide * wide - wide < wide * wide);
        floor
    }
}

/// The lower end of the interval that a blend of `a` and `b` is drawn from:
/// the smaller of the two, less `alpha` times their difference.
pub open spec fn blx_low(a: int, b: int, alpha: int) -> int {
    if a <= b {
        a - product(b - a, alpha)
    } else {
        b - product(a - b, alpha)
    }
}

/// The upper end of the interval that a blend of `a` and `b` is drawn from:
/// the greater of the two, plus `alpha` times their difference.
pub open spec fn blx_high(a: int, b: int, alpha: int) -> int {
    if a <= b {
        b + product(b - a, alpha)
    } else {
        a + product(a - b, alpha)
    }
}

/// The interval that a blend of the fixed-point numbers `a` and `b` is drawn
/// from.
pub fn blx_bounds(a: u64, b: u64, alpha: u64) -> (r: (i128, i128))
    ensures
        r.0 == blx_low(a as int, b as int, alpha as int),
        r.1 == blx_high(a as int, b as int, alpha as int),
        r.0 <= r.1,
{
    let (min, max) = if a <= b {
        (a, b)
    } else {
        (b, a)
    };
    let d: u64 = max - min;
    proof {
        lemma_product_fits(d, alpha);
    }
    let spread: u128 = scale(d, alpha);
    (min as i128 - spread as i128, max as i128 + spread as i128)
}

/// `alpha` times `n`, rounded to the nearest integer.
pub open spec fn rounded(n: int, alpha: int) -> int {
    (n * alpha + ONE / 2) / (ONE as int)
}

/// `alpha` times `n`, rounded up.
pub open spec fn raised(n: int, alpha: int) -> int {
    (n * alpha + ONE - 1) / (ONE as int)
}

/// The distance between two counts, at least 1.
pub open spec fn count_span(a: int, b: int) -> int {
    if a == b {
        1
    } else if a < b {
        b - a
    } else {
        a - b
    }
}

/// The lower end of the interval that a blend of the counts `a` and `b` is
/// drawn from: the smaller of the two, less `alpha` times their span, rounded.
pub open spec fn blx_count_low(a: int, b: int, alpha: int) -> int {
    (if a <= b {
        a
    } else {
        b
    }) - rounded(count_span(a, b), alpha)
}

/// The upper end of the interval that a blend of the counts `a` and `b` is
/// drawn from: the greater of the two, plus `alpha` times their span, rounded.
pub open spec fn blx_count_high(a: int, b: int, alpha: int) -> int {
    (if a <= b {
        b
    } else {
        a
    }) + rounded(count_span(a, b), alpha)
}

/// The interval that a blend of the counts `a` and `b` is drawn from.
pub fn blx_count_bounds(a: usize, b: usize, alpha: u64) -> (r: (i128, i128))
    ensures
        r.0 == blx_count_low(a as int, b as int, alpha as int),
        r.1 == blx_count_high(a as int, b as int, alpha as int),
        r.0 <= r.1,
{
    let (min, max) = if a <= b {
        (a, b)
    } else {
        (b, a)
    };
    let span: u64 = if max == min {
        1
    } else {
        (max - min) as u64
    };
    proof {
        lemma_product_fits(span, alpha);
    }
    let spread: u128 = ((span as u128) * (alpha as u128) + (ONE as u128) / 2) / (ONE as u128);
    (min as i128 - spread as i128, max as i128 + spread as i128)
}

/// The least whole number that a real number drawn for a blend of the
/// counts `a` and `b` is cut down to.
pub open spec fn blx_whole_low(a: int, b: int, alpha: int) -> int {
    if a <= b {
        a - raised(b - a, alpha)
    } else {
        b - raised(a - b, alpha)
    }
}

/// The greatest whole number that a real number drawn for a blend of the
/// counts `a` and `b` is cut down to.
pub open spec fn blx_whole_high(a: int, b: int, alpha: int) -> int {
    if a <= b {
        b + product(b - a, alpha)
    } else {
        a + product(a - b, alpha)
    }
}

/// The whole numbers that a real number is cut down to which is drawn from
/// the interval of the blend of `a` and `b`: from the smaller of the two less
/// `alpha` times their difference, to the greater plus as much.
pub fn blx_whole_bounds(a: usize, b: usize, alpha: u64) -> (r: (i128, i128))
    ensures
        r.0 == blx_whole_low(a as int, b as int, alpha as int),
        r.1 == blx_whole_high(a as int, b as int, alpha as int),
        r.0 <= r.1,
{
    let (min, max) = if a <= b {
        (a, b)
    } else {
        (b, a)
    };
    let d: u64 = (max - min) as u64;
    proof {
        lemma_product_fits(d, alpha);
    }
    let wide: u128 = (d as u128) * (alpha as u128);
    let below: u128 = (wide + (ONE as u128) - 1) / (ONE as u128);
    let above: u128 = wide / (ONE as u128);
    (min as i128 - below as i128, max as i128 + above as i128)
}

/// The fixed-point number nearest to `v`.
pub fn saturate_u64(v: i128) -> (r: u64)
    ensures
        r == clamped(v as int, 0, u64::MAX as int),
{
    if v < 0 {
        0
    } else if v > u64::MAX as i128 {
        u64::MAX
    } else {
        v as u64
    }
}

/// The count nearest to `v`.
pub fn saturate_usize(v: i128) -> (r: usize)
    ensures
        r == clamped(v as int, 0, usize::MAX as int),
{
    if v < 0 {
        0
    } else if v > usize::MAX as i128 {
        usize::MAX
    } else {
        v as usize
    }
}

/// The greatest step that a mutation moves a count by, for a range of width
/// `span`: the integer nearest to the square root of `span`, at least 1.
pub open spec fn is_count_step(span: int, step: int) -> bool {
    if span == 0 {
        step == 1
    } else {
        is_round_sqrt(span, step)
    }
}

/// The greatest step that a mutation moves a count by.
pub fn count_step(span: usize) -> (step: u64)
    ensures
        is_count_step(span as int, step as int),
        step >= 1,
{
    let root: u64 = round_sqrt(span);
    assert(root >= 1 ==> root * root - root >= 0) by (nonlinear_arith);
    if root < 1 {
        1
    } else {
        root
    }
}

/// The greatest amount that a mutation moves a real-valued field by, for a
/// range of width `span`: `sigma` times `span`, at least one billionth.
pub open spec fn jitter_spec(sigma: u64, span: u64) -> u64 {
    if times(sigma, span) < 1 {
        1
    } else {
        times(sigma, span)
    }
}

/// The greatest amount that a mutation moves a real-valued field by.
pub fn jitter(sigma: u64, span: u64) -> (width: u64)
    ensures
        width == jitter_spec(sigma, span),
{
    let width: u64 = multiply(sigma, span);
    if width < 1 {
        1
    } else {
        width
    }
}

/// `x` lies between what the two ends of an interval are clamped to.
pub open spec fn within_blend(x: int, low: int, high: int, start: int, end: int) -> bool {
    clamped(low, start, end) <= x <= clamped(high, start, end)
}

/// The key under which the cache holds the fitness of `p`: the hash of
/// its fields, each written as eight bytes, the lowest first.
pub open spec fn key_of(p: Parameters) -> u64 {
    DefaultHasher::spec_finish(
        seq![
            spec_u64_to_le_bytes(p.ants as u64),
            spec_u64_to_le_bytes(p.initial_pheromone_level),
            spec_u64_to_le_bytes(p.alpha),
            spec_u64_to_le_bytes(p.beta),
            spec_u64_to_le_bytes(p.tau0),
            spec_u64_to_le_bytes(p.p_of_take_best_path),
            spec_u64_to_le_bytes(p.iterations as u64),
        ],
    )
}

/// The fitness that the cache holds for `p`.
pub open spec fn lookup(cache: Map<u64, u128>, p: Parameters) -> Option<u128> {
    if cache.contains_key(key_of(p)) {
        Some(cache[key_of(p)])
    } else {
        None
    }
}

/// The fitness of `p` by the cache, where a missing one counts as greater
/// than any other.
pub open spec fn cost(cache: Map<u64, u128>, p: Parameters) -> int {
    match lookup(cache, p) {
        Some(known) => known as int,
        None => u128::MAX + 1,
    }
}

/// `score` can be the outcome of a colony run on `t` with `p`: none where
/// `p` asks for no iteration, else the length of a tour of `t`. Where the
/// ants always take the best-scored step, every step of that tour was the
/// best-scored one when it was taken.
pub open spec fn is_fitness(t: &SymmetricTSP, p: Parameters, score: Option<u128>) -> bool {
    &&& p.iterations == 0 <==> score is None
    &&& score matches Some(lenght) ==> exists|path: Seq<usize>|
        crate::ant::hamiltonian(t.cities(), path) && lenght == #[trigger] t.tour_length(path) && (
        p.p_of_take_best_path == ONE ==> crate::ant::greedy(t, p.beta, path))
}

/// The members that the first `k` entries of `ranking` name.
pub open spec fn elites(population: Seq<Parameters>, ranking: Seq<Entry>, k: int) -> Seq<
    Parameters,
> {
    Seq::new(k as nat, |r: int| population[ranking[r].1 as int])
}

/// The cache after the members that the first `k` entries of `ranking`
/// name were entered one after the other, each with its fitness.
pub open spec fn elite_scores(population: Seq<Parameters>, ranking: Seq<Entry>, k: int) -> Map<
    u64,
    u128,
>
    decreases k,
{
    if k <= 0 {
        Map::empty()
    } else {
        elite_scores(population, ranking, k - 1).insert(
            key_of(population[ranking[k - 1].1 as int]),
            ranking[k - 1].0,
        )
    }
}

/// The smaller of two counts.
pub open spec fn least(a: int, b: int) -> int {
    if a <= b {
        a
    } else {
        b
    }
}

/// One colony run with `parameters` on `t`, as a fitness: the length of its
/// best tour.
pub fn run_one(parameters: &Parameters, t: &SymmetricTSP, rng: &mut SmallRng) -> (score: Option<
    u128,
>)
    requires
        parameters.wf(),
        t.cities() >= 1,
    ensures
        is_fitness(t, *parameters, score),
{
    match run(parameters, t, parameters.iterations, rng) {
        Some(tour) => {
            assert(walked(t, parameters, &tour));
            assert(is_tour(t, &tour));
            assert(tour.lenght == t.tour_length(tour.path@));
            Some(tour.lenght)
        },
        None => None,
    }
}

/// A population of colony parameters that evolves towards shorter tours.
pub struct GeneticSelector {
    parameter_range: ParametersRange,
    generation: Vec<Parameters>,
    top_n: usize,
    tsp: SymmetricTSP,
    target_population: usize,
    tournament_k: usize,
    mutation_rate: u64,
    mutation_sigma: u64,
    blx_alpha: u64,
    generation_idx: usize,
    eval_cache: HashMap<u64, u128>,
}

impl GeneticSelector {
    /// The ranges that the members are kept in.
    pub closed spec fn range(&self) -> ParametersRange {
        self.parameter_range
    }

    /// The members of the current generation.
    pub closed spec fn population(&self) -> Seq<Parameters> {
        self.generation@
    }

    /// The fitness that is known, by the key of the member that has it.
    pub closed spec fn cache(&self) -> Map<u64, u128> {
        self.eval_cache@
    }

    /// How many members survive a generation.
    pub closed spec fn elite_size(&self) -> usize {
        self.top_n
    }

    /// How many members a generation is filled up to.
    pub closed spec fn target(&self) -> usize {
        self.target_population
    }

    /// The instance that the members are judged on.
    pub closed spec fn instance(&self) -> SymmetricTSP {
        self.tsp
    }

    /// How many generations have been bred.
    pub closed spec fn generation_number(&self) -> usize {
        self.generation_idx
    }

    /// How many candidates a tournament draws.
    pub closed spec fn tournament_size(&self) -> usize {
        self.tournament_k
    }

    /// The probability that a mutation touches a field.
    pub closed spec fn mutation_rate(&self) -> u64 {
        self.mutation_rate
    }

    /// The width of a mutation, as a share of a field's range.
    pub closed spec fn mutation_sigma(&self) -> u64 {
        self.mutation_sigma
    }

    /// How far a blend reaches beyond the parents, as a share of their
    /// difference.
    pub closed spec fn blend_alpha(&self) -> u64 {
        self.blx_alpha
    }

    /// The ranges admit only valid parameters, the instance has a city, and
    /// every member lies within the ranges.
    pub open spec fn wf(&self) -> bool {
        &&& self.range().admissible()
        &&& self.instance().cities() >= 1
        &&& self.mutation_rate() <= ONE
        &&& forall|i: int|
            0 <= i < self.population().len() ==> self.range().contains(
                #[trigger] self.population()[i],
            )
    }

    /// Everything but the population and the cache is as in `other`.
    pub open spec fn same_setup(&self, other: &Self) -> bool {
        &&& self.range() == other.range()
        &&& self.elite_size() == other.elite_size()
        &&& self.target() == other.target()
        &&& self.instance() == other.instance()
        &&& self.tournament_size() == other.tournament_size()
        &&& self.mutation_rate() == other.mutation_rate()
        &&& self.mutation_sigma() == other.mutation_sigma()
        &&& self.blend_alpha() == other.blend_alpha()
    }

    /// A selector without members: tournaments of 3, a mutation rate of
    /// 0.25, a mutation width of 0.1 and a blend reach of 0.3.
    pub fn new(
        parameter_range: ParametersRange,
        top_n: usize,
        target_population: usize,
        tsp: SymmetricTSP,
    ) -> (selector: Self)
        ensures
            selector.range() == parameter_range,
            selector.elite_size() == top_n,
            selector.target() == target_population,
            selector.instance() == tsp,
            selector.population().len() == 0,
            selector.cache() == Map::<u64, u128>::empty(),
            selector.generation_number() == 0,
            selector.tournament_size() == 3,
            selector.mutation_rate() == 250_000_000,
            selector.mutation_sigma() == 100_000_000,
            selector.blend_alpha() == 300_000_000,
            selector.wf() <==> parameter_range.admissible() && tsp.cities() >= 1,
    {
        Self {
            parameter_range,
            generation: Vec::new(),
            top_n,
            tsp,
            target_population,
            tournament_k: 3,
            mutation_rate: 250_000_000,
            mutation_sigma: 100_000_000,
            blx_alpha: 300_000_000,
            generation_idx: 0,
            eval_cache: HashMap::new(),
        }
    }

    /// Tests [`GeneticSelector::wf`].
    pub fn is_valid(&self) -> (b: bool)
        ensures
            b == self.wf(),
    {
        if !(self.parameter_range.is_admissible() && self.tsp.coordinates.len() >= 1
            && self.mutation_rate <= ONE) {
            return false;
        }
        let mut i: usize = 0;
        while i < self.generation.len()
            invariant
                i <= self.population().len(),
                forall|j: int|
                    0 <= j < i ==> self.range().contains(#[trigger] self.population()[j]),
            decreases self.population().len() - i,
        {
            if !within(&self.parameter_range, &self.generation[i]) {
                return false;
            }
            i = i + 1;
        }
        true
    }

    /// The members of the current generation; after
    /// [`GeneticSelector::kill_dump`], the best comes first.
    pub fn members(&self) -> (members: &Vec<Parameters>)
        ensures
            members@ == self.population(),
    {
        &self.generation
    }

    /// How many generations have been bred.
    pub fn generation_idx(&self) -> (n: usize)
        ensures
            n == self.generation_number(),
    {
        self.generation_idx
    }

    /// The key under which the cache holds the fitness of `p`.
    pub fn hash_params(p: &Parameters) -> (key: u64)
        ensures
            key == key_of(*p),
    {
        let mut h = DefaultHasher::new();
        h.write(u64_to_le_bytes(p.ants as u64).as_slice());
        h.write(u64_to_le_bytes(p.initial_pheromone_level).as_slice());
        h.write(u64_to_le_bytes(p.alpha).as_slice());
        h.write(u64_to_le_bytes(p.beta).as_slice());
        h.write(u64_to_le_bytes(p.tau0).as_slice());
        h.write(u64_to_le_bytes(p.p_of_take_best_path).as_slice());
        h.write(u64_to_le_bytes(p.iterations as u64).as_slice());
        assert(h@ =~= seq![
            spec_u64_to_le_bytes(p.ants as u64),
            spec_u64_to_le_bytes(p.initial_pheromone_level),
            spec_u64_to_le_bytes(p.alpha),
            spec_u64_to_le_bytes(p.beta),
            spec_u64_to_le_bytes(p.tau0),
            spec_u64_to_le_bytes(p.p_of_take_best_path),
            spec_u64_to_le_bytes(p.iterations as u64),
        ]);
        h.finish()
    }

    /// The known fitness of `p`, if any.
    pub fn cached_fitness(&self, p: &Parameters) -> (known: Option<u128>)
        ensures
            known == lookup(self.cache(), *p),
    {
        broadcast use vstd::std_specs::hash::group_hash_axioms;

        let key: u64 = Self::hash_params(p);
        match self.eval_cache.get(&key) {
            Some(known) => Some(*known),
            None => None,
        }
    }

    /// Fills the population with members drawn from the ranges.
    pub fn create_first_generation(&mut self, rng: &mut SmallRng)
        requires
            old(self).wf(),
        ensures
            final(self).wf(),
            final(self).same_setup(old(self)),
            final(self).cache() == old(self).cache(),
            final(self).generation_number() == old(self).generation_number(),
            final(self).population().len() == old(self).target(),
    {
        let mut generation: Vec<Parameters> = Vec::new();
        let mut i: usize = 0;
        while i < self.target_population
            invariant
                i <= self.target(),
                generation@.len() == i,
                self.range().admissible(),
                forall|j: int| 0 <= j < i ==> self.range().contains(#[trigger] generation@[j]),
            decreases self.target() - i,
        {
            let member: Parameters = self.parameter_range.sample(rng);
            generation.push(member);
            i = i + 1;
        }
        self.generation = generation;
    }

    /// The fitness of `p`: the known one or, where none is known, that of a
    /// colony run.
    pub open spec fn evaluated(&self, p: Parameters, score: Option<u128>) -> bool {
        match lookup(self.cache(), p) {
            Some(known) => score == Some(known),
            None => is_fitness(&self.instance(), p, score),
        }
    }

    /// The fitness of `p`: the known one or, where none is known, that of a
    /// fresh colony run.
    pub fn evaluate_one(&self, p: &Parameters, rng: &mut SmallRng) -> (score: Option<u128>)
        requires
            self.instance().cities() >= 1,
            p.wf(),
        ensures
            self.evaluated(*p, score),
    {
        match self.cached_fitness(p) {
            Some(known) => Some(known),
            None => run_one(p, &self.tsp, rng),
        }
    }

    /// The fitness of every member, in the order of the population.
    pub fn evaluate_generation(&mut self, rng: &mut SmallRng) -> (scores: Vec<Option<u128>>)
        requires
            old(self).wf(),
        ensures
            *final(self) == *old(self),
            scores@.len() == old(self).population().len(),
            forall|i: int|
                0 <= i < scores@.len() ==> old(self).evaluated(
                    old(self).population()[i],
                    #[trigger] scores@[i],
                ),
    {
        let mut scores: Vec<Option<u128>> = Vec::new();
        let mut i: usize = 0;
        while i < self.generation.len()
            invariant
                *self == *old(self),
                self.wf(),
                i <= self.population().len(),
                scores@.len() == i,
                forall|j: int|
                    0 <= j < i ==> self.evaluated(self.population()[j], #[trigger] scores@[j]),
            decreases self.population().len() - i,
        {
            assert(self.range().contains(self.population()[i as int]));
            let score: Option<u128> = self.evaluate_one(&self.generation[i], rng);
            scores.push(score);
            i = i + 1;
        }
        scores
    }

    /// The fitness of every member, in the order of the population, with
    /// `run` in place of the colony run: `run` is called for the members whose
    /// fitness is not known, and for no other.
    pub fn evaluate_generation_with<F: Fn(&Parameters) -> Option<u128>>(&self, run: F) -> (scores:
        Vec<Option<u128>>)
        requires
            forall|i: int|
                0 <= i < self.population().len() ==> call_requires(
                    run,
                    (&#[trigger] self.population()[i],),
                ),
        ensures
            scores@.len() == self.population().len(),
            forall|i: int|
                0 <= i < scores@.len() ==> match lookup(self.cache(), self.population()[i]) {
                    Some(known) => #[trigger] scores@[i] == Some(known),
                    None => call_ensures(run, (&self.population()[i],), scores@[i]),
                },
    {
        let mut scores: Vec<Option<u128>> = Vec::new();
        let mut i: usize = 0;
        while i < self.generation.len()
            invariant
                i <= self.population().len(),
                scores@.len() == i,
                forall|i: int|
                    0 <= i < self.population().len() ==> call_requires(
                        run,
                        (&#[trigger] self.population()[i],),
                    ),
                forall|j: int|
                    0 <= j < i ==> match lookup(self.cache(), self.population()[j]) {
                        Some(known) => #[trigger] scores@[j] == Some(known),
                        None => call_ensures(run, (&self.population()[j],), scores@[j]),
                    },
            decreases self.population().len() - i,
        {
            let score: Option<u128> = match self.cached_fitness(&self.generation[i]) {
                Some(known) => Some(known),
                None => {
                    assert(call_requires(run, (&self.population()[i as int],)));
                    run(&self.generation[i])
                },
            };
            scores.push(score);
            i = i + 1;
        }
        scores
    }

    /// The survivors of `population` under `scores`, for `top_n` places: the
    /// members with a score among the first `m`, the better ones first, equal
    /// ones in the order of the population, and each with its score.
    pub open spec fn survivors(
        population: Seq<Parameters>,
        scores: Seq<Option<u128>>,
        top_n: int,
        kept: Seq<Parameters>,
        known: Map<u64, u128>,
    ) -> bool {
        exists|ranking: Seq<Entry>| #[trigger]
            is_ranking(ranking, valid_entries(scores, least(population.len() as int, scores.len() as int)))
                && (forall|i: int, j: int|
                0 <= i < j < ranking.len() ==> ranking[i].0 <= ranking[j].0)
                && kept == elites(population, ranking, least(top_n, ranking.len() as int))
                && known == elite_scores(population, ranking, least(top_n, ranking.len() as int))
    }

    /// The cull: of the members that have a score, the best `top_n` stay, in
    /// ascending order of their scores, and the cache holds the scores of
    /// these, entered in that order, and nothing else. At least one member must have a score: a
    /// population with none left to rank is at its end.
    pub fn kill_dump(&mut self, scores: &[Option<u128>])
        requires
            old(self).wf(),
            valid_entries(
                scores@,
                least(old(self).population().len() as int, scores@.len() as int),
            ).len() >= 1,
        ensures
            final(self).wf(),
            final(self).same_setup(old(self)),
            final(self).generation_number() == old(self).generation_number(),
            Self::survivors(
                old(self).population(),
                scores@,
                old(self).elite_size() as int,
                final(self).population(),
                final(self).cache(),
            ),
            final(self).population().len() == least(
                old(self).elite_size() as int,
                valid_entries(
                    scores@,
                    least(old(self).population().len() as int, scores@.len() as int),
                ).len() as int,
            ),
    {
        broadcast use vstd::std_specs::hash::group_hash_axioms;

        let m: usize = if self.generation.len() <= scores.len() {
            self.generation.len()
        } else {
            scores.len()
        };
        let ranking: Vec<Entry> = rank(scores, m);
        let k: usize = if self.top_n <= ranking.len() {
            self.top_n
        } else {
            ranking.len()
        };
        let mut kept: Vec<Parameters> = Vec::new();
        let mut known: HashMap<u64, u128> = HashMap::new();
        let mut r: usize = 0;
        while r < k
            invariant
                r <= k <= ranking@.len(),
                m <= self.population().len(),
                *self == *old(self),
                forall|q: int| 0 <= q < ranking@.len() ==> (#[trigger] ranking@[q]).1 < m,
                kept@ == elites(self.population(), ranking@, r as int),
                known@ == elite_scores(self.population(), ranking@, r as int),
            decreases k - r,
        {
            let entry: Entry = ranking[r];
            let member: Parameters = self.generation[entry.1];
            kept.push(member);
            known.insert(Self::hash_params(&member), entry.0);
            r = r + 1;
            assert(kept@ =~= elites(self.population(), ranking@, r as int));
        }
        proof {
            assert forall|i: int| 0 <= i < kept@.len() implies old(self).range().contains(
                #[trigger] kept@[i],
            ) by {
                assert(kept@[i] == old(self).population()[ranking@[i].1 as int]);
            }
        }
        self.eval_cache = known;
        self.generation = kept;
        proof {
            crate::ranking::lemma_ranking_ascending(
                ranking@,
                valid_entries(
                    scores@,
                    least(old(self).population().len() as int, scores@.len() as int),
                ),
            );
        }
        assert(is_ranking(
            ranking@,
            valid_entries(scores@, least(old(self).population().len() as int, scores@.len() as int)),
        ));
    }

    /// Position `w` of `candidates` holds the first of those with the least
    /// cost.
    pub open spec fn is_first_cheapest(&self, candidates: Seq<usize>, w: int) -> bool {
        &&& 0 <= w < candidates.len()
        &&& forall|j: int|
            0 <= j < candidates.len() ==> cost(
                self.cache(),
                self.population()[candidates[w] as int],
            ) <= cost(self.cache(), self.population()[#[trigger] candidates[j] as int])
        &&& forall|j: int|
            0 <= j < w ==> cost(self.cache(), self.population()[candidates[w] as int]) < cost(
                self.cache(),
                self.population()[#[trigger] candidates[j] as int],
            )
    }

    /// The winner of a tournament among the members at the positions
    /// `candidates`: the one with the least known fitness, one without a
    /// known fitness losing to any with one; among equals, the first. None
    /// where there is no candidate.
    pub fn best_of(&self, candidates: &Vec<usize>) -> (winner: Option<usize>)
        requires
            forall|j: int|
                0 <= j < candidates@.len() ==> (#[trigger] candidates@[j]) < self.population().len(),
        ensures
            candidates@.len() == 0 <==> winner is None,
            winner matches Some(member) ==> exists|w: int|
                self.is_first_cheapest(candidates@, w) && member == candidates@[w],
    {
        if candidates.len() == 0 {
            return None;
        }
        let mut w: usize = 0;
        let mut least_known: Option<u128> = self.cached_fitness(&self.generation[candidates[0]]);
        let mut j: usize = 1;
        while j < candidates.len()
            invariant
                1 <= j <= candidates@.len(),
                forall|j: int|
                    0 <= j < candidates@.len() ==> (#[trigger] candidates@[j])
                        < self.population().len(),
                self.is_first_cheapest(candidates@.take(j as int), w as int),
                least_known == lookup(self.cache(), self.population()[candidates@[w as int] as int]),
            decreases candidates@.len() - j,
        {
            let known: Option<u128> = self.cached_fitness(&self.generation[candidates[j]]);
            let cheaper: bool = match (known, least_known) {
                (Some(a), Some(b)) => a < b,
                (Some(_), None) => true,
                (None, _) => false,
            };
            if cheaper {
                w = j;
                least_known = known;
            }
            j = j + 1;
        }
        assert(candidates@.take(candidates@.len() as int) =~= candidates@);
        Some(candidates[w])
    }

    /// A member drawn from the whole population.
    pub fn get_random_one(&self, rng: &mut SmallRng) -> (member: &Parameters)
        requires
            self.population().len() >= 1,
        ensures
            self.population().contains(*member),
    {
        let last: usize = self.generation.len() - 1;
        let place: usize = random_between(rng, 0, last as i128) as usize;
        &self.generation[place]
    }

    /// The number of leading members that tournaments draw from: as many as
    /// survive a cull, or all where there are fewer.
    pub open spec fn pool(&self) -> int {
        least(self.elite_size() as int, self.population().len() as int)
    }

    /// The number of candidates of a tournament: as many as it has places, at
    /// least one, or the whole pool where that is smaller.
    pub open spec fn entrants(&self) -> int {
        least(
            if self.tournament_size() < 1 {
                1
            } else {
                self.tournament_size() as int
            },
            self.pool(),
        )
    }

    /// `candidates` can have been drawn for a tournament, and `parent` is the
    /// member at position `w` of them, which wins it.
    pub open spec fn drew(&self, candidates: Seq<usize>, w: int, parent: Parameters) -> bool {
        &&& distinct(candidates)
        &&& candidates.len() == self.entrants()
        &&& forall|j: int| 0 <= j < candidates.len() ==> candidates[j] < self.pool()
        &&& self.is_first_cheapest(candidates, w)
        &&& parent == self.population()[candidates[w] as int]
    }

    /// `parent` has won a tournament: among different members drawn from the
    /// pool, as many as a tournament has, none has a lower known fitness.
    pub open spec fn won_tournament(&self, parent: Parameters) -> bool {
        exists|candidates: Seq<usize>, w: int| #[trigger] self.drew(candidates, w, parent)
    }

    /// A parent: the winner of a tournament among as many different members
    /// as a tournament has places, drawn from the leading members of the
    /// population, as many as survive a cull; a member drawn from all where
    /// none survives.
    pub fn tournament_select(&self, rng: &mut SmallRng) -> (parent: &Parameters)
        requires
            self.population().len() >= 1,
        ensures
            self.population().contains(*parent),
            self.elite_size() >= 1 ==> self.won_tournament(*parent),
            self.elite_size() >= 1 ==> exists|i: int|
                0 <= i < self.pool() && *parent == #[trigger] self.population()[i],
    {
        let pool: usize = if self.top_n <= self.generation.len() {
            self.top_n
        } else {
            self.generation.len()
        };
        let places: usize = if self.tournament_k < 1 {
            1
        } else {
            self.tournament_k
        };
        let amount: usize = if places <= pool {
            places
        } else {
            pool
        };
        let candidates: Vec<usize> = distinct_indices(rng, pool, amount);
        match self.best_of(&candidates) {
            Some(member) => {
                assert(self.population()[member as int] == self.generation@[member as int]);
                assert(self.won_tournament(self.generation@[member as int])) by {
                    let w: int = choose|w: int|
                        self.is_first_cheapest(candidates@, w) && member == candidates@[w];
                    assert(self.drew(candidates@, w, self.generation@[member as int]));
                }
                &self.generation[member]
            },
            None => self.get_random_one(rng),
        }
    }

    /// The child lies, field by field, within the interval of the blend of
    /// its parents, clamped to the ranges.
    pub open spec fn blended(
        &self,
        first: Parameters,
        second: Parameters,
        alpha: u64,
        child: Parameters,
    ) -> bool {
        &&& within_blend(
            child.ants as int,
            blx_count_low(first.ants as int, second.ants as int, alpha as int),
            blx_count_high(first.ants as int, second.ants as int, alpha as int),
            self.range().ants@.start as int,
            self.range().ants@.end as int,
        )
        &&& within_blend(
            child.initial_pheromone_level as int,
            blx_low(
                first.initial_pheromone_level as int,
                second.initial_pheromone_level as int,
                alpha as int,
            ),
            blx_high(
                first.initial_pheromone_level as int,
                second.initial_pheromone_level as int,
                alpha as int,
            ),
            self.range().initial_pheromone_level@.start as int,
            self.range().initial_pheromone_level@.end as int,
        )
        &&& within_blend(
            child.alpha as int,
            blx_low(first.alpha as int, second.alpha as int, alpha as int),
            blx_high(first.alpha as int, second.alpha as int, alpha as int),
            self.range().alpha@.start as int,
            self.range().alpha@.end as int,
        )
        &&& within_blend(
            child.beta as int,
            blx_low(first.beta as int, second.beta as int, alpha as int),
            blx_high(first.beta as int, second.beta as int, alpha as int),
            self.range().beta@.start as int,
            self.range().beta@.end as int,
        )
        &&& within_blend(
            child.tau0 as int,
            blx_low(first.tau0 as int, second.tau0 as int, alpha as int),
            blx_high(first.tau0 as int, second.tau0 as int, alpha as int),
            self.range().tau0@.start as int,
            self.range().tau0@.end as int,
        )
        &&& within_blend(
            child.p_of_take_best_path as int,
            blx_low(first.p_of_take_best_path as int, second.p_of_take_best_path as int, alpha as int),
            blx_high(first.p_of_take_best_path as int, second.p_of_take_best_path as int, alpha as int),
            self.range().p_of_take_best_path@.start as int,
            self.range().p_of_take_best_path@.end as int,
        )
        &&& within_blend(
            child.iterations as int,
            blx_whole_low(first.iterations as int, second.iterations as int, alpha as int),
            blx_whole_high(first.iterations as int, second.iterations as int, alpha as int),
            self.range().iterations@.start as int,
            self.range().iterations@.end as int,
        )
    }

    /// A child of `first` and `second`: every field is drawn from the interval that
    /// reaches `alpha` times the parents' difference beyond both, and then
    /// clamped to its range.
    pub fn blx_crossover(
        &self,
        first: &Parameters,
        second: &Parameters,
        alpha: u64,
        rng: &mut SmallRng,
    ) -> (child: Parameters)
        requires
            self.range().wf(),
        ensures
            self.range().contains(child),
            self.blended(*first, *second, alpha, child),
    {
        let (a_low, a_high) = blx_count_bounds(first.ants, second.ants, alpha);
        let ants: usize = saturate_usize(random_between(rng, a_low, a_high));
        let (i_low, i_high) = blx_bounds(
            first.initial_pheromone_level,
            second.initial_pheromone_level,
            alpha,
        );
        let initial_pheromone_level: u64 = saturate_u64(random_between(rng, i_low, i_high));
        let (l_low, l_high) = blx_bounds(first.alpha, second.alpha, alpha);
        let child_alpha: u64 = saturate_u64(random_between(rng, l_low, l_high));
        let (b_low, b_high) = blx_bounds(first.beta, second.beta, alpha);
        let beta: u64 = saturate_u64(random_between(rng, b_low, b_high));
        let (t_low, t_high) = blx_bounds(first.tau0, second.tau0, alpha);
        let tau0: u64 = saturate_u64(random_between(rng, t_low, t_high));
        let (p_low, p_high) = blx_bounds(first.p_of_take_best_path, second.p_of_take_best_path, alpha);
        let p_of_take_best_path: u64 = saturate_u64(random_between(rng, p_low, p_high));
        let (n_low, n_high) = blx_whole_bounds(first.iterations, second.iterations, alpha);
        let iterations: usize = saturate_usize(random_between(rng, n_low, n_high));
        let mut child = Parameters {
            ants,
            initial_pheromone_level,
            alpha: child_alpha,
            beta,
            tau0,
            p_of_take_best_path,
            iterations,
        };
        self.parameter_range.clamp(&mut child);
        child
    }

    /// `after` lies, field by field, within reach of a mutation of `before`,
    /// clamped to the ranges; the number of iterations is only clamped.
    pub open spec fn mutated(&self, before: Parameters, after: Parameters) -> bool {
        &&& exists|step: int| #[trigger]
            is_count_step(self.range().ants@.end - self.range().ants@.start, step) && within_blend(
                after.ants as int,
                before.ants - step,
                before.ants + step,
                self.range().ants@.start as int,
                self.range().ants@.end as int,
            )
        &&& within_blend(
            after.initial_pheromone_level as int,
            before.initial_pheromone_level - self.reach(self.range().initial_pheromone_level),
            before.initial_pheromone_level + self.reach(self.range().initial_pheromone_level),
            self.range().initial_pheromone_level@.start as int,
            self.range().initial_pheromone_level@.end as int,
        )
        &&& within_blend(
            after.alpha as int,
            before.alpha - self.reach(self.range().alpha),
            before.alpha + self.reach(self.range().alpha),
            self.range().alpha@.start as int,
            self.range().alpha@.end as int,
        )
        &&& within_blend(
            after.beta as int,
            before.beta - self.reach(self.range().beta),
            before.beta + self.reach(self.range().beta),
            self.range().beta@.start as int,
            self.range().beta@.end as int,
        )
        &&& within_blend(
            after.tau0 as int,
            before.tau0 - self.reach(self.range().tau0),
            before.tau0 + self.reach(self.range().tau0),
            self.range().tau0@.start as int,
            self.range().tau0@.end as int,
        )
        &&& within_blend(
            after.p_of_take_best_path as int,
            before.p_of_take_best_path - self.reach(self.range().p_of_take_best_path),
            before.p_of_take_best_path + self.reach(self.range().p_of_take_best_path),
            self.range().p_of_take_best_path@.start as int,
            self.range().p_of_take_best_path@.end as int,
        )
        &&& after.iterations == clamped(
            before.iterations as int,
            self.range().iterations@.start as int,
            self.range().iterations@.end as int,
        )
    }

    /// The greatest amount that a mutation moves a field with the range
    /// `bounds` by.
    pub open spec fn reach(&self, bounds: std::ops::RangeInclusive<u64>) -> int {
        jitter_spec(self.mutation_sigma(), (bounds@.end - bounds@.start) as u64) as int
    }

    /// `x`, moved by a draw of at most `width` in either direction if a coin
    /// with the mutation rate says so.
    fn perturb(&self, x: u64, width: u64, rng: &mut SmallRng) -> (moved: u64)
        requires
            self.mutation_rate() <= ONE,
        ensures
            clamped(x - width, 0, u64::MAX as int) <= moved <= clamped(
                x + width,
                0,
                u64::MAX as int,
            ),
    {
        if random_ratio(rng, self.mutation_rate as u32, ONE as u32) {
            let shift: i128 = random_between(rng, -(width as i128), width as i128);
            saturate_u64(x as i128 + shift)
        } else {
            x
        }
    }

    /// Mutates `p`: each of `ants` and the real-valued fields is, with the
    /// mutation rate as probability, moved by a random amount, `ants` by at
    /// most the square root of the width of its range, a real-valued field by
    /// at most the mutation width times the width of its range. Then every
    /// field is clamped to its range.
    pub fn mutate(&self, p: &mut Parameters, rng: &mut SmallRng)
        requires
            self.range().wf(),
            self.mutation_rate() <= ONE,
        ensures
            self.range().contains(*final(p)),
            self.mutated(*old(p), *final(p)),
    {
        let (ants_span, ip_span, a_span, b_span, t_span, p_span) = self.parameter_range.spans();
        let step: u64 = count_step(ants_span);
        if random_ratio(rng, self.mutation_rate as u32, ONE as u32) {
            let delta: i128 = random_between(rng, -(step as i128), step as i128);
            let moved: usize = saturate_usize(p.ants as i128 + delta);
            p.ants = if moved < *self.parameter_range.ants.start() {
                *self.parameter_range.ants.start()
            } else {
                moved
            };
        }
        p.initial_pheromone_level = self.perturb(
            p.initial_pheromone_level,
            jitter(self.mutation_sigma, ip_span),
            rng,
        );
        p.alpha = self.perturb(p.alpha, jitter(self.mutation_sigma, a_span), rng);
        p.beta = self.perturb(p.beta, jitter(self.mutation_sigma, b_span), rng);
        p.tau0 = self.perturb(p.tau0, jitter(self.mutation_sigma, t_span), rng);
        p.p_of_take_best_path = self.perturb(
            p.p_of_take_best_path,
            jitter(self.mutation_sigma, p_span),
            rng,
        );
        self.parameter_range.clamp(p);
        assert(is_count_step(self.range().ants@.end - self.range().ants@.start, step as int));
    }

    /// One new member: with probability 0.85 the mutated child of two
    /// parents that each won a tournament, else a member drawn from the
    /// ranges.
    pub fn make_child(&self, rng: &mut SmallRng) -> (child: Parameters)
        requires
            self.wf(),
            self.population().len() >= 1,
        ensures
            self.range().contains(child),
    {
        if random_ratio(rng, 85, 100) {
            let first: Parameters = *self.tournament_select(rng);
            let second: Parameters = *self.tournament_select(rng);
            let mut child: Parameters = self.blx_crossover(&first, &second, self.blx_alpha, rng);
            self.mutate(&mut child, rng);
            child
        } else {
            self.parameter_range.sample(rng)
        }
    }

    /// Breeds the next generation: the members that are there stay as they
    /// are, and new ones fill the population up to its target size. The
    /// parents of every child are taken from the members that were there
    /// before.
    pub fn sex(&mut self, rng: &mut SmallRng)
        requires
            old(self).wf(),
            old(self).generation_number() < usize::MAX,
            old(self).population().len() >= 1 || old(self).target() == 0,
        ensures
            final(self).wf(),
            final(self).same_setup(old(self)),
            final(self).cache() == old(self).cache(),
            final(self).generation_number() == old(self).generation_number() + 1,
            final(self).population().len() == if old(self).population().len() >= old(
                self,
            ).target() {
                old(self).population().len()
            } else {
                old(self).target() as nat
            },
            final(self).population().take(old(self).population().len() as int) == old(
                self,
            ).population(),
    {
        let needed: usize = if self.target_population > self.generation.len() {
            self.target_population - self.generation.len()
        } else {
            0
        };
        let mut children: Vec<Parameters> = Vec::new();
        while children.len() < needed
            invariant
                *self == *old(self),
                self.wf(),
                needed == 0 || self.population().len() >= 1,
                children@.len() <= needed,
                forall|i: int|
                    0 <= i < children@.len() ==> self.range().contains(#[trigger] children@[i]),
            decreases needed - children@.len(),
        {
            let child: Parameters = self.make_child(rng);
            children.push(child);
        }
        let mut i: usize = 0;
        while i < children.len()
            invariant
                i <= children@.len(),
                children@.len() == needed,
                needed + old(self).population().len() <= usize::MAX,
                self.wf(),
                self.same_setup(old(self)),
                self.cache() == old(self).cache(),
                self.generation_number() == old(self).generation_number(),
                self.population() == old(self).population() + children@.take(i as int),
                forall|i: int|
                    0 <= i < children@.len() ==> self.range().contains(#[trigger] children@[i]),
            decreases children@.len() - i,
        {
            let ghost before = self.population();
            self.generation.push(children[i]);
            i = i + 1;
            assert(self.population() =~= old(self).population() + children@.take(i as int));
            assert forall|j: int| 0 <= j < self.population().len() implies self.range().contains(
                #[trigger] self.population()[j],
            ) by {
                if j < before.len() {
                    assert(before[j] == self.population()[j]);
                } else {
                    assert(self.population()[j] == children@[i - 1]);
                }
            }
        }
        assert(self.population().take(old(self).population().len() as int) =~= old(
            self,
        ).population());
        self.generation_idx = self.generation_idx + 1;
    }
}

/// Every field of `p` lies within its range.
pub fn within(range: &ParametersRange, p: &Parameters) -> (b: bool)
    ensures
        b == range.contains(*p),
{
    *range.ants.start() <= p.ants && p.ants <= *range.ants.end()
        && *range.initial_pheromone_level.start() <= p.initial_pheromone_level
        && p.initial_pheromone_level <= *range.initial_pheromone_level.end()
        && *range.alpha.start() <= p.alpha && p.alpha <= *range.alpha.end()
        && *range.beta.start() <= p.beta && p.beta <= *range.beta.end() && *range.tau0.start()
        <= p.tau0 && p.tau0 <= *range.tau0.end() && *range.p_of_take_best_path.start()
        <= p.p_of_take_best_path && p.p_of_take_best_path <= *range.p_of_take_best_path.end()
        && *range.iterations.start() <= p.iterations && p.iterations <= *range.iterations.end()
}

} // verus!
