//! One ant: a walker that builds a tour city by city.

use crate::fixed::{power, power_spec, product, scale, ONE};
use crate::params::Parameters;
use crate::pheromone_trail::{connects, level_of, pulled, triangular, PheromoneTrails};
use crate::random::{distinct, random_between, random_ratio, total_weight, weighted_choice};
use crate::tsp::SymmetricTSP;
use rand::rngs::SmallRng;
use vstd::prelude::*;

verus! {

/// The cities that an ant has not visited yet, in ascending order.
pub type AntSet = Vec<usize>;

/// A city and the score of the step to it.
pub type Scored = (usize, u128);

/// The cities `0..size`, in ascending order.
pub fn get_set_of_not_visited(size: usize) -> (set: AntSet)
    ensures
        set@ == Seq::new(size as nat, |i: int| i as usize),
{
    let mut set: Vec<usize> = Vec::new();
    let mut city: usize = 0;
    while city < size
        invariant
            city <= size,
            set@ == Seq::new(city as nat, |i: int| i as usize),
        decreases size - city,
    {
        set.push(city);
        city = city + 1;
        assert(set@ =~= Seq::new(city as nat, |i: int| i as usize));
    }
    set
}

/// `visited` and `unvisited` together hold every city below `n` once.
pub open spec fn partition(n: int, visited: Seq<usize>, unvisited: Seq<usize>) -> bool {
    &&& (visited + unvisited).len() == n
    &&& forall|i: int| 0 <= i < (visited + unvisited).len() ==> (visited + unvisited)[i] < n
    &&& distinct(visited + unvisited)
    &&& forall|c: usize| c < n ==> #[trigger] (visited + unvisited).contains(c)
    &&& ascending(unvisited)
}

/// Every value of `s` is below the next.
pub open spec fn ascending(s: Seq<usize>) -> bool {
    forall|i: int, j: int| 0 <= i < j < s.len() ==> s[i] < s[j]
}

/// The score of the step from `from` to `to` under `levels`: the distance
/// times the level of the edge raised to `beta`.
pub open spec fn score_between(
    t: &SymmetricTSP,
    beta: u64,
    levels: Seq<Seq<u64>>,
    from: usize,
    to: usize,
) -> u128 {
    product(
        t.distance_spec(from as int, to as int),
        power_spec(level_of(levels, (from, to)), beta) as int,
    ) as u128
}

/// Where `beta` is 0, the score of a step is its distance, whatever the
/// levels.
pub proof fn lemma_score_without_weight(
    t: &SymmetricTSP,
    levels: Seq<Seq<u64>>,
    from: usize,
    to: usize,
)
    requires
        0 <= t.distance_spec(from as int, to as int) <= u128::MAX,
    ensures
        score_between(t, 0, levels, from, to) == t.distance_spec(from as int, to as int),
{
    crate::fixed::lemma_power_zero(level_of(levels, (from, to)));
    let d = t.distance_spec(from as int, to as int);
    assert(product(d, ONE as int) == d) by (nonlinear_arith)
        requires
            product(d, ONE as int) == (d * 1_000_000_000) / 1_000_000_000,
    ;
}

/// Step `k` of `path` is the best-scored one under `levels`: no city that
/// the path has not reached before has a greater score than `path[k]`, and
/// none with an equal score is a greater city.
pub open spec fn best_step(
    t: &SymmetricTSP,
    beta: u64,
    levels: Seq<Seq<u64>>,
    path: Seq<usize>,
    k: int,
) -> bool {
    forall|c: usize|
        c < t.cities() && !path.take(k).contains(c) ==> {
            &&& #[trigger] score_between(t, beta, levels, path[k - 1], c) <= score_between(
                t,
                beta,
                levels,
                path[k - 1],
                path[k],
            )
            &&& c > path[k] ==> score_between(t, beta, levels, path[k - 1], c) < score_between(
                t,
                beta,
                levels,
                path[k - 1],
                path[k],
            )
        }
}

/// Step `k` of `path` is the best-scored one under the levels that some
/// store for the instance holds.
pub open spec fn greedy_step(t: &SymmetricTSP, beta: u64, path: Seq<usize>, k: int) -> bool {
    exists|levels: Seq<Seq<u64>>|
        triangular(levels) && levels.len() == t.cities() && #[trigger] best_step(
            t,
            beta,
            levels,
            path,
            k,
        )
}

/// Every step of `path` was the best-scored one when it was taken. Where
/// `beta` is 0 the scores are the distances, and the path is the one that
/// always goes on to the farthest city left, the greatest among equals.
pub open spec fn greedy(t: &SymmetricTSP, beta: u64, path: Seq<usize>) -> bool {
    forall|k: int| 1 <= k < path.len() ==> #[trigger] greedy_step(t, beta, path, k)
}

/// Where `beta` is 0, a greedy path always goes on to the farthest city
/// left and, among equally far ones, to the greatest: no city `c` that the
/// path has not reached before step `k` is farther than the city of that
/// step, and none that is as far is a greater city.
pub proof fn lemma_greedy_farthest(t: &SymmetricTSP, path: Seq<usize>, k: int, c: usize)
    requires
        greedy(t, 0, path),
        1 <= k < path.len(),
        c < t.cities(),
        !path.take(k).contains(c),
        0 <= t.distance_spec(path[k - 1] as int, c as int) <= u128::MAX,
        0 <= t.distance_spec(path[k - 1] as int, path[k] as int) <= u128::MAX,
    ensures
        t.distance_spec(path[k - 1] as int, c as int) <= t.distance_spec(
            path[k - 1] as int,
            path[k] as int,
        ),
        c > path[k] ==> t.distance_spec(path[k - 1] as int, c as int) < t.distance_spec(
            path[k - 1] as int,
            path[k] as int,
        ),
{
    assert(greedy_step(t, 0, path, k));
    let levels = choose|levels: Seq<Seq<u64>>|
        triangular(levels) && levels.len() == t.cities() && #[trigger] best_step(
            t,
            0,
            levels,
            path,
            k,
        );
    lemma_score_without_weight(t, levels, path[k - 1], c);
    lemma_score_without_weight(t, levels, path[k - 1], path[k]);
}

/// A greedy path with one more best-scored step is greedy.
pub proof fn lemma_greedy_push(
    t: &SymmetricTSP,
    beta: u64,
    levels: Seq<Seq<u64>>,
    path: Seq<usize>,
    next: usize,
)
    requires
        greedy(t, beta, path),
        triangular(levels),
        levels.len() == t.cities(),
        best_step(t, beta, levels, path.push(next), path.len() as int),
    ensures
        greedy(t, beta, path.push(next)),
{
    let longer = path.push(next);
    assert forall|k: int| 1 <= k < longer.len() implies #[trigger] greedy_step(
        t,
        beta,
        longer,
        k,
    ) by {
        if k < path.len() {
            assert(greedy_step(t, beta, path, k));
            let known = choose|known: Seq<Seq<u64>>|
                triangular(known) && known.len() == t.cities() && #[trigger] best_step(
                    t,
                    beta,
                    known,
                    path,
                    k,
                );
            assert(longer.take(k) =~= path.take(k));
            assert(longer[k - 1] == path[k - 1] && longer[k] == path[k]);
            assert(best_step(t, beta, known, longer, k));
        } else {
            assert(best_step(t, beta, levels, longer, k));
        }
    }
}

/// `path` holds every city below `n` once.
pub open spec fn hamiltonian(n: int, path: Seq<usize>) -> bool {
    &&& path.len() == n
    &&& forall|i: int| 0 <= i < path.len() ==> path[i] < n
    &&& distinct(path)
}

/// Position `k` holds the last of the greatest scores.
pub open spec fn is_last_maximum(scores: Seq<Scored>, k: int) -> bool {
    &&& 0 <= k < scores.len()
    &&& forall|j: int| 0 <= j < scores.len() ==> scores[j].1 <= scores[k].1
    &&& forall|j: int| k < j < scores.len() ==> scores[j].1 < scores[k].1
}

/// The position of the last of the greatest scores; none where there is no
/// score.
pub fn last_maximum(scores: &Vec<Scored>) -> (r: Option<usize>)
    ensures
        scores@.len() == 0 <==> r is None,
        r matches Some(k) ==> is_last_maximum(scores@, k as int),
{
    if scores.len() == 0 {
        return None;
    }
    let mut best: usize = 0;
    let mut i: usize = 1;
    while i < scores.len()
        invariant
            1 <= i <= scores@.len(),
            is_last_maximum(scores@.take(i as int), best as int),
        decreases scores@.len() - i,
    {
        if scores[i].1 >= scores[best].1 {
            best = i;
        }
        i = i + 1;
    }
    assert(scores@.take(scores@.len() as int) =~= scores@);
    Some(best)
}

/// A tour and its length.
#[derive(Debug)]
pub struct AntPath {
    /// The cities in the order of the visits.
    pub path: Vec<usize>,
    /// The length of the round trip along `path`.
    pub lenght: u128,
}

/// The length of a way of `steps` steps, with one more step, fits a `u128`.
pub proof fn lemma_length_fits(steps: int)
    requires
        1 <= steps <= usize::MAX,
    ensures
        (steps - 1) * u64::MAX + u64::MAX <= u128::MAX,
{
    assert((steps - 1) * u64::MAX + u64::MAX <= 0xffff_ffff_ffff_ffff * 0xffff_ffff_ffff_ffff)
        by (nonlinear_arith)
        requires
            1 <= steps <= 0xffff_ffff_ffff_ffff,
    ;
}

/// One ant on its way through the cities of an instance.
pub struct Ant<'a, 'b> {
    params: &'b Parameters,
    tsp: &'a SymmetricTSP,
    current_coordinate: usize,
    /// The cities visited so far, in the order of the visits.
    pub path_arr: Vec<usize>,
    not_visited: AntSet,
    path_lenght: u128,
}

impl<'a, 'b> Ant<'a, 'b> {
    /// The parameters that the ant decides by.
    pub closed spec fn parameters(&self) -> Parameters {
        *self.params
    }

    /// The instance that the ant walks.
    pub closed spec fn instance(&self) -> SymmetricTSP {
        *self.tsp
    }

    /// The cities visited so far, in the order of the visits.
    pub closed spec fn path(&self) -> Seq<usize> {
        self.path_arr@
    }

    /// The city where the ant stands.
    pub closed spec fn position(&self) -> usize {
        self.current_coordinate
    }

    /// The cities still to visit, in ascending order.
    pub closed spec fn unvisited(&self) -> Seq<usize> {
        self.not_visited@
    }

    /// The length of the way walked so far.
    pub closed spec fn travelled(&self) -> u128 {
        self.path_lenght
    }

    /// The ant stands at the end of its path, and the path and the cities
    /// still to visit hold every city once.
    pub open spec fn wf(&self) -> bool {
        &&& self.parameters().wf()
        &&& self.path().len() >= 1
        &&& self.position() == self.path().last()
        &&& partition(self.instance().cities(), self.path(), self.unvisited())
        &&& self.travelled() == self.instance().path_length(self.path())
        &&& self.travelled() <= (self.path().len() - 1) * u64::MAX
    }

    /// The walk is complete: the path holds every city once.
    pub open spec fn finished(&self) -> bool {
        self.unvisited().len() == 0
    }

    /// The score of the step from where the ant stands to `next`: the
    /// distance times the level of the edge raised to `beta`.
    pub open spec fn step_score(&self, levels: Seq<Seq<u64>>, next: usize) -> int {
        product(
            self.instance().distance_spec(self.position() as int, next as int),
            power_spec(level_of(levels, (self.position(), next)), self.parameters().beta) as int,
        )
    }

    /// Every city still to visit with the score of the step to it.
    pub open spec fn scores(&self, levels: Seq<Seq<u64>>) -> Seq<Scored> {
        Seq::new(
            self.unvisited().len(),
            |i: int| (self.unvisited()[i], self.step_score(levels, self.unvisited()[i]) as u128),
        )
    }

    /// The store serves the instance that the ant walks.
    pub open spec fn fits(&self, pt: &PheromoneTrails) -> bool {
        &&& pt.wf()
        &&& pt.nodes() == self.instance().cities()
        &&& pt.parameters().alpha <= ONE
    }

    /// A wf ant that has every city behind it has walked a Hamiltonian path.
    pub proof fn lemma_finished_hamiltonian(&self)
        requires
            self.wf(),
            self.finished(),
        ensures
            hamiltonian(self.instance().cities(), self.path()),
    {
        assert(self.path() + self.unvisited() =~= self.path());
    }

    /// A city still to visit is joined to the ant's position by an edge.
    pub proof fn lemma_unvisited_connects(&self, k: int)
        requires
            self.wf(),
            0 <= k < self.unvisited().len(),
        ensures
            connects(self.instance().cities(), (self.position(), self.unvisited()[k])),
    {
        let all = self.path() + self.unvisited();
        let last = self.path().len() - 1;
        assert(all[last] == self.position());
        assert(all[self.path().len() + k] == self.unvisited()[k]);
    }

    /// The cities visited so far, in the order of the visits.
    pub fn visited(&self) -> (path: &Vec<usize>)
        ensures
            path@ == self.path(),
    {
        &self.path_arr
    }

    /// The length of the round trip: the way walked so far and the way back to
    /// the first city.
    pub fn get_path_lenght(&self) -> (lenght: u128)
        requires
            self.wf(),
        ensures
            lenght == self.instance().tour_length(self.path()),
    {
        proof {
            let all = self.path() + self.unvisited();
            assert(all[0] == self.path()[0]);
            assert(all[self.path().len() - 1] == self.position());
            lemma_length_fits(self.path_arr.len() as int);
        }
        let back: u64 = self.tsp.distance_between(self.current_coordinate, self.path_arr[0]);
        self.path_lenght + back as u128
    }

    /// The tour walked so far, with the length of its round trip.
    pub fn to_path(&self) -> (tour: AntPath)
        requires
            self.wf(),
        ensures
            tour.path@ == self.path(),
            tour.lenght == self.instance().tour_length(self.path()),
    {
        AntPath { path: self.path_arr.clone(), lenght: self.get_path_lenght() }
    }

    /// An ant that stands at `start` and has every other city still to visit.
    pub fn with_start(tsp: &'a SymmetricTSP, params: &'b Parameters, start: usize) -> (ant: Self)
        requires
            params.wf(),
            start < tsp.cities(),
        ensures
            ant.wf(),
            ant.instance() == *tsp,
            ant.parameters() == *params,
            ant.path() == seq![start],
            ant.unvisited() == Seq::new(tsp.cities() as nat, |i: int| i as usize).remove(
                start as int,
            ),
    {
        let mut not_visited: Vec<usize> = get_set_of_not_visited(tsp.coordinates.len());
        let ghost all = not_visited@;
        not_visited.remove(start);
        let mut path_arr: Vec<usize> = Vec::with_capacity(tsp.coordinates.len());
        path_arr.push(start);
        let ant = Self {
            params,
            tsp,
            current_coordinate: start,
            path_arr,
            not_visited,
            path_lenght: 0,
        };
        proof {
            let joined = ant.path() + ant.unvisited();
            assert(ant.path() =~= seq![start]);
            assert(joined.len() == tsp.cities());
            assert forall|i: int| 0 <= i < joined.len() implies joined[i] < tsp.cities() && (
            joined[i] == if i == 0 {
                start as int
            } else if i <= start {
                i - 1
            } else {
                i
            }) by {
                if i > 0 {
                    assert(joined[i] == ant.unvisited()[i - 1]);
                }
            }
            assert(distinct(joined));
            assert forall|c: usize| c < tsp.cities() implies #[trigger] joined.contains(c) by {
                let i: int = if c == start {
                    0
                } else if c < start {
                    c + 1
                } else {
                    c as int
                };
                assert(joined[i] == c);
            }
            assert forall|i: int, j: int| 0 <= i < j < ant.unvisited().len() implies ant.unvisited()[i]
                < ant.unvisited()[j] by {
                assert(joined[i + 1] == ant.unvisited()[i]);
                assert(joined[j + 1] == ant.unvisited()[j]);
            }
        }
        ant
    }

    /// An ant that stands at a city drawn from all of them.
    pub fn with_random_start(
        tsp: &'a SymmetricTSP,
        params: &'b Parameters,
        rng: &mut SmallRng,
    ) -> (ant: Self)
        requires
            params.wf(),
            tsp.cities() >= 1,
        ensures
            ant.wf(),
            ant.instance() == *tsp,
            ant.parameters() == *params,
            ant.path().len() == 1,
            ant.path()[0] < tsp.cities(),
            ant.unvisited() == Seq::new(tsp.cities() as nat, |i: int| i as usize).remove(
                ant.path()[0] as int,
            ),
    {
        let last: usize = tsp.coordinates.len() - 1;
        let start: usize = random_between(rng, 0, last as i128) as usize;
        Self::with_start(tsp, params, start)
    }

    /// The score of the step to `next_coord`.
    pub fn get_step_score(&self, next_coord: usize, pt: &PheromoneTrails) -> (score: u128)
        requires
            self.wf(),
            self.fits(pt),
            connects(self.instance().cities(), (self.position(), next_coord)),
        ensures
            score == self.step_score(pt@, next_coord),
    {
        let level: u64 = pt.get((self.current_coordinate, next_coord));
        let weight: u64 = power(level, self.params.beta);
        scale(self.tsp.distance_between(self.current_coordinate, next_coord), weight)
    }

    /// Every city still to visit with the score of the step to it, in
    /// ascending order of the cities.
    pub fn get_all_path_scores(&self, pt: &PheromoneTrails) -> (scores: Vec<Scored>)
        requires
            self.wf(),
            self.fits(pt),
        ensures
            scores@ == self.scores(pt@),
    {
        let mut scores: Vec<Scored> = Vec::new();
        let mut i: usize = 0;
        while i < self.not_visited.len()
            invariant
                self.wf(),
                self.fits(pt),
                i <= self.unvisited().len(),
                scores@ == self.scores(pt@).take(i as int),
            decreases self.unvisited().len() - i,
        {
            proof {
                self.lemma_unvisited_connects(i as int);
            }
            let city: usize = self.not_visited[i];
            let score: u128 = self.get_step_score(city, pt);
            scores.push((city, score));
            i = i + 1;
            assert(scores@ =~= self.scores(pt@).take(i as int));
        }
        assert(self.scores(pt@).take(i as int) =~= self.scores(pt@));
        scores
    }

    /// The city with the greatest score; among equals, the one that comes
    /// last in ascending order. None where no city is left.
    pub fn choose_the_best(&self, pt: &PheromoneTrails) -> (next: Option<usize>)
        requires
            self.wf(),
            self.fits(pt),
        ensures
            self.finished() <==> next is None,
            next matches Some(city) ==> exists|k: int|
                is_last_maximum(self.scores(pt@), k) && city == self.unvisited()[k],
    {
        let scores: Vec<Scored> = self.get_all_path_scores(pt);
        match last_maximum(&scores) {
            Some(k) => {
                assert(is_last_maximum(self.scores(pt@), k as int));
                Some(scores[k].0)
            },
            None => None,
        }
    }

    /// A city drawn with the scores as weights: one with a score above 0.
    /// Where no score is above 0, or their sum does not fit, a city drawn from
    /// all the cities left.
    pub fn choose_probabilistic(&self, pt: &PheromoneTrails, rng: &mut SmallRng) -> (next: usize)
        requires
            self.wf(),
            self.fits(pt),
            !self.finished(),
        ensures
            self.unvisited().contains(next),
            0 < total_weight(self.scores(pt@)) <= u128::MAX ==> exists|k: int|
                0 <= k < self.unvisited().len() && next == self.unvisited()[k] && (
                #[trigger] self.scores(pt@)[k]).1 > 0,
    {
        let scores: Vec<Scored> = self.get_all_path_scores(pt);
        match weighted_choice(rng, &scores) {
            Some(city) => {
                let ghost i: int = choose|i: int|
                    0 <= i < scores@.len() && #[trigger] scores@[i].0 == city && scores@[i].1 > 0;
                assert(self.unvisited()[i] == city);
                assert(self.scores(pt@)[i].1 > 0);
                city
            },
            None => {
                let place: usize = random_between(rng, 0, (scores.len() - 1) as i128) as usize;
                assert(self.unvisited()[place as int] == scores@[place as int].0);
                scores[place].0
            },
        }
    }

    /// With the probability that the parameters give, the best-scored city;
    /// otherwise a city drawn by score. None where no city is left.
    pub fn choose_next_coord(&self, pt: &PheromoneTrails, rng: &mut SmallRng) -> (next: Option<
        usize,
    >)
        requires
            self.wf(),
            self.fits(pt),
        ensures
            self.finished() <==> next is None,
            next matches Some(city) ==> self.unvisited().contains(city),
            next matches Some(city) ==> self.parameters().p_of_take_best_path == ONE ==> exists|
                k: int,
            |
                is_last_maximum(self.scores(pt@), k) && city == self.unvisited()[k],
    {
        if self.not_visited.len() == 0 {
            return None;
        }
        if random_ratio(rng, self.params.p_of_take_best_path as u32, ONE as u32) {
            self.choose_the_best(pt)
        } else {
            Some(self.choose_probabilistic(pt, rng))
        }
    }

    /// The ant as it stands after the step to the city at position `k` of
    /// those still to visit.
    pub open spec fn stepped(&self, before: &Self, k: int) -> bool {
        &&& self.instance() == before.instance()
        &&& self.parameters() == before.parameters()
        &&& self.position() == before.unvisited()[k]
        &&& self.path() == before.path().push(before.unvisited()[k])
        &&& self.unvisited() == before.unvisited().remove(k)
        &&& self.travelled() == before.travelled() + before.instance().distance_spec(
            before.position() as int,
            before.unvisited()[k] as int,
        )
    }

    /// Takes one step: chooses the next city, pulls the level of the edge
    /// crossed towards `tau0`, and moves there. Fails only where no city is
    /// left, and then changes nothing.
    pub fn move_ant(&mut self, pheromone_trail: &mut PheromoneTrails, rng: &mut SmallRng) -> (r:
        Result<(), &'static str>)
        requires
            old(self).wf(),
            old(self).fits(old(pheromone_trail)),
        ensures
            old(self).finished() <==> r is Err,
            r is Err ==> *final(self) == *old(self),
            r is Err ==> final(pheromone_trail)@ == old(pheromone_trail)@,
            r is Ok ==> exists|k: int|
                0 <= k < old(self).unvisited().len() && final(self).stepped(old(self), k) && (old(
                    self,
                ).parameters().p_of_take_best_path == ONE ==> is_last_maximum(
                    old(self).scores(old(pheromone_trail)@),
                    k,
                )) && final(pheromone_trail)@ == pulled(
                    old(pheromone_trail)@,
                    (old(self).position(), old(self).unvisited()[k]),
                    old(pheromone_trail).parameters().tau0,
                    old(pheromone_trail).parameters().alpha,
                ),
            r is Ok && old(self).parameters().p_of_take_best_path == ONE ==> best_step(
                &old(self).instance(),
                old(self).parameters().beta,
                old(pheromone_trail)@,
                final(self).path(),
                old(self).path().len() as int,
            ),
            final(self).wf(),
            final(self).fits(final(pheromone_trail)),
            final(pheromone_trail).parameters() == old(pheromone_trail).parameters(),
    {
        let next_coord: usize = match self.choose_next_coord(pheromone_trail, rng) {
            Some(city) => city,
            None => {
                return Err("no more coords");
            },
        };
        let ghost k: int = old(self).unvisited().index_of(next_coord);
        proof {
            old(self).lemma_unvisited_connects(k);
            if old(self).parameters().p_of_take_best_path == ONE {
                let best: int = choose|b: int|
                    is_last_maximum(old(self).scores(old(pheromone_trail)@), b) && next_coord
                        == old(self).unvisited()[b];
                let all = old(self).path() + old(self).unvisited();
                let offset = old(self).path().len();
                assert(all[offset + k] == next_coord);
                assert(all[offset + best] == next_coord);
                assert(best == k);
            }
        }
        pheromone_trail.local_update(self.current_coordinate, next_coord);
        let step: u64 = self.tsp.distance_between(self.current_coordinate, next_coord);
        let place: usize = find(&self.not_visited, next_coord);
        proof {
            let all = old(self).path() + old(self).unvisited();
            let offset = old(self).path().len();
            assert(all[offset + k] == next_coord);
            assert(all[offset + place] == next_coord);
            assert(place == k);
        }
        proof {
            lemma_length_fits(self.path_arr.len() as int);
        }
        self.not_visited.remove(place);
        self.path_lenght = self.path_lenght + step as u128;
        self.current_coordinate = next_coord;
        self.path_arr.push(next_coord);
        proof {
            let before = old(self).path() + old(self).unvisited();
            let after = self.path() + self.unvisited();
            let offset = old(self).path().len() as int;
            assert(self.path().drop_last() =~= old(self).path());
            assert(after.len() == before.len());
            assert forall|i: int| 0 <= i < after.len() implies after[i] == before[if i < offset {
                i
            } else if i == offset {
                offset + k
            } else if i <= offset + k {
                i - 1
            } else {
                i
            }] by {}
            assert(distinct(after));
            assert forall|c: usize| c < self.instance().cities() implies #[trigger] after.contains(
                c,
            ) by {
                assert(before.contains(c));
                let j: int = before.index_of(c);
                let i: int = if j < offset {
                    j
                } else if j == offset + k {
                    offset
                } else if j < offset + k {
                    j + 1
                } else {
                    j
                };
                assert(after[i] == c);
            }
            assert forall|i: int, j: int| 0 <= i < j < self.unvisited().len() implies self.unvisited()[i]
                < self.unvisited()[j] by {
                let from: int = if i < k {
                    i
                } else {
                    i + 1
                };
                let to: int = if j < k {
                    j
                } else {
                    j + 1
                };
                assert(self.unvisited()[i] == old(self).unvisited()[from]);
                assert(self.unvisited()[j] == old(self).unvisited()[to]);
            }
            if old(self).parameters().p_of_take_best_path == ONE {
                let t = old(self).instance();
                let beta = old(self).parameters().beta;
                let levels = old(pheromone_trail)@;
                let scores = old(self).scores(levels);
                assert(self.path().take(offset) =~= old(self).path());
                assert forall|c: usize|
                    c < t.cities() && !self.path().take(offset).contains(c) implies (
                #[trigger] score_between(&t, beta, levels, self.path()[offset - 1], c)
                    <= score_between(&t, beta, levels, self.path()[offset - 1], self.path()[offset]))
                    && (c > self.path()[offset] ==> score_between(
                    &t,
                    beta,
                    levels,
                    self.path()[offset - 1],
                    c,
                ) < score_between(&t, beta, levels, self.path()[offset - 1], self.path()[offset])) by {
                    assert(before.contains(c));
                    let j: int = before.index_of(c);
                    if j < offset {
                        assert(old(self).path()[j] == c);
                        assert(old(self).path().contains(c));
                    }
                    let i: int = j - offset;
                    assert(old(self).unvisited()[i] == c);
                    assert(scores[i].1 == score_between(&t, beta, levels, old(self).position(), c));
                    assert(scores[k].1 == score_between(
                        &t,
                        beta,
                        levels,
                        old(self).position(),
                        next_coord,
                    ));
                    if c > next_coord && i <= k {
                        if i < k {
                            assert(old(self).unvisited()[i] < old(self).unvisited()[k]);
                        }
                    }
                }
            }
            let longer: int = self.path().len() as int;
            let shorter: int = old(self).path().len() as int;
            assert((longer - 1) * u64::MAX == (shorter - 1) * u64::MAX + u64::MAX)
                by (nonlinear_arith)
                requires
                    longer - 1 == shorter,
            ;
            assert(self.stepped(old(self), k));
        }
        Ok(())
    }
}

/// The position of `city` in `set`, which holds it.
fn find(set: &Vec<usize>, city: usize) -> (place: usize)
    requires
        set@.contains(city),
    ensures
        place < set@.len(),
        set@[place as int] == city,
{
    let mut place: usize = 0;
    while set[place] != city
        invariant
            place < set.len(),
            set@.contains(city),
            forall|i: int| 0 <= i < place ==> set@[i] != city,
        decreases set@.len() - place,
    {
        place = place + 1;
        if place == set.len() {
            proof {
                let w: int = set@.index_of(city);
                assert(false);
            }
        }
    }
    place
}

} // verus!
