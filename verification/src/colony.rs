//! One run of the colony: iterations of ants that walk, the best of which
//! reinforces the pheromone levels.

use crate::ant::{greedy, hamiltonian, lemma_greedy_push, Ant, AntPath};
use crate::params::Parameters;
use crate::fixed::{recip_spec, ONE};
use crate::pheromone_trail::{reinforced, triangular, walkable, PheromoneTrails};
use crate::tsp::SymmetricTSP;
use rand::rngs::SmallRng;
use vstd::prelude::*;

verus! {

/// `tour` visits every city of `t` once, and its length is that of the round
/// trip.
pub open spec fn is_tour(t: &SymmetricTSP, tour: &AntPath) -> bool {
    &&& hamiltonian(t.cities(), tour.path@)
    &&& tour.lenght == t.tour_length(tour.path@)
}

/// `tour` is a tour of `t` that ants with `parameters` can have walked:
/// where they always take the best-scored step, every step of it was the
/// best-scored one when it was taken.
pub open spec fn walked(t: &SymmetricTSP, parameters: &Parameters, tour: &AntPath) -> bool {
    &&& is_tour(t, tour)
    &&& parameters.p_of_take_best_path == ONE ==> greedy(t, parameters.beta, tour.path@)
}

/// A path without a repeated city has an edge between every two neighbours.
pub proof fn lemma_hamiltonian_walkable(n: int, path: Seq<usize>)
    requires
        hamiltonian(n, path),
    ensures
        walkable(n, path),
{
}

/// The best tour of a run so far, and for how many iterations in a row none
/// was better.
pub struct Progress {
    /// The shortest tour found so far.
    pub best: Option<AntPath>,
    /// The number of iterations since the best tour was found.
    pub with_out_improvement: usize,
}

impl Progress {
    /// Nothing found yet.
    pub fn new() -> (p: Self)
        ensures
            p.best is None,
            p.with_out_improvement == 0,
    {
        Progress { best: None, with_out_improvement: 0 }
    }

    /// Takes note of the best tour of one more iteration: a tour shorter than
    /// the best so far replaces it and ends the count of iterations without
    /// improvement, as does the first tour; any other adds one to the count.
    pub fn record(&mut self, found: AntPath)
        requires
            old(self).with_out_improvement < usize::MAX,
        ensures
            match old(self).best {
                None => final(self).best == Some(found) && final(self).with_out_improvement == 0,
                Some(prev) => if prev.lenght > found.lenght {
                    final(self).best == Some(found) && final(self).with_out_improvement == 0
                } else {
                    final(self).best == old(self).best && final(self).with_out_improvement == old(
                        self,
                    ).with_out_improvement + 1
                },
            },
    {
        let improved: bool = match &self.best {
            None => true,
            Some(prev) => prev.lenght > found.lenght,
        };
        if improved {
            self.best = Some(found);
            self.with_out_improvement = 0;
        } else {
            self.with_out_improvement = self.with_out_improvement + 1;
        }
    }

    /// The run has gone more than `limit` iterations without improvement.
    pub fn stalled(&self, limit: usize) -> (b: bool)
        ensures
            b == (self.with_out_improvement > limit),
    {
        self.with_out_improvement > limit
    }
}

/// Every ant is sound, walks `t` by `parameters`, and has `steps` cities
/// behind it.
pub open spec fn marching(
    ants: Seq<Ant>,
    t: &SymmetricTSP,
    parameters: &Parameters,
    steps: int,
) -> bool {
    forall|i: int|
        0 <= i < ants.len() ==> {
            &&& (#[trigger] ants[i]).wf()
            &&& ants[i].instance() == *t
            &&& ants[i].parameters() == *parameters
            &&& ants[i].path().len() == steps
            &&& parameters.p_of_take_best_path == ONE ==> greedy(
                t,
                parameters.beta,
                ants[i].path(),
            )
        }
}

/// Position `w` holds the first of the ants with the shortest round trip.
pub open spec fn is_first_shortest(ants: Seq<Ant>, w: int) -> bool {
    &&& 0 <= w < ants.len()
    &&& forall|j: int|
        0 <= j < ants.len() ==> ants[w].instance().tour_length(ants[w].path()) <= (
        #[trigger] ants[j]).instance().tour_length(ants[j].path())
    &&& forall|j: int|
        0 <= j < w ==> ants[w].instance().tour_length(ants[w].path()) < (
        #[trigger] ants[j]).instance().tour_length(ants[j].path())
}

/// The position of the ant with the shortest round trip; among equals, the
/// first.
pub fn shortest(ants: &Vec<Ant>) -> (w: usize)
    requires
        ants@.len() >= 1,
        forall|i: int| 0 <= i < ants@.len() ==> (#[trigger] ants@[i]).wf(),
    ensures
        is_first_shortest(ants@, w as int),
{
    let mut w: usize = 0;
    let mut least: u128 = ants[0].get_path_lenght();
    let mut i: usize = 1;
    while i < ants.len()
        invariant
            1 <= i <= ants@.len(),
            forall|i: int| 0 <= i < ants@.len() ==> (#[trigger] ants@[i]).wf(),
            is_first_shortest(ants@.take(i as int), w as int),
            least == ants@[w as int].instance().tour_length(ants@[w as int].path()),
        decreases ants@.len() - i,
    {
        let lenght: u128 = ants[i].get_path_lenght();
        if lenght < least {
            w = i;
            least = lenght;
        }
        i = i + 1;
    }
    assert(ants@.take(ants@.len() as int) =~= ants@);
    w
}

/// One iteration: as many ants as the parameters say start at random cities
/// and walk a full tour each, taking their steps in turns; the shortest tour
/// reinforces the pheromone levels and is returned.
pub fn iterate(
    parameters: &Parameters,
    t: &SymmetricTSP,
    pt: &mut PheromoneTrails,
    rng: &mut SmallRng,
) -> (best: AntPath)
    requires
        parameters.wf(),
        t.cities() >= 1,
        old(pt).wf(),
        old(pt).nodes() == t.cities(),
        old(pt).parameters() == *parameters,
    ensures
        walked(t, parameters, &best),
        final(pt).wf(),
        final(pt).nodes() == t.cities(),
        final(pt).parameters() == *parameters,
        exists|before: Seq<Seq<u64>>|
            triangular(before) && before.len() == t.cities() && final(pt)@ == #[trigger] reinforced(
                before,
                best.path@,
                recip_spec(best.lenght as int) as u64,
                parameters.alpha,
            ),
{
    let mut ants: Vec<Ant> = Vec::new();
    let mut a: usize = 0;
    while a < parameters.ants
        invariant
            a <= parameters.ants,
            ants@.len() == a,
            parameters.wf(),
            t.cities() >= 1,
            marching(ants@, t, parameters, 1),
        decreases parameters.ants - a,
    {
        let ant: Ant = Ant::with_random_start(t, parameters, rng);
        ants.push(ant);
        a = a + 1;
    }
    let mut step: usize = 1;
    while step < t.coordinates.len()
        invariant
            1 <= step <= t.cities(),
            ants@.len() == parameters.ants,
            parameters.wf(),
            marching(ants@, t, parameters, step as int),
            pt.wf(),
            pt.nodes() == t.cities(),
            pt.parameters() == *parameters,
        decreases t.cities() - step,
    {
        let mut i: usize = 0;
        while i < ants.len()
            invariant
                1 <= step < t.cities(),
                i <= ants@.len(),
                ants@.len() == parameters.ants,
                parameters.wf(),
                forall|j: int|
                    0 <= j < ants@.len() ==> {
                        &&& (#[trigger] ants@[j]).wf()
                        &&& ants@[j].instance() == *t
                        &&& ants@[j].parameters() == *parameters
                        &&& ants@[j].path().len() == if j < i {
                            step + 1
                        } else {
                            step as int
                        }
                        &&& parameters.p_of_take_best_path == ONE ==> greedy(
                            t,
                            parameters.beta,
                            ants@[j].path(),
                        )
                    },
                pt.wf(),
                pt.nodes() == t.cities(),
                pt.parameters() == *parameters,
            decreases ants@.len() - i,
        {
            proof {
                let ant = ants@[i as int];
                assert((ant.path() + ant.unvisited()).len() == t.cities());
            }
            let ghost walker = ants@[i as int];
            let ghost levels = pt@;
            let _moved = ants[i].move_ant(pt, rng);
            proof {
                if parameters.p_of_take_best_path == ONE {
                    let next = ants@[i as int].path().last();
                    assert(ants@[i as int].path() =~= walker.path().push(next));
                    lemma_greedy_push(t, parameters.beta, levels, walker.path(), next);
                }
            }
            i = i + 1;
        }
        step = step + 1;
    }
    let w: usize = shortest(&ants);
    let best: AntPath = ants[w].to_path();
    proof {
        let ant = ants@[w as int];
        assert((ant.path() + ant.unvisited()).len() == t.cities());
        ant.lemma_finished_hamiltonian();
        lemma_hamiltonian_walkable(t.cities(), best.path@);
    }
    let ghost before = pt@;
    pt.global_update(best.path.as_slice(), best.lenght);
    assert(pt@ == reinforced(
        before,
        best.path@,
        recip_spec(best.lenght as int) as u64,
        parameters.alpha,
    ));
    best
}

/// One run of the colony on `t`: up to `parameters.iterations` iterations on
/// fresh pheromone levels, ended early once more than
/// `limit_without_improvement` iterations in a row have not improved on the
/// best tour. Returns the best tour of all iterations; none where there is no
/// iteration.
pub fn run(
    parameters: &Parameters,
    t: &SymmetricTSP,
    limit_without_improvement: usize,
    rng: &mut SmallRng,
) -> (best: Option<AntPath>)
    requires
        parameters.wf(),
        t.cities() >= 1,
    ensures
        parameters.iterations == 0 <==> best is None,
        best matches Some(tour) ==> walked(t, parameters, &tour),
{
    let mut pt: PheromoneTrails = PheromoneTrails::new(parameters, t.coordinates.len());
    let mut progress: Progress = Progress::new();
    let mut iteration: usize = 0;
    while iteration < parameters.iterations
        invariant
            iteration <= parameters.iterations,
            parameters.wf(),
            t.cities() >= 1,
            pt.wf(),
            pt.nodes() == t.cities(),
            pt.parameters() == *parameters,
            progress.with_out_improvement <= iteration,
            iteration == 0 <==> progress.best is None,
            progress.best matches Some(tour) ==> walked(t, parameters, &tour),
        ensures
            parameters.iterations == 0 <==> progress.best is None,
        decreases parameters.iterations - iteration,
    {
        let found: AntPath = iterate(parameters, t, &mut pt, rng);
        progress.record(found);
        iteration = iteration + 1;
        if progress.stalled(limit_without_improvement) {
            break ;
        }
    }
    progress.best
}

} // verus!
