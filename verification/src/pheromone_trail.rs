//! The pheromone levels of the edges between cities.

use crate::fixed::{blend, blend_spec, lemma_blend_between, recip, recip_spec, ONE};
use crate::params::Parameters;
use std::collections::HashMap;
use vstd::prelude::*;

verus! {

/// An undirected edge, named by the positions of its two cities in either
/// order.
pub type Edge = (usize, usize);

/// The edge with its smaller end first.
pub open spec fn canonical(edge: Edge) -> Edge {
    if edge.0 > edge.1 {
        (edge.1, edge.0)
    } else {
        edge
    }
}

/// Row `j` of the table holds one level for every city before `j`.
pub open spec fn triangular(levels: Seq<Seq<u64>>) -> bool {
    forall|j: int| 0 <= j < levels.len() ==> (#[trigger] levels[j]).len() == j
}

/// The edge joins two different cities among the first `nodes`.
pub open spec fn connects(nodes: int, edge: Edge) -> bool {
    edge.0 != edge.1 && edge.0 < nodes && edge.1 < nodes
}

/// Every two neighbours in `path` are joined by an edge.
pub open spec fn walkable(nodes: int, path: Seq<usize>) -> bool {
    forall|k: int| 0 < k < path.len() ==> connects(nodes, (path[k - 1], #[trigger] path[k]))
}

/// The level of `edge` in the table.
pub open spec fn level_of(levels: Seq<Seq<u64>>, edge: Edge) -> u64 {
    levels[canonical(edge).1 as int][canonical(edge).0 as int]
}

/// The table with the level of `edge` replaced by `level`.
pub open spec fn with_level(levels: Seq<Seq<u64>>, edge: Edge, level: u64) -> Seq<Seq<u64>> {
    levels.update(
        canonical(edge).1 as int,
        levels[canonical(edge).1 as int].update(canonical(edge).0 as int, level),
    )
}

/// The table after `edge` was pulled towards `target` with weight `alpha`.
pub open spec fn pulled(levels: Seq<Seq<u64>>, edge: Edge, target: u64, alpha: u64) -> Seq<
    Seq<u64>,
> {
    with_level(
        levels,
        edge,
        blend_spec(level_of(levels, edge) as int, target as int, alpha as int) as u64,
    )
}

/// The table after every step of `path`, in order, pulled its edge towards
/// `target`.
pub open spec fn reinforced(levels: Seq<Seq<u64>>, path: Seq<usize>, target: u64, alpha: u64) -> Seq<
    Seq<u64>,
>
    decreases path.len(),
{
    if path.len() < 2 {
        levels
    } else {
        pulled(
            reinforced(levels, path.drop_last(), target, alpha),
            (path[path.len() - 2], path[path.len() - 1]),
            target,
            alpha,
        )
    }
}

/// `new` lies between `old` and `target`, both included.
pub open spec fn between(old: u64, new: u64, target: u64) -> bool {
    &&& old <= target ==> old <= new <= target
    &&& target <= old ==> target <= new <= old
}

/// Every level of `after` lies between its value in `before` and `target`.
pub open spec fn drawn_towards(before: Seq<Seq<u64>>, after: Seq<Seq<u64>>, target: u64) -> bool {
    forall|edge: Edge|
        connects(before.len() as int, edge) ==> between(
            level_of(before, edge),
            #[trigger] level_of(after, edge),
            target,
        )
}

/// An edge has one level, whichever of its ends is named first.
pub proof fn lemma_level_symmetric(levels: Seq<Seq<u64>>, i: usize, j: usize)
    ensures
        level_of(levels, (i, j)) == level_of(levels, (j, i)),
{
}

/// Pulling one edge keeps the shape of the table, moves the level of that edge
/// to the weighted mean, and leaves every other edge alone.
pub proof fn lemma_pulled(levels: Seq<Seq<u64>>, edge: Edge, target: u64, alpha: u64)
    requires
        triangular(levels),
        connects(levels.len() as int, edge),
        alpha <= ONE,
    ensures
        triangular(pulled(levels, edge, target, alpha)),
        pulled(levels, edge, target, alpha).len() == levels.len(),
        level_of(pulled(levels, edge, target, alpha), edge) == blend_spec(
            level_of(levels, edge) as int,
            target as int,
            alpha as int,
        ),
        forall|other: Edge|
            connects(levels.len() as int, other) && canonical(other) != canonical(edge)
                ==> level_of(pulled(levels, edge, target, alpha), other) == level_of(levels, other),
{
    lemma_blend_between(level_of(levels, edge) as int, target as int, alpha as int);
    let after = pulled(levels, edge, target, alpha);
    assert forall|j: int| 0 <= j < after.len() implies (#[trigger] after[j]).len() == j by {
        assert(levels[j].len() == j);
    }
    assert(levels[canonical(edge).1 as int].len() == canonical(edge).1);
}

/// Reinforcing along a path keeps the shape of the table, and every level
/// ends between its old value and the target.
pub proof fn lemma_reinforced_between(
    levels: Seq<Seq<u64>>,
    path: Seq<usize>,
    target: u64,
    alpha: u64,
    edge: Edge,
)
    requires
        triangular(levels),
        walkable(levels.len() as int, path),
        connects(levels.len() as int, edge),
        alpha <= ONE,
    ensures
        triangular(reinforced(levels, path, target, alpha)),
        reinforced(levels, path, target, alpha).len() == levels.len(),
        between(
            level_of(levels, edge),
            level_of(reinforced(levels, path, target, alpha), edge),
            target,
        ),
    decreases path.len(),
{
    if path.len() >= 2 {
        let shorter = path.drop_last();
        assert forall|k: int| 0 < k < shorter.len() implies connects(
            levels.len() as int,
            (shorter[k - 1], #[trigger] shorter[k]),
        ) by {
            assert(connects(levels.len() as int, (path[k - 1], path[k])));
        }
        lemma_reinforced_between(levels, shorter, target, alpha, edge);
        let before = reinforced(levels, shorter, target, alpha);
        let step: Edge = (path[path.len() - 2], path[path.len() - 1]);
        assert(connects(levels.len() as int, (path[path.len() - 1 - 1], path[path.len() - 1])));
        lemma_pulled(before, step, target, alpha);
        lemma_blend_between(level_of(before, edge) as int, target as int, alpha as int);
    }
}

/// Reinforcing along one more step of a path pulls the edge of that step.
pub proof fn lemma_reinforced_step(
    levels: Seq<Seq<u64>>,
    path: Seq<usize>,
    k: int,
    target: u64,
    alpha: u64,
)
    requires
        1 <= k < path.len(),
    ensures
        reinforced(levels, path.take(k + 1), target, alpha) == pulled(
            reinforced(levels, path.take(k), target, alpha),
            (path[k - 1], path[k]),
            target,
            alpha,
        ),
{
    assert(path.take(k + 1).drop_last() =~= path.take(k));
}

/// Reinforcing along a path draws every level towards the target.
pub proof fn lemma_reinforced_drawn(
    levels: Seq<Seq<u64>>,
    path: Seq<usize>,
    target: u64,
    alpha: u64,
)
    requires
        triangular(levels),
        walkable(levels.len() as int, path),
        alpha <= ONE,
    ensures
        drawn_towards(levels, reinforced(levels, path, target, alpha), target),
{
    let after = reinforced(levels, path, target, alpha);
    assert forall|edge: Edge| connects(levels.len() as int, edge) implies between(
        level_of(levels, edge),
        #[trigger] level_of(after, edge),
        target,
    ) by {
        lemma_reinforced_between(levels, path, target, alpha, edge);
    }
}

/// The key of the edge between the cities `low` and `high`, the smaller
/// first.
pub open spec fn edge_key(low: int, high: int) -> u128 {
    (high * 0x1_0000_0000_0000_0000 + low) as u128
}

/// The key of the edge between the cities `low` and `high`.
fn key(low: usize, high: usize) -> (k: u128)
    ensures
        k == edge_key(low as int, high as int),
{
    (high as u128) * 0x1_0000_0000_0000_0000 + (low as u128)
}

/// The levels as a table: row `j` holds the level of the edge to every city
/// before `j`.
#[verifier::opaque]
pub closed spec fn table(nodes: nat, levels: Map<u128, u64>) -> Seq<Seq<u64>> {
    Seq::new(nodes, |j: int| Seq::new(j as nat, |i: int| levels[edge_key(i, j)]))
}

/// Every edge between two of the first `nodes` cities has an entry.
#[verifier::opaque]
pub closed spec fn covers(nodes: nat, levels: Map<u128, u64>) -> bool {
    forall|i: int, j: int| 0 <= i < j < nodes ==> levels.contains_key(#[trigger] edge_key(i, j))
}

/// The pheromone levels of one colony run: one level for every edge between
/// two of its cities, held under the key of the edge.
#[derive(Debug)]
pub struct PheromoneTrails<'a> {
    params: &'a Parameters,
    nodes: usize,
    levels: HashMap<u128, u64>,
}

impl<'a> View for PheromoneTrails<'a> {
    type V = Seq<Seq<u64>>;

    closed spec fn view(&self) -> Seq<Seq<u64>> {
        table(self.nodes as nat, self.levels@)
    }
}

impl<'a> PheromoneTrails<'a> {
    /// The parameters that the updates go by.
    pub closed spec fn parameters(&self) -> Parameters {
        *self.params
    }

    /// The number of cities.
    pub open spec fn nodes(&self) -> int {
        self@.len() as int
    }

    /// Every edge has an entry.
    pub closed spec fn complete(&self) -> bool {
        covers(self.nodes as nat, self.levels@)
    }

    /// The store has a level for every edge.
    pub open spec fn wf(&self) -> bool {
        triangular(self@) && self.complete()
    }

    /// The level of `edge`.
    pub open spec fn level(&self, edge: Edge) -> u64 {
        level_of(self@, edge)
    }

    /// A store for `nodes` cities in which every edge has the initial level of
    /// `params`.
    #[must_use]
    pub fn new(params: &'a Parameters, nodes: usize) -> (trails: Self)
        ensures
            trails.wf(),
            trails.nodes() == nodes,
            trails.parameters() == *params,
            forall|edge: Edge|
                connects(nodes as int, edge) ==> trails.level(edge)
                    == params.initial_pheromone_level,
    {
        broadcast use vstd::std_specs::hash::group_hash_axioms;

        let mut levels: HashMap<u128, u64> = HashMap::new();
        let mut j: usize = 0;
        while j < nodes
            invariant
                j <= nodes,
                forall|a: int, b: int|
                    0 <= a < b < j ==> levels@.contains_key(#[trigger] edge_key(a, b))
                        && levels@[edge_key(a, b)] == params.initial_pheromone_level,
            decreases nodes - j,
        {
            let mut i: usize = 0;
            while i < j
                invariant
                    i <= j < nodes,
                    forall|a: int, b: int|
                        0 <= a < b && (b < j || (b == j && a < i)) ==> levels@.contains_key(
                            #[trigger] edge_key(a, b),
                        ) && levels@[edge_key(a, b)] == params.initial_pheromone_level,
                decreases j - i,
            {
                levels.insert(key(i, j), params.initial_pheromone_level);
                i = i + 1;
            }
            j = j + 1;
        }
        let trails = Self { params, nodes, levels };
        reveal(table);
        reveal(covers);
        assert forall|edge: Edge| connects(nodes as int, edge) implies trails.level(edge)
            == params.initial_pheromone_level by {
            let c = canonical(edge);
            assert(trails@[c.1 as int][c.0 as int] == trails.levels@[edge_key(
                c.0 as int,
                c.1 as int,
            )]);
        }
        trails
    }

    /// The level of `edge`, in whichever order its ends are given.
    #[must_use]
    pub fn get(&self, edge: Edge) -> (level: u64)
        requires
            self.wf(),
            connects(self.nodes(), edge),
        ensures
            level == self.level(edge),
            level == self.level((edge.1, edge.0)),
    {
        broadcast use vstd::std_specs::hash::group_hash_axioms;

        let (low, high) = if edge.0 > edge.1 {
            (edge.1, edge.0)
        } else {
            edge
        };
        let k: u128 = key(low, high);
        reveal(table);
        reveal(covers);
        assert(self.levels@.contains_key(edge_key(low as int, high as int)));
        assert(self@[high as int][low as int] == self.levels@[k]);
        *self.levels.get(&k).unwrap()
    }

    /// The level of `edge`. Every edge has had a level since the store was
    /// made, so the store stays as it is.
    pub fn get_or_create(&mut self, edge: Edge) -> (level: u64)
        requires
            old(self).wf(),
            connects(old(self).nodes(), edge),
        ensures
            level == old(self).level(edge),
            level == old(self).level((edge.1, edge.0)),
            final(self)@ == old(self)@,
            final(self).parameters() == old(self).parameters(),
            final(self).wf(),
    {
        self.get(edge)
    }

    /// Replaces the level of `edge` by its weighted mean with `target`.
    fn pull(&mut self, edge: Edge, target: u64)
        requires
            old(self).wf(),
            connects(old(self).nodes(), edge),
            old(self).parameters().alpha <= ONE,
        ensures
            final(self)@ == pulled(old(self)@, edge, target, old(self).parameters().alpha),
            final(self).parameters() == old(self).parameters(),
            final(self).wf(),
            final(self).nodes() == old(self).nodes(),
    {
        broadcast use vstd::std_specs::hash::group_hash_axioms;

        let (low, high) = if edge.0 > edge.1 {
            (edge.1, edge.0)
        } else {
            edge
        };
        let level: u64 = self.get(edge);
        proof {
            lemma_blend_between(level as int, target as int, self.params.alpha as int);
            lemma_pulled(self@, edge, target, self.params.alpha);
        }
        let mixed: u64 = blend(level, target, self.params.alpha);
        self.levels.insert(key(low, high), mixed);
        proof {
            reveal(table);
            reveal(covers);
            let goal = pulled(old(self)@, edge, target, old(self).parameters().alpha);
            assert(self@.len() == goal.len());
            assert forall|r: int| 0 <= r < goal.len() implies self@[r] =~= goal[r] by {
                assert(old(self)@[r].len() == r);
                assert forall|c: int| 0 <= c < r implies self@[r][c] == goal[r][c] by {
                    assert(old(self)@[r][c] == old(self).levels@[edge_key(c, r)]);
                    if r == high && c == low {
                    } else {
                        assert(edge_key(c, r) != edge_key(low as int, high as int));
                    }
                }
            }
            assert(self@ =~= goal);
            assert forall|i: int, j: int| 0 <= i < j < self.nodes implies self.levels@.contains_key(
                #[trigger] edge_key(i, j),
            ) by {
                assert(old(self).levels@.contains_key(edge_key(i, j)));
            }
        }
    }

    /// Pulls the level of the edge that an ant has just crossed towards
    /// `tau0`: `level * (1 - alpha) + alpha * tau0`.
    pub fn local_update(&mut self, current_coordinate: usize, next_coord: usize)
        requires
            old(self).wf(),
            connects(old(self).nodes(), (current_coordinate, next_coord)),
            old(self).parameters().alpha <= ONE,
        ensures
            final(self)@ == pulled(
                old(self)@,
                (current_coordinate, next_coord),
                old(self).parameters().tau0,
                old(self).parameters().alpha,
            ),
            final(self).parameters() == old(self).parameters(),
            final(self).wf(),
            final(self).nodes() == old(self).nodes(),
            final(self).level((current_coordinate, next_coord)) == blend_spec(
                old(self).level((current_coordinate, next_coord)) as int,
                old(self).parameters().tau0 as int,
                old(self).parameters().alpha as int,
            ),
            forall|other: Edge|
                connects(old(self).nodes(), other) && canonical(other) != canonical(
                    (current_coordinate, next_coord),
                ) ==> #[trigger] final(self).level(other) == old(self).level(other),
    {
        let target: u64 = self.params.tau0;
        proof {
            lemma_pulled(self@, (current_coordinate, next_coord), target, self.params.alpha);
        }
        self.pull((current_coordinate, next_coord), target);
    }

    /// Pulls the level of every step of `path` towards the reciprocal of
    /// `lenght`: `level * (1 - alpha) + alpha / lenght`. Every level ends
    /// between its old value and that reciprocal.
    #[verifier::rlimit(50)]
    pub fn global_update(&mut self, path: &[usize], lenght: u128)
        requires
            old(self).wf(),
            walkable(old(self).nodes(), path@),
            old(self).parameters().alpha <= ONE,
        ensures
            final(self)@ == reinforced(
                old(self)@,
                path@,
                recip_spec(lenght as int) as u64,
                old(self).parameters().alpha,
            ),
            final(self).parameters() == old(self).parameters(),
            final(self).wf(),
            final(self).nodes() == old(self).nodes(),
            drawn_towards(old(self)@, final(self)@, recip_spec(lenght as int) as u64),
    {
        let target: u64 = recip(lenght);
        let ghost start = self@;
        let ghost alpha = self.params.alpha;
        proof {
            lemma_reinforced_drawn(start, path@, target, alpha);
        }
        if path.len() < 2 {
            return ;
        }
        let mut k: usize = 1;
        assert(reinforced(start, path@.take(1), target, alpha) == start);
        while k < path.len()
            invariant
                1 <= k <= path@.len(),
                self.wf(),
                self.nodes() == start.len(),
                self.parameters() == old(self).parameters(),
                alpha == old(self).parameters().alpha,
                alpha <= ONE,
                walkable(start.len() as int, path@),
                self@ == reinforced(start, path@.take(k as int), target, alpha),
            decreases path@.len() - k,
        {
            proof {
                assert(connects(start.len() as int, (path@[k - 1], path@[k as int])));
                lemma_reinforced_step(start, path@, k as int, target, alpha);
            }
            self.pull((path[k - 1], path[k]), target);
            k = k + 1;
        }
        assert(path@.take(path@.len() as int) =~= path@);
    }
}

} // verus!
