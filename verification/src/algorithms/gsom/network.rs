//! The map: a sparse grid of nodes, each with weights and an archive of the
//! solutions that matched it best, trained one input at a time.

use vstd::prelude::*;
use crate::algorithms::gsom::weights::{
    adjust, adjusted, distance_of, get_distance, get_neighbour_rate, grow, grown, neighbour_rate,
    pad, padded,
};
use crate::algorithms::math::{Ratio, RATIO_ONE};
use crate::population::elitism::{after_add, views, Elitism};
use crate::population::objective::{equivalent, Objective, Solution};
use crate::utils::random::DefaultRandom;

verus! {

/// A place on the grid of the map.
#[derive(Clone, Copy, Debug, PartialEq, Eq, Structural, PartialOrd, Ord, Hash)]
pub struct Coordinate(pub i32, pub i32);

/// The settings of a map.
#[derive(Clone, Copy, Debug, PartialEq, Eq)]
pub struct NetworkConfig {
    /// The error per weight dimension beyond which a node makes the map
    /// grow: minus the logarithm of one less the spread factor, in squared
    /// weight units.
    pub growth_threshold: u64,
    /// The share of the learning rate at which the neighbours of the best
    /// matching node learn.
    pub distribution_factor: Ratio,
    /// The rate at which the best matching node learns.
    pub learning_rate: Ratio,
    /// The number of nodes that the map is meant to keep.
    pub rebalance_memory: usize,
    /// Whether the nodes keep their errors when the map is retrained.
    pub has_initial_error: bool,
}

/// Makes the archives of new nodes.
pub struct IndividualStorageFactory<O> {
    /// How many solutions the archive of a node holds at most.
    pub node_size: usize,
    /// The probability with which a new archive gets a shuffled objective.
    pub reshuffling_probability: Ratio,
    /// The objective of the archives.
    pub objective: O,
}

/// Whether two objectives agree on dominance and on equivalence.
pub open spec fn agree<S: Solution, O: Objective<S>>(first: &O, second: &O) -> bool {
    &&& forall|a: S::V, b: S::V| #[trigger] first.dominates(a, b) == second.dominates(a, b)
    &&& forall|a: S::V, b: S::V|
        #![trigger first.precedes(a, b)]
        equivalent(first, a, b) == equivalent(second, a, b)
}

impl<O> IndividualStorageFactory<O> {
    /// Makes an empty archive for `node_size` solutions; with the given
    /// probability its objective is shuffled.
    pub fn eval<S: Solution>(&self, random: &mut DefaultRandom) -> (r: Elitism<O, S>) where
        O: Objective<S>,

        requires
            self.node_size >= 1,
        ensures
            r.wf(),
            r.members() == Seq::<S::V>::empty(),
            r.max_population_size == self.node_size,
            r.selection_size == self.node_size,
            agree::<S, O>(&r.objective, &self.objective),
            r.objective == self.objective || exists|seed: i32|
                0 <= seed && r.objective == #[trigger] self.objective.reshuffled(seed),
            self.reshuffling_probability == 0 ==> r.objective == self.objective,
            self.reshuffling_probability >= RATIO_ONE ==> exists|seed: i32|
                0 <= seed && r.objective == #[trigger] self.objective.reshuffled(seed),
    {
        let mut elitism = Elitism::new(self.objective.duplicate(), self.node_size, self.node_size);
        if random.is_hit(self.reshuffling_probability) {
            elitism.shuffle_objective(random);
            assert(elitism.members() =~= Seq::<S::V>::empty());
        }
        elitism
    }
}

/// A node of the map.
pub struct Node<O, S> where S: Solution, O: Objective<S> {
    /// The number of the node: each node of a map has another.
    pub id: Ghost<nat>,
    /// Where the node lies.
    pub coordinate: Coordinate,
    /// The weights of the node.
    pub weights: Vec<i32>,
    /// The error that the node has gathered.
    pub error: u128,
    /// The generation in which the node last matched best.
    pub last_hit: usize,
    /// The solutions that matched the node best.
    pub storage: Elitism<O, S>,
}

/// The view of [`Node`].
pub struct NodeView<O, V> {
    pub id: nat,
    pub coordinate: Coordinate,
    pub weights: Seq<i32>,
    pub error: u128,
    pub last_hit: usize,
    pub objective: O,
    pub capacity: usize,
    pub selection_size: usize,
    pub members: Seq<V>,
}

impl<O, S> View for Node<O, S> where S: Solution, O: Objective<S> {
    type V = NodeView<O, S::V>;

    open spec fn view(&self) -> NodeView<O, S::V> {
        NodeView {
            id: self.id@,
            coordinate: self.coordinate,
            weights: self.weights@,
            error: self.error,
            last_hit: self.last_hit,
            objective: self.storage.objective,
            capacity: self.storage.max_population_size,
            selection_size: self.storage.selection_size,
            members: self.storage.members(),
        }
    }
}

impl<O, S> Node<O, S> where S: Solution, O: Objective<S> {
    /// How many generations ago the node last matched best.
    pub fn get_last_hits(&self, current_time: usize) -> (r: usize)
        ensures
            r == if current_time >= self.last_hit {
                current_time - self.last_hit
            } else {
                0
            },
    {
        if current_time >= self.last_hit {
            current_time - self.last_hit
        } else {
            0
        }
    }
}

/// One of the four directions of the grid.
pub open spec fn direction(k: int) -> (int, int) {
    if k == 0 {
        (-1, 0)
    } else if k == 1 {
        (1, 0)
    } else if k == 2 {
        (0, -1)
    } else {
        (0, 1)
    }
}

/// The place that lies `steps` steps from `from` in direction `k`, if the
/// grid reaches that far.
pub open spec fn shifted(from: Coordinate, k: int, steps: int) -> Option<Coordinate> {
    let x = from.0 + direction(k).0 * steps;
    let y = from.1 + direction(k).1 * steps;
    if i32::MIN <= x <= i32::MAX && i32::MIN <= y <= i32::MAX {
        Some(Coordinate(x as i32, y as i32))
    } else {
        None
    }
}

/// Whether two places lie side by side.
pub open spec fn is_neighbour(a: Coordinate, b: Coordinate) -> bool {
    ||| (a.0 == b.0 && (a.1 - b.1 == 1 || b.1 - a.1 == 1))
    ||| (a.1 == b.1 && (a.0 - b.0 == 1 || b.0 - a.0 == 1))
}

/// The position of the first of the nodes from `from` up to `limit` that
/// lies at the given place; `limit` where none does.
pub open spec fn position_from<O, S: Solution>(
    nodes: Seq<Node<O, S>>,
    place: Coordinate,
    limit: int,
    from: int,
) -> int where O: Objective<S>
    decreases limit - from,
{
    if from >= limit {
        limit
    } else if nodes[from].coordinate == place {
        from
    } else {
        position_from(nodes, place, limit, from + 1)
    }
}

/// The weights of the node among the first `limit` that lies at the given
/// place, if the place is on the grid and a node lies there.
pub open spec fn weights_at<O, S: Solution>(
    nodes: Seq<Node<O, S>>,
    place: Option<Coordinate>,
    limit: int,
) -> Option<Seq<i32>> where O: Objective<S> {
    match place {
        Some(p) => if position_from(nodes, p, limit, 0) < limit {
            Some(nodes[position_from(nodes, p, limit, 0)].weights@)
        } else {
            None
        },
        None => None,
    }
}

/// The position of the node among the first `count` whose weights are
/// nearest to those of an input: the first of them where several are.
pub open spec fn bmu_upto<O, S: Solution>(nodes: Seq<Node<O, S>>, input: Seq<i32>, count: int) -> int where
    O: Objective<S>,

    decreases count,
{
    if count <= 1 {
        0
    } else {
        let before = bmu_upto(nodes, input, count - 1);
        if distance_of(nodes[count - 1].weights@, input) < distance_of(
            nodes[before].weights@,
            input,
        ) {
            count - 1
        } else {
            before
        }
    }
}

/// A node that is about to be added to the map.
pub struct Sprout {
    pub coordinate: Coordinate,
    pub weights: Seq<i32>,
}

/// The nodes that the map gains around the node at position `b` in the
/// first `upto` directions: one at each neighbouring place of the grid at
/// which none of the first `limit` nodes lies.
pub open spec fn sprouts<O, S: Solution>(
    nodes: Seq<Node<O, S>>,
    limit: int,
    b: int,
    upto: int,
) -> Seq<Sprout> where O: Objective<S>
    decreases upto,
{
    if upto <= 0 {
        Seq::<Sprout>::empty()
    } else {
        let before = sprouts(nodes, limit, b, upto - 1);
        let k = upto - 1;
        let centre = nodes[b].coordinate;
        match shifted(centre, k, 1) {
            Some(target) => if position_from(nodes, target, limit, 0) >= limit {
                before.push(
                    Sprout {
                        coordinate: target,
                        weights: grown(
                            nodes[b].weights@,
                            weights_at(nodes, shifted(centre, k, -1), limit),
                            weights_at(nodes, shifted(centre, k, 2), limit),
                        ),
                    },
                )
            } else {
                before
            },
            None => before,
        }
    }
}

/// A map: nodes on a grid, and what it takes to train them.
pub struct Network<O, S> where S: Solution, O: Objective<S> {
    /// The settings.
    pub config: NetworkConfig,
    /// What makes the archives of new nodes.
    pub factory: IndividualStorageFactory<O>,
    /// The number of weights of each node.
    pub dimension: usize,
    /// The latest generation of which an input was stored.
    pub time: usize,
    /// The number of nodes that the map has had so far.
    pub created: Ghost<nat>,
    /// The nodes, in the order in which they joined the map.
    pub nodes: Vec<Node<O, S>>,
}

/// The error beyond which a node makes a map of the given dimension grow.
pub open spec fn threshold_of(config: NetworkConfig, dimension: usize) -> int {
    dimension * config.growth_threshold
}

/// The sum of two errors, at most the greatest value that an error can take.
pub open spec fn error_sum(a: int, b: int) -> int {
    if a + b > u128::MAX {
        u128::MAX as int
    } else {
        a + b
    }
}

impl<O, S> Network<O, S> where S: Solution, O: Objective<S> {
    /// Whether the map is well formed: each node has as many weights as the
    /// map has dimensions and a well formed archive of the size that the map
    /// gives to its nodes, and no two nodes share a place or a number.
    pub open spec fn wf(&self) -> bool {
        &&& self.factory.node_size >= 1
        &&& forall|i: int|
            0 <= i < self.nodes@.len() ==> {
                &&& (#[trigger] self.nodes@[i]).weights@.len() == self.dimension
                &&& self.nodes@[i].storage.wf()
                &&& self.nodes@[i].storage.max_population_size == self.factory.node_size
                &&& self.nodes@[i].id@ < self.created@
                &&& agree::<S, O>(&self.nodes@[i].storage.objective, &self.factory.objective)
            }
        &&& forall|i: int, j: int|
            0 <= i < self.nodes@.len() && 0 <= j < self.nodes@.len() && i != j ==> {
                &&& (#[trigger] self.nodes@[i]).coordinate != (#[trigger] self.nodes@[j]).coordinate
                &&& self.nodes@[i].id@ != self.nodes@[j].id@
            }
    }

    /// The rate at which the node at position `i` learns when the node at
    /// position `b` matches best.
    pub open spec fn rate_for(&self, b: int, i: int) -> Ratio {
        if i == b {
            self.config.learning_rate
        } else if is_neighbour(self.nodes@[b].coordinate, self.nodes@[i].coordinate) {
            neighbour_rate(self.config.learning_rate, self.config.distribution_factor)
        } else {
            0
        }
    }

    /// The number of nodes.
    pub fn size(&self) -> (r: usize)
        ensures
            r == self.nodes@.len(),
    {
        self.nodes.len()
    }

    /// The latest generation of which an input was stored.
    pub fn get_current_time(&self) -> (r: usize)
        ensures
            r == self.time,
    {
        self.time
    }

    /// The nodes, in the order in which they joined the map.
    pub fn get_nodes(&self) -> (r: &Vec<Node<O, S>>)
        ensures
            r == &self.nodes,
    {
        &self.nodes
    }

    fn position(&self, place: &Coordinate, limit: usize) -> (r: usize)
        requires
            limit <= self.nodes@.len(),
        ensures
            r == position_from(self.nodes@, *place, limit as int, 0),
            r <= limit,
            r < limit ==> self.nodes@[r as int].coordinate == *place,
            r == limit ==> forall|i: int|
                0 <= i < limit ==> (#[trigger] self.nodes@[i]).coordinate != *place,
    {
        let mut i: usize = 0;
        while i < limit
            invariant
                i <= limit <= self.nodes@.len(),
                position_from(self.nodes@, *place, limit as int, 0) == position_from(
                    self.nodes@,
                    *place,
                    limit as int,
                    i as int,
                ),
                forall|k: int| 0 <= k < i ==> (#[trigger] self.nodes@[k]).coordinate != *place,
            decreases limit - i,
        {
            if self.nodes[i].coordinate.0 == place.0 && self.nodes[i].coordinate.1 == place.1 {
                return i;
            }
            i = i + 1;
        }
        limit
    }

    /// The node at the given place, if there is one.
    pub fn find(&self, coordinate: &Coordinate) -> (r: Option<&Node<O, S>>)
        ensures
            match r {
                Some(node) => {
                    &&& position_from(self.nodes@, *coordinate, self.nodes@.len() as int, 0)
                        < self.nodes@.len()
                    &&& *node == self.nodes@[position_from(
                        self.nodes@,
                        *coordinate,
                        self.nodes@.len() as int,
                        0,
                    )]
                    &&& node.coordinate == *coordinate
                },
                None => {
                    &&& position_from(self.nodes@, *coordinate, self.nodes@.len() as int, 0)
                        == self.nodes@.len()
                    &&& forall|i: int|
                        0 <= i < self.nodes@.len() ==> (#[trigger] self.nodes@[i]).coordinate
                            != *coordinate
                },
            },
    {
        let at = self.position(coordinate, self.nodes.len());
        if at < self.nodes.len() {
            Some(&self.nodes[at])
        } else {
            None
        }
    }

    fn find_bmu(&self, input: &Vec<i32>) -> (r: usize)
        requires
            self.nodes@.len() > 0,
        ensures
            r == bmu_upto(self.nodes@, input@, self.nodes@.len() as int),
            r < self.nodes@.len(),
    {
        let mut best: usize = 0;
        let mut least: u128 = get_distance(&self.nodes[0].weights, input);
        let mut i: usize = 1;
        while i < self.nodes.len()
            invariant
                1 <= i <= self.nodes@.len(),
                best < i,
                best == bmu_upto(self.nodes@, input@, i as int),
                least == distance_of(self.nodes@[best as int].weights@, input@),
            decreases self.nodes@.len() - i,
        {
            let distance = get_distance(&self.nodes[i].weights, input);
            if distance < least {
                best = i;
                least = distance;
            }
            i = i + 1;
        }
        best
    }

    fn adjust_all(&mut self, b: usize, input: &Vec<i32>)
        requires
            old(self).wf(),
            b < old(self).nodes@.len(),
        ensures
            final(self).wf(),
            final(self).config == old(self).config,
            final(self).factory == old(self).factory,
            final(self).dimension == old(self).dimension,
            final(self).time == old(self).time,
            final(self).created == old(self).created,
            final(self).nodes@.len() == old(self).nodes@.len(),
            forall|i: int|
                0 <= i < old(self).nodes@.len() ==> (#[trigger] final(self).nodes@[i])@ == (NodeView {
                    weights: adjusted(
                        old(self).nodes@[i].weights@,
                        input@,
                        old(self).rate_for(b as int, i),
                    ),
                    ..old(self).nodes@[i]@
                }),
    {
        let total: usize = self.nodes.len();
        let centre = self.nodes[b].coordinate;
        let learning_rate = self.config.learning_rate;
        let near_rate = get_neighbour_rate(
            self.config.learning_rate,
            self.config.distribution_factor,
        );
        let mut i: usize = 0;
        while i < total
            invariant
                i <= total,
                b < total,
                total == self.nodes@.len(),
                total == old(self).nodes@.len(),
                old(self).wf(),
                self.config == old(self).config,
                self.factory == old(self).factory,
                self.dimension == old(self).dimension,
                self.time == old(self).time,
                self.created == old(self).created,
                centre == old(self).nodes@[b as int].coordinate,
                learning_rate == self.config.learning_rate,
                near_rate == neighbour_rate(
                    self.config.learning_rate,
                    self.config.distribution_factor,
                ),
                forall|k: int|
                    0 <= k < i ==> (#[trigger] self.nodes@[k])@ == (NodeView {
                        weights: adjusted(
                            old(self).nodes@[k].weights@,
                            input@,
                            old(self).rate_for(b as int, k),
                        ),
                        ..old(self).nodes@[k]@
                    }),
                forall|k: int| 0 <= k < i ==> (#[trigger] self.nodes@[k]).storage.wf(),
                forall|k: int| i <= k < total ==> self.nodes@[k] == old(self).nodes@[k],
            decreases total - i,
        {
            let place = self.nodes[i].coordinate;
            let rate: Ratio = if i == b {
                learning_rate
            } else if are_neighbours(&centre, &place) {
                near_rate
            } else {
                0
            };
            assert(rate == old(self).rate_for(b as int, i as int));
            let updated = adjust(&self.nodes[i].weights, input, rate);
            let ghost before = self.nodes@[i as int];
            self.nodes[i].weights = updated;
            assert(self.nodes@[i as int].storage == before.storage);
            i = i + 1;
        }
        assert forall|k: int| 0 <= k < self.nodes@.len() implies {
            &&& (#[trigger] self.nodes@[k]).weights@.len() == self.dimension
            &&& self.nodes@[k].storage.wf()
            &&& self.nodes@[k].storage.max_population_size == self.factory.node_size
            &&& self.nodes@[k].id@ < self.created@
            &&& agree::<S, O>(&self.nodes@[k].storage.objective, &self.factory.objective)
        } by {
            assert(self.nodes@[k]@.coordinate == old(self).nodes@[k]@.coordinate);
            assert(old(self).nodes@[k].storage.wf());
        }
        assert forall|k: int, j: int|
            0 <= k < self.nodes@.len() && 0 <= j < self.nodes@.len() && k != j implies {
            &&& (#[trigger] self.nodes@[k]).coordinate != (#[trigger] self.nodes@[j]).coordinate
            &&& self.nodes@[k].id@ != self.nodes@[j].id@
        } by {
            assert(self.nodes@[k]@.coordinate == old(self).nodes@[k]@.coordinate);
            assert(self.nodes@[j]@.coordinate == old(self).nodes@[j]@.coordinate);
            assert(self.nodes@[k]@.id == old(self).nodes@[k]@.id);
            assert(self.nodes@[j]@.id == old(self).nodes@[j]@.id);
        }
    }

    fn weights_of_node(&self, place: Option<Coordinate>, limit: usize) -> (r: Option<&Vec<i32>>)
        requires
            limit <= self.nodes@.len(),
        ensures
            weights_at(self.nodes@, place, limit as int) == match r {
                Some(weights) => Some(weights@),
                None => None,
            },
    {
        match place {
            Some(p) => {
                let at = self.position(&p, limit);
                if at < limit {
                    Some(&self.nodes[at].weights)
                } else {
                    None
                }
            },
            None => None,
        }
    }

    fn grow_around(&mut self, b: usize, stamp: usize, random: &mut DefaultRandom)
        requires
            old(self).wf(),
            b < old(self).nodes@.len(),
        ensures
            final(self).wf(),
            final(self).config == old(self).config,
            final(self).factory == old(self).factory,
            final(self).dimension == old(self).dimension,
            final(self).time == old(self).time,
            final(self).nodes@.subrange(0, old(self).nodes@.len() as int) == old(self).nodes@,
            is_sprouted(
                old(self).nodes@,
                b as int,
                stamp,
                old(self).created@,
                &old(self).factory,
                final(self).nodes@,
                final(self).created@,
            ),
    {
        let limit: usize = self.nodes.len();
        let ghost former = self.nodes@;
        let ghost first = self.created@;
        let centre = self.nodes[b].coordinate;
        let mut k: usize = 0;
        assert(self.nodes@.subrange(0, limit as int) =~= former);
        while k < 4
            invariant
                k <= 4,
                b < limit,
                limit == former.len(),
                former == old(self).nodes@,
                first == old(self).created@,
                old(self).wf(),
                self.wf(),
                self.config == old(self).config,
                self.factory == old(self).factory,
                self.dimension == old(self).dimension,
                self.time == old(self).time,
                centre == former[b as int].coordinate,
                self.nodes@.subrange(0, limit as int) == former,
                self.nodes@.len() == limit + sprouts(former, limit as int, b as int, k as int).len(),
                self.created@ == first + sprouts(former, limit as int, b as int, k as int).len(),
                forall|j: int|
                    0 <= j < sprouts(former, limit as int, b as int, k as int).len() ==> is_sprout(
                        #[trigger] self.nodes@[limit + j],
                        sprouts(former, limit as int, b as int, k as int)[j],
                        first + j,
                        stamp,
                        &self.factory,
                    ),
                forall|j: int|
                    limit <= j < self.nodes@.len() ==> exists|d: int|
                        0 <= d < k && shifted(centre, d, 1) == Some(
                            (#[trigger] self.nodes@[j]).coordinate,
                        ),
            decreases 4 - k,
        {
            let ghost grown_before = sprouts(former, limit as int, b as int, k as int);
            let ghost nodes_before = self.nodes@;
            match shift(&centre, k, 1) {
                Some(target) => {
                    assert forall|i: int| 0 <= i < limit implies self.nodes@[i] == former[i] by {
                        assert(self.nodes@.subrange(0, limit as int)[i] == self.nodes@[i]);
                    }
                    assert(position_from(self.nodes@, target, limit as int, 0) == position_from(
                        former,
                        target,
                        limit as int,
                        0,
                    )) by {
                        lemma_position_prefix(self.nodes@, former, target, limit as int, 0);
                    }
                    let at = self.position(&target, limit);
                    if at >= limit {
                        let opposite_place = shift(&centre, k, -1);
                        let beyond_place = shift(&centre, k, 2);
                        proof {
                            lemma_weights_prefix(self.nodes@, former, opposite_place, limit as int);
                            lemma_weights_prefix(self.nodes@, former, beyond_place, limit as int);
                        }
                        let weights = grow(
                            &self.nodes[b].weights,
                            self.weights_of_node(opposite_place, limit),
                            self.weights_of_node(beyond_place, limit),
                        );
                        let storage = self.factory.eval(random);
                        let node = Node {
                            id: Ghost(self.created@),
                            coordinate: target,
                            weights,
                            error: 0,
                            last_hit: stamp,
                            storage,
                        };
                        self.nodes.push(node);
                        self.created = Ghost(self.created@ + 1);
                        proof {
                            let now = sprouts(former, limit as int, b as int, k as int + 1);
                            assert(now == grown_before.push(
                                Sprout { coordinate: target, weights: node.weights@ },
                            ));
                            assert(self.nodes@.subrange(0, limit as int) =~= former);
                            assert forall|j: int| 0 <= j < now.len() implies is_sprout(
                                #[trigger] self.nodes@[limit + j],
                                now[j],
                                first + j,
                                stamp,
                                &self.factory,
                            ) by {
                                if j < grown_before.len() {
                                    assert(self.nodes@[limit + j] == nodes_before[limit + j]);
                                }
                            }
                            assert forall|j: int|
                                limit <= j < self.nodes@.len() implies exists|d: int|
                                0 <= d < k + 1 && shifted(centre, d, 1) == Some(
                                    (#[trigger] self.nodes@[j]).coordinate,
                                ) by {
                                if j < nodes_before.len() {
                                    assert(self.nodes@[j] == nodes_before[j]);
                                    let d = choose|d: int|
                                        0 <= d < k && shifted(centre, d, 1) == Some(
                                            nodes_before[j].coordinate,
                                        );
                                    assert(0 <= d < k + 1 && shifted(centre, d, 1) == Some(
                                        self.nodes@[j].coordinate,
                                    ));
                                } else {
                                    assert(shifted(centre, k as int, 1) == Some(
                                        self.nodes@[j].coordinate,
                                    ));
                                }
                            }
                            // the new node shares its place with none
                            assert forall|i: int, j: int|
                                0 <= i < self.nodes@.len() && 0 <= j < self.nodes@.len() && i
                                    != j implies {
                                &&& (#[trigger] self.nodes@[i]).coordinate != (
                                #[trigger] self.nodes@[j]).coordinate
                                &&& self.nodes@[i].id@ != self.nodes@[j].id@
                            } by {
                                let last = self.nodes@.len() - 1;
                                if i < last && j < last {
                                    assert(self.nodes@[i] == nodes_before[i]);
                                    assert(self.nodes@[j] == nodes_before[j]);
                                } else {
                                    let other = if i == last {
                                        j
                                    } else {
                                        i
                                    };
                                    assert(self.nodes@[other] == nodes_before[other]);
                                    if other < limit {
                                        assert(nodes_before[other] == former[other]);
                                    } else {
                                        let d = choose|d: int|
                                            0 <= d < k && shifted(centre, d, 1) == Some(
                                                nodes_before[other].coordinate,
                                            );
                                        assert(shifted(centre, d, 1) != shifted(
                                            centre,
                                            k as int,
                                            1,
                                        ));
                                    }
                                }
                            }
                            assert forall|i: int| 0 <= i < self.nodes@.len() implies {
                                &&& (#[trigger] self.nodes@[i]).weights@.len() == self.dimension
                                &&& self.nodes@[i].storage.wf()
                                &&& self.nodes@[i].storage.max_population_size
                                    == self.factory.node_size
                                &&& self.nodes@[i].id@ < self.created@
                                &&& agree::<S, O>(
                                    &self.nodes@[i].storage.objective,
                                    &self.factory.objective,
                                )
                            } by {
                                if i < self.nodes@.len() - 1 {
                                    assert(self.nodes@[i] == nodes_before[i]);
                                } else {
                                    assert(former[b as int].weights@.len() == self.dimension);
                                }
                            }
                        }
                    }
                },
                None => {},
            }
            k = k + 1;
        }
    }

    /// Trains the map with one input: the node whose weights are nearest to
    /// those of the input gathers the squared distance as error, it and its
    /// neighbours are pulled towards the input, and the input joins its
    /// archive. Where its error then exceeds the threshold, the map grows by
    /// a node at each free place beside it, and its error falls to half the
    /// threshold. A new input stamps the node with its generation. An empty
    /// map gets its first node from the input.
    pub fn train(&mut self, input: S, generation: usize, is_new: bool, random: &mut DefaultRandom)
        requires
            old(self).wf(),
        ensures
            final(self).wf(),
            is_trained(old(self), input@, generation, is_new, final(self)),
    {
        let ghost x = S::weights_of(input@);
        let weights = input.weights();
        let stamp: usize = if is_new {
            generation
        } else {
            self.time
        };
        if is_new && generation > self.time {
            self.time = generation;
        }
        if self.nodes.len() == 0 {
            let mut storage = self.factory.eval(random);
            let _ = storage.add(input);
            assert(storage.members() =~= seq![input@]) by {
                assert(!crate::population::elitism::is_rejected(
                    &storage.objective,
                    Seq::<S::V>::empty(),
                    input@,
                ));
                assert(crate::population::elitism::placed(
                    &storage.objective,
                    Seq::<S::V>::empty(),
                    input@,
                ) =~= seq![input@]);
            }
            let node = Node {
                id: Ghost(self.created@),
                coordinate: Coordinate(0, 0),
                weights: pad(&weights, self.dimension),
                error: 0,
                last_hit: stamp,
                storage,
            };
            self.nodes.push(node);
            self.created = Ghost(self.created@ + 1);
            return ;
        }
        let total: usize = self.nodes.len();
        let b = self.find_bmu(&weights);
        let distance = get_distance(&self.nodes[b].weights, &weights);
        let ghost before = *self;
        self.adjust_all(b, &weights);
        let ghost adjusted_nodes = self.nodes@;
        let _ = self.nodes[b].storage.add(input);
        let gathered: u128 = self.nodes[b].error.saturating_add(distance);
        assert(self.dimension * self.config.growth_threshold <= 0xffff_ffff_ffff_ffff
            * 0xffff_ffff_ffff_ffff) by (nonlinear_arith)
            requires
                0 <= self.dimension <= 0xffff_ffff_ffff_ffff,
                0 <= self.config.growth_threshold <= 0xffff_ffff_ffff_ffff,
        ;
        let threshold: u128 = self.dimension as u128 * self.config.growth_threshold as u128;
        if is_new {
            self.nodes[b].last_hit = generation;
        }
        let grows = gathered > threshold;
        if grows {
            self.nodes[b].error = threshold / 2;
        } else {
            self.nodes[b].error = gathered;
        }
        proof {
            assert forall|i: int| 0 <= i < total implies (#[trigger] self.nodes@[i])@
                == trained_node(old(self), i, b as int, input@, generation, is_new) by {
                assert(adjusted_nodes[i]@ == (NodeView {
                    weights: adjusted(
                        before.nodes@[i].weights@,
                        weights@,
                        before.rate_for(b as int, i),
                    ),
                    ..before.nodes@[i]@
                }));
                if i != b {
                    assert(self.nodes@[i] == adjusted_nodes[i]);
                }
            }
            assert forall|k: int| 0 <= k < self.nodes@.len() implies {
                &&& (#[trigger] self.nodes@[k]).weights@.len() == self.dimension
                &&& self.nodes@[k].storage.wf()
                &&& self.nodes@[k].storage.max_population_size == self.factory.node_size
                &&& self.nodes@[k].id@ < self.created@
                &&& agree::<S, O>(&self.nodes@[k].storage.objective, &self.factory.objective)
            } by {
                assert(adjusted_nodes[k].storage.wf());
                if k != b {
                    assert(self.nodes@[k] == adjusted_nodes[k]);
                }
            }
            assert forall|k: int, j: int|
                0 <= k < self.nodes@.len() && 0 <= j < self.nodes@.len() && k != j implies {
                &&& (#[trigger] self.nodes@[k]).coordinate != (#[trigger] self.nodes@[j]).coordinate
                &&& self.nodes@[k].id@ != self.nodes@[j].id@
            } by {
                assert(self.nodes@[k]@.coordinate == adjusted_nodes[k]@.coordinate);
                assert(self.nodes@[j]@.coordinate == adjusted_nodes[j]@.coordinate);
                assert(self.nodes@[k]@.id == adjusted_nodes[k]@.id);
                assert(self.nodes@[j]@.id == adjusted_nodes[j]@.id);
            }
        }
        let ghost trained = self.nodes@;
        let ghost gathered_spec = error_sum(
            old(self).nodes@[b as int].error as int,
            distance_of(old(self).nodes@[b as int].weights@, x),
        );
        assert(adjusted_nodes[b as int]@.error == before.nodes@[b as int]@.error);
        assert(gathered == gathered_spec);
        assert(threshold == threshold_of(old(self).config, old(self).dimension));
        assert(b == bmu_upto(old(self).nodes@, x, total as int));
        if grows {
            self.grow_around(b, stamp, random);
            assert forall|i: int| 0 <= i < total implies (#[trigger] self.nodes@[i])@
                == trained_node(old(self), i, b as int, input@, generation, is_new) by {
                assert(self.nodes@.subrange(0, total as int)[i] == self.nodes@[i]);
                assert(self.nodes@[i] == trained[i]);
            }
            assert(self.nodes@.subrange(0, total as int) == trained);
        } else {
            assert(self.nodes@.subrange(0, total as int) =~= self.nodes@);
        }
    }

    /// Creates a map from four inputs: a square of four nodes, each with the
    /// weights of its input and the input in its archive.
    pub fn new(
        roots: Vec<S>,
        config: NetworkConfig,
        factory: IndividualStorageFactory<O>,
        random: &mut DefaultRandom,
    ) -> (r: Self)
        requires
            roots@.len() == 4,
            factory.node_size >= 1,
        ensures
            r.wf(),
            is_seed_map(&r, views(roots@), config, factory),
    {
        let first = roots[0].weights();
        let dimension: usize = first.len();
        let mut map = Network {
            config,
            factory,
            dimension,
            time: 0,
            created: Ghost(0),
            nodes: Vec::new(),
        };
        let mut rest = roots;
        let mut done: usize = 0;
        while done < 4
            invariant
                done <= 4,
                rest@.len() == 4 - done,
                forall|k: int| 0 <= k < rest@.len() ==> rest@[k] == roots@[done + k],
                map.config == config,
                map.factory == factory,
                map.time == 0,
                map.dimension == dimension,
                dimension == S::weights_of(roots@[0]@).len(),
                map.created@ == done,
                map.nodes@.len() == done,
                map.factory.node_size >= 1,
                forall|i: int|
                    0 <= i < done ==> {
                        &&& (#[trigger] map.nodes@[i]).coordinate == seed_place(i)
                        &&& map.nodes@[i].id@ == i
                        &&& map.nodes@[i].weights@ == padded(
                            S::weights_of(roots@[i]@),
                            dimension as int,
                        )
                        &&& map.nodes@[i].error == 0
                        &&& map.nodes@[i].last_hit == 0
                        &&& map.nodes@[i].storage.members() == seq![roots@[i]@]
                        &&& map.nodes@[i].storage.wf()
                        &&& map.nodes@[i].storage.max_population_size == map.factory.node_size
                        &&& agree::<S, O>(
                            &map.nodes@[i].storage.objective,
                            &map.factory.objective,
                        )
                    },
            decreases 4 - done,
        {
            let ghost held = rest@;
            let ghost nodes_before = map.nodes@;
            let root = rest.remove(0);
            assert(root == roots@[done as int]);
            assert forall|k: int| 0 <= k < rest@.len() implies rest@[k] == roots@[done + 1 + k] by {
                assert(rest@[k] == held[k + 1]);
            }
            let weights = root.weights();
            let mut storage = map.factory.eval(random);
            let _ = storage.add(root);
            assert(storage.members() =~= seq![root@]) by {
                assert(!crate::population::elitism::is_rejected(
                    &storage.objective,
                    Seq::<S::V>::empty(),
                    root@,
                ));
                assert(crate::population::elitism::placed(
                    &storage.objective,
                    Seq::<S::V>::empty(),
                    root@,
                ) =~= seq![root@]);
            }
            let place = if done == 0 {
                Coordinate(0, 0)
            } else if done == 1 {
                Coordinate(0, 1)
            } else if done == 2 {
                Coordinate(1, 0)
            } else {
                Coordinate(1, 1)
            };
            let node = Node {
                id: Ghost(done as nat),
                coordinate: place,
                weights: pad(&weights, dimension),
                error: 0,
                last_hit: 0,
                storage,
            };
            map.nodes.push(node);
            map.created = Ghost(map.created@ + 1);
            assert forall|i: int| 0 <= i < done implies map.nodes@[i] == nodes_before[i] by {}
            done = done + 1;
        }
        map
    }

    /// Stores the inputs of a batch, all of the given generation, one after
    /// the other.
    pub fn store_batch(&mut self, items: Vec<S>, generation: usize, random: &mut DefaultRandom)
        requires
            old(self).wf(),
        ensures
            final(self).wf(),
            final(self).config == old(self).config,
            final(self).factory == old(self).factory,
            final(self).dimension == old(self).dimension,
            is_stored_all(
                old(self),
                views(items@),
                items@.len() as int,
                generation,
                final(self),
            ),
    {
        let ghost batch = views(items@);
        let mut rest = items;
        let total: usize = rest.len();
        let mut done: usize = 0;
        while done < total
            invariant
                done <= total,
                total == batch.len(),
                rest@.len() == total - done,
                forall|k: int| 0 <= k < rest@.len() ==> (#[trigger] rest@[k])@ == batch[done + k],
                self.wf(),
                self.config == old(self).config,
                self.factory == old(self).factory,
                self.dimension == old(self).dimension,
                is_stored_all(old(self), batch, done as int, generation, self),
            decreases total - done,
        {
            let ghost held = rest@;
            let ghost middle = *self;
            let item = rest.remove(0);
            assert(item@ == batch[done as int]);
            assert forall|k: int| 0 <= k < rest@.len() implies (#[trigger] rest@[k])@ == batch[done
                + 1 + k] by {
                assert(rest@[k] == held[k + 1]);
            }
            self.train(item, generation, true, random);
            assert(middle.wf() && is_stored_all(
                old(self),
                batch,
                done as int,
                generation,
                &middle,
            ) && is_trained(&middle, batch[done as int], generation, true, self));
            done = done + 1;
        }
    }

    fn compact(&mut self, keep: &Vec<bool>) -> (pool: Vec<S>)
        requires
            old(self).wf(),
            keep@.len() == old(self).nodes@.len(),
        ensures
            final(self).wf(),
            final(self).config == old(self).config,
            final(self).factory == old(self).factory,
            final(self).dimension == old(self).dimension,
            final(self).time == old(self).time,
            final(self).created == old(self).created,
            final(self).nodes@ == kept(old(self).nodes@, keep@, keep@.len() as int),
            views(pool@) == dropped_solutions(old(self).nodes@, keep@, keep@.len() as int),
    {
        let ghost former = self.nodes@;
        let total: usize = keep.len();
        let mut pool: Vec<S> = Vec::new();
        assert(views(pool@) =~= dropped_solutions(former, keep@, 0));
        let mut at: usize = 0;
        let mut seen: usize = 0;
        assert(self.nodes@ =~= kept(former, keep@, 0) + former.subrange(0, total as int));
        while seen < total
            invariant
                seen <= total,
                total == keep@.len(),
                total == former.len(),
                former == old(self).nodes@,
                old(self).wf(),
                self.config == old(self).config,
                self.factory == old(self).factory,
                self.dimension == old(self).dimension,
                self.time == old(self).time,
                self.created == old(self).created,
                at == kept(former, keep@, seen as int).len(),
                at <= seen,
                self.nodes@ == kept(former, keep@, seen as int) + former.subrange(
                    seen as int,
                    total as int,
                ),
                views(pool@) == dropped_solutions(former, keep@, seen as int),
            decreases total - seen,
        {
            let ghost current = self.nodes@;
            let ghost survivors = kept(former, keep@, seen as int);
            assert(current[at as int] == former[seen as int]);
            if keep[seen] {
                assert(self.nodes@ =~= survivors.push(former[seen as int]) + former.subrange(
                    seen as int + 1,
                    total as int,
                ));
                at = at + 1;
            } else {
                let mut node = self.nodes.remove(at);
                assert(node == former[seen as int]);
                assert(node.storage.wf());
                let size = node.storage.size();
                let ghost held = node.storage.members();
                let ghost before_pool = views(pool@);
                let mut drained = node.storage.drain(0, size);
                assert(views(drained@) =~= held);
                pool.append(&mut drained);
                assert(views(pool@) =~= before_pool + held);
                assert(self.nodes@ =~= survivors + former.subrange(
                    seen as int + 1,
                    total as int,
                ));
            }
            seen = seen + 1;
        }
        proof {
            let rest = kept(former, keep@, total as int);
            assert(self.nodes@ =~= rest);
            lemma_kept(former, keep@, total as int);
            assert forall|k: int| 0 <= k < rest.len() implies {
                &&& (#[trigger] rest[k]).weights@.len() == self.dimension
                &&& rest[k].storage.wf()
                &&& rest[k].storage.max_population_size == self.factory.node_size
                &&& rest[k].id@ < self.created@
                &&& agree::<S, O>(&rest[k].storage.objective, &self.factory.objective)
            } by {
                assert(is_marked(former, keep@, total as int, rest[k]));
                let i = choose|i: int| 0 <= i < total && keep@[i] && former[i] == rest[k];
                assert(former[i].storage.wf());
            }
            assert(are_apart(former));
            assert(are_apart(rest));
        }
        pool
    }

    fn drain_all(&mut self, pool: &mut Vec<S>)
        requires
            old(self).wf(),
        ensures
            final(self).wf(),
            final(self).config == old(self).config,
            final(self).factory == old(self).factory,
            final(self).dimension == old(self).dimension,
            final(self).time == old(self).time,
            final(self).created == old(self).created,
            is_drained(old(self), final(self)),
            views(final(pool)@) == views(old(pool)@) + held_solutions(
                old(self).nodes@,
                old(self).nodes@.len() as int,
            ),
    {
        let total: usize = self.nodes.len();
        let mut i: usize = 0;
        assert(views(pool@) =~= views(old(pool)@) + held_solutions(old(self).nodes@, 0));
        while i < total
            invariant
                i <= total,
                total == self.nodes@.len(),
                total == old(self).nodes@.len(),
                old(self).wf(),
                self.config == old(self).config,
                self.factory == old(self).factory,
                self.dimension == old(self).dimension,
                self.time == old(self).time,
                self.created == old(self).created,
                forall|k: int|
                    0 <= k < i ==> (#[trigger] self.nodes@[k])@ == (NodeView {
                        members: Seq::<S::V>::empty(),
                        ..old(self).nodes@[k]@
                    }),
                forall|k: int| 0 <= k < i ==> (#[trigger] self.nodes@[k]).storage.wf(),
                forall|k: int| i <= k < total ==> self.nodes@[k] == old(self).nodes@[k],
                views(pool@) == views(old(pool)@) + held_solutions(old(self).nodes@, i as int),
            decreases total - i,
        {
            assert(self.nodes@[i as int].storage.wf());
            let size = self.nodes[i].storage.size();
            let ghost held = self.nodes@[i as int].storage.members();
            let ghost before_pool = views(pool@);
            let mut drained = self.nodes[i].storage.drain(0, size);
            assert(views(drained@) =~= held);
            assert(self.nodes@[i as int].storage.members() =~= Seq::<S::V>::empty());
            pool.append(&mut drained);
            assert(views(pool@) =~= before_pool + held);
            assert(views(pool@) =~= views(old(pool)@) + held_solutions(
                old(self).nodes@,
                i as int + 1,
            ));
            i = i + 1;
        }
        assert forall|k: int| 0 <= k < self.nodes@.len() implies {
            &&& (#[trigger] self.nodes@[k]).weights@.len() == self.dimension
            &&& self.nodes@[k].storage.wf()
            &&& self.nodes@[k].storage.max_population_size == self.factory.node_size
            &&& self.nodes@[k].id@ < self.created@
            &&& agree::<S, O>(&self.nodes@[k].storage.objective, &self.factory.objective)
        } by {
            assert(self.nodes@[k]@.coordinate == old(self).nodes@[k]@.coordinate);
            assert(old(self).nodes@[k].storage.wf());
        }
        assert forall|k: int, j: int|
            0 <= k < self.nodes@.len() && 0 <= j < self.nodes@.len() && k != j implies {
            &&& (#[trigger] self.nodes@[k]).coordinate != (#[trigger] self.nodes@[j]).coordinate
            &&& self.nodes@[k].id@ != self.nodes@[j].id@
        } by {
            assert(self.nodes@[k]@.coordinate == old(self).nodes@[k]@.coordinate);
            assert(self.nodes@[j]@.coordinate == old(self).nodes@[j]@.coordinate);
            assert(self.nodes@[k]@.id == old(self).nodes@[k]@.id);
            assert(self.nodes@[j]@.id == old(self).nodes@[j]@.id);
        }
    }

    fn clear_errors(&mut self)
        requires
            old(self).wf(),
        ensures
            final(self).wf(),
            final(self).config == old(self).config,
            final(self).factory == old(self).factory,
            final(self).dimension == old(self).dimension,
            final(self).time == old(self).time,
            final(self).created == old(self).created,
            final(self).nodes@.len() == old(self).nodes@.len(),
            forall|i: int|
                0 <= i < old(self).nodes@.len() ==> (#[trigger] final(self).nodes@[i])@ == (NodeView {
                    error: 0,
                    ..old(self).nodes@[i]@
                }),
    {
        let total: usize = self.nodes.len();
        let mut i: usize = 0;
        while i < total
            invariant
                i <= total,
                total == self.nodes@.len(),
                total == old(self).nodes@.len(),
                old(self).wf(),
                self.config == old(self).config,
                self.factory == old(self).factory,
                self.dimension == old(self).dimension,
                self.time == old(self).time,
                self.created == old(self).created,
                forall|k: int|
                    0 <= k < i ==> (#[trigger] self.nodes@[k])@ == (NodeView {
                        error: 0,
                        ..old(self).nodes@[k]@
                    }),
                forall|k: int| 0 <= k < i ==> (#[trigger] self.nodes@[k]).storage.wf(),
                forall|k: int| i <= k < total ==> self.nodes@[k] == old(self).nodes@[k],
            decreases total - i,
        {
            let ghost before = self.nodes@[i as int];
            self.nodes[i].error = 0;
            assert(self.nodes@[i as int].storage == before.storage);
            i = i + 1;
        }
        assert forall|k: int| 0 <= k < self.nodes@.len() implies {
            &&& (#[trigger] self.nodes@[k]).weights@.len() == self.dimension
            &&& self.nodes@[k].storage.wf()
            &&& self.nodes@[k].storage.max_population_size == self.factory.node_size
            &&& self.nodes@[k].id@ < self.created@
            &&& agree::<S, O>(&self.nodes@[k].storage.objective, &self.factory.objective)
        } by {
            assert(self.nodes@[k]@.coordinate == old(self).nodes@[k]@.coordinate);
            assert(old(self).nodes@[k].storage.wf());
        }
        assert forall|k: int, j: int|
            0 <= k < self.nodes@.len() && 0 <= j < self.nodes@.len() && k != j implies {
            &&& (#[trigger] self.nodes@[k]).coordinate != (#[trigger] self.nodes@[j]).coordinate
            &&& self.nodes@[k].id@ != self.nodes@[j].id@
        } by {
            assert(self.nodes@[k]@.coordinate == old(self).nodes@[k]@.coordinate);
            assert(self.nodes@[j]@.coordinate == old(self).nodes@[j]@.coordinate);
            assert(self.nodes@[k]@.id == old(self).nodes@[k]@.id);
            assert(self.nodes@[j]@.id == old(self).nodes@[j]@.id);
        }
    }

    fn feed(
        &mut self,
        pool: &mut Vec<S>,
        random: &mut DefaultRandom,
        Ghost(former): Ghost<Seq<Node<O, S>>>,
        Ghost(keep): Ghost<Seq<bool>>,
        Ghost(first): Ghost<nat>,
    )
        requires
            old(self).wf(),
            is_survival(former, keep, first, old(self).nodes@),
            old(self).created@ >= first,
        ensures
            final(self).wf(),
            final(self).config == old(self).config,
            final(self).factory == old(self).factory,
            final(self).dimension == old(self).dimension,
            final(self).time == old(self).time,
            final(pool)@.len() == 0,
            is_fed(old(self), views(old(pool)@), old(pool)@.len() as int, final(self)),
            is_survival(former, keep, first, final(self).nodes@),
            final(self).created@ >= first,
    {
        let ghost inputs = views(pool@);
        let total: usize = pool.len();
        let mut done: usize = 0;
        while done < total
            invariant
                done <= total,
                total == inputs.len(),
                pool@.len() == total - done,
                forall|k: int| 0 <= k < pool@.len() ==> (#[trigger] pool@[k])@ == inputs[done + k],
                self.wf(),
                self.config == old(self).config,
                self.factory == old(self).factory,
                self.dimension == old(self).dimension,
                self.time == old(self).time,
                self.created@ >= first,
                is_survival(former, keep, first, self.nodes@),
                is_fed(old(self), inputs, done as int, self),
            decreases total - done,
        {
            let ghost held = pool@;
            let ghost middle = *self;
            let solution = pool.remove(0);
            assert(solution@ == inputs[done as int]);
            assert forall|k: int| 0 <= k < pool@.len() implies (#[trigger] pool@[k])@ == inputs[done
                + 1 + k] by {
                assert(pool@[k] == held[k + 1]);
            }
            let time = self.time;
            self.train(solution, time, false, random);
            proof {
                lemma_trained_survival(
                    &middle,
                    solution@,
                    time,
                    false,
                    self,
                    former,
                    keep,
                    first,
                );
                assert(middle.wf() && is_fed(old(self), inputs, done as int, &middle)
                    && is_trained(&middle, inputs[done as int], middle.time, false, self));
            }
            done = done + 1;
        }
    }

    /// Retrains the map. The nodes that are not to be kept leave the map.
    /// Then, `count` times over, the solutions that the nodes hold leave
    /// their archives and are trained again, in the first pass after those
    /// of the nodes that left; the map may grow by that. In the end the
    /// nodes lose their errors, unless the map is set to keep them.
    pub fn retrain(&mut self, count: usize, keep: &Vec<bool>, random: &mut DefaultRandom)
        requires
            old(self).wf(),
            keep@.len() == old(self).nodes@.len(),
        ensures
            final(self).wf(),
            is_retrained(old(self), count, keep@, final(self)),
    {
        let ghost former = self.nodes@;
        let ghost first = self.created@;
        let mut pool = self.compact(keep);
        let ghost compacted = *self;
        let ghost dropped = views(pool@);
        proof {
            lemma_kept(former, keep@, keep@.len() as int);
            assert forall|j: int|
                0 <= j < self.nodes@.len() && (#[trigger] self.nodes@[j]).id@ < first implies exists|
                i: int,
            |
                0 <= i < former.len() && i < keep@.len() && keep@[i] && former[i].id@ == self.nodes@[j].id@
                    && former[i].coordinate == self.nodes@[j].coordinate by {
                assert(is_marked(
                    former,
                    keep@,
                    keep@.len() as int,
                    kept(former, keep@, keep@.len() as int)[j],
                ));
                let i = choose|i: int|
                    0 <= i < keep@.len() && keep@[i] && former[i] == kept(
                        former,
                        keep@,
                        keep@.len() as int,
                    )[j];
                assert(former[i].id@ == self.nodes@[j].id@);
            }
        }
        let mut pass: usize = 0;
        while pass < count
            invariant
                pass <= count,
                self.wf(),
                compacted.wf(),
                self.config == old(self).config,
                self.factory == old(self).factory,
                self.dimension == old(self).dimension,
                self.time == old(self).time,
                self.created@ >= first,
                is_survival(former, keep@, first, self.nodes@),
                pass == 0 ==> *self == compacted && views(pool@) == dropped,
                pass > 0 ==> pool@.len() == 0,
                is_rebalanced(&compacted, dropped, pass as int, self),
            decreases count - pass,
        {
            let ghost previous = *self;
            let ghost waiting = views(pool@);
            self.drain_all(&mut pool);
            let ghost drained = *self;
            assert(is_survival(former, keep@, first, self.nodes@)) by {
                assert forall|j: int|
                    0 <= j < self.nodes@.len() && (#[trigger] self.nodes@[j]).id@
                        < first implies exists|i: int|
                    0 <= i < former.len() && i < keep@.len() && keep@[i] && former[i].id@ == self.nodes@[j].id@
                        && former[i].coordinate == self.nodes@[j].coordinate by {
                    assert(self.nodes@[j]@.id == previous.nodes@[j]@.id);
                    assert(self.nodes@[j]@.coordinate == previous.nodes@[j]@.coordinate);
                }
            }
            let ghost inputs = views(pool@);
            assert(inputs == pass_inputs(dropped, pass as int + 1, &previous)) by {
                if pass > 0 {
                    assert(waiting =~= Seq::<S::V>::empty());
                    assert(Seq::<S::V>::empty() + held_solutions(
                        previous.nodes@,
                        previous.nodes@.len() as int,
                    ) =~= held_solutions(previous.nodes@, previous.nodes@.len() as int));
                }
            }
            self.feed(&mut pool, random, Ghost(former), Ghost(keep@), Ghost(first));
            proof {
                let passes = pass as int + 1;
                assert(is_rebalanced(&compacted, dropped, passes - 1, &previous));
                assert(drained.wf() && is_drained(&previous, &drained) && is_fed(
                    &drained,
                    pass_inputs(dropped, passes, &previous),
                    pass_inputs(dropped, passes, &previous).len() as int,
                    self,
                ));
                assert(is_pass(&previous, dropped, passes, self));
                assert(is_rebalanced(&compacted, dropped, passes, self));
            }
            pass = pass + 1;
        }
        let ghost rebalanced = *self;
        if !self.config.has_initial_error {
            let ghost before_clear = self.nodes@;
            self.clear_errors();
            assert(is_survival(former, keep@, first, self.nodes@)) by {
                assert forall|j: int|
                    0 <= j < self.nodes@.len() && (#[trigger] self.nodes@[j]).id@
                        < first implies exists|i: int|
                    0 <= i < former.len() && i < keep@.len() && keep@[i] && former[i].id@ == self.nodes@[j].id@
                        && former[i].coordinate == self.nodes@[j].coordinate by {
                    assert(self.nodes@[j]@.id == before_clear[j]@.id);
                    assert(self.nodes@[j]@.coordinate == before_clear[j]@.coordinate);
                }
            }
        }
        assert(rebalanced.wf() && is_rebalanced(
            &compacted,
            dropped_solutions(old(self).nodes@, keep@, keep@.len() as int),
            count as int,
            &rebalanced,
        ) && is_cleared(&rebalanced, self));
        assert(is_finished(
            &compacted,
            dropped_solutions(old(self).nodes@, keep@, keep@.len() as int),
            count as int,
            self,
        ));
        assert(compacted.wf() && is_compacted(old(self), keep@, &compacted));
    }

    /// Stores a new input of the given generation in the map.
    pub fn store(&mut self, input: S, generation: usize, random: &mut DefaultRandom)
        requires
            old(self).wf(),
        ensures
            final(self).wf(),
            is_trained(old(self), input@, generation, true, final(self)),
    {
        self.train(input, generation, true, random);
    }
}

/// Whether a map is the one that four inputs seed: a square of four nodes
/// without errors, each with the weights of its input and the input in its
/// archive, at time zero.
pub open spec fn is_seed_map<O, S: Solution>(
    map: &Network<O, S>,
    roots: Seq<S::V>,
    config: NetworkConfig,
    factory: IndividualStorageFactory<O>,
) -> bool where O: Objective<S> {
    &&& map.config == config
    &&& map.factory == factory
    &&& map.time == 0
    &&& map.dimension == S::weights_of(roots[0]).len()
    &&& map.nodes@.len() == 4
    &&& forall|i: int|
        0 <= i < 4 ==> {
            &&& (#[trigger] map.nodes@[i]).coordinate == seed_place(i)
            &&& map.nodes@[i].weights@ == padded(S::weights_of(roots[i]), map.dimension as int)
            &&& map.nodes@[i].error == 0
            &&& map.nodes@[i].last_hit == 0
            &&& map.nodes@[i].storage.members() == seq![roots[i]]
        }
}

/// The solutions of those of the first `count` nodes that are not to be
/// kept, node by node, the best of each first.
pub open spec fn dropped_solutions<O, S: Solution>(
    nodes: Seq<Node<O, S>>,
    keep: Seq<bool>,
    count: int,
) -> Seq<S::V> where O: Objective<S>
    decreases count,
{
    if count <= 0 {
        Seq::<S::V>::empty()
    } else if keep[count - 1] {
        dropped_solutions(nodes, keep, count - 1)
    } else {
        dropped_solutions(nodes, keep, count - 1) + nodes[count - 1].storage.members()
    }
}

/// The solutions of the first `count` nodes, node by node, the best of each
/// first.
pub open spec fn held_solutions<O, S: Solution>(nodes: Seq<Node<O, S>>, count: int) -> Seq<
    S::V,
> where O: Objective<S>
    decreases count,
{
    if count <= 0 {
        Seq::<S::V>::empty()
    } else {
        held_solutions(nodes, count - 1) + nodes[count - 1].storage.members()
    }
}

/// Whether the map `after` is the map `before` without the nodes that are
/// not to be kept.
pub open spec fn is_compacted<O, S: Solution>(
    before: &Network<O, S>,
    keep: Seq<bool>,
    after: &Network<O, S>,
) -> bool where O: Objective<S> {
    &&& after.config == before.config
    &&& after.factory == before.factory
    &&& after.dimension == before.dimension
    &&& after.time == before.time
    &&& after.created == before.created
    &&& after.nodes@ == kept(before.nodes@, keep, keep.len() as int)
}

/// Whether the map `after` is the map `before` with the archives of all
/// nodes emptied.
pub open spec fn is_drained<O, S: Solution>(before: &Network<O, S>, after: &Network<O, S>) -> bool where
    O: Objective<S>,
 {
    &&& after.config == before.config
    &&& after.factory == before.factory
    &&& after.dimension == before.dimension
    &&& after.time == before.time
    &&& after.created == before.created
    &&& after.nodes@.len() == before.nodes@.len()
    &&& forall|i: int|
        0 <= i < before.nodes@.len() ==> (#[trigger] after.nodes@[i])@ == (NodeView {
            members: Seq::<S::V>::empty(),
            ..before.nodes@[i]@
        })
}

/// Whether training the map `before` with the first `count` solutions of a
/// pool, one after the other and none of them as a new input, gives the map
/// `after`.
pub open spec fn is_fed<O, S: Solution>(
    before: &Network<O, S>,
    pool: Seq<S::V>,
    count: int,
    after: &Network<O, S>,
) -> bool where O: Objective<S>
    decreases count,
{
    if count <= 0 {
        *after == *before
    } else {
        exists|middle: Network<O, S>|
            middle.wf() && is_fed(before, pool, count - 1, &middle) && is_trained(
                &middle,
                pool[count - 1],
                middle.time,
                false,
                after,
            )
    }
}

/// The solutions that a pass of a retraining trains again: those that the
/// nodes of the map held before the pass, in the first pass after those of
/// the nodes that left the map.
pub open spec fn pass_inputs<O, S: Solution>(
    dropped: Seq<S::V>,
    pass: int,
    previous: &Network<O, S>,
) -> Seq<S::V> where O: Objective<S> {
    (if pass == 1 {
        dropped
    } else {
        Seq::<S::V>::empty()
    }) + held_solutions(previous.nodes@, previous.nodes@.len() as int)
}

/// Whether one pass of a retraining turns the map `previous` into the map
/// `after`: the archives of all nodes are emptied, and the solutions are
/// trained again.
pub open spec fn is_pass<O, S: Solution>(
    previous: &Network<O, S>,
    dropped: Seq<S::V>,
    pass: int,
    after: &Network<O, S>,
) -> bool where O: Objective<S> {
    exists|drained: Network<O, S>|
        {
            &&& drained.wf()
            &&& #[trigger] is_drained(previous, &drained)
            &&& is_fed(
                &drained,
                pass_inputs(dropped, pass, previous),
                pass_inputs(dropped, pass, previous).len() as int,
                after,
            )
        }
}

/// Whether `passes` passes of a retraining turn the map `before` into the
/// map `after`.
pub open spec fn is_rebalanced<O, S: Solution>(
    before: &Network<O, S>,
    dropped: Seq<S::V>,
    passes: int,
    after: &Network<O, S>,
) -> bool where O: Objective<S>
    decreases passes,
{
    if passes <= 0 {
        *after == *before
    } else {
        exists|previous: Network<O, S>|
            {
                &&& previous.wf()
                &&& is_rebalanced(before, dropped, passes - 1, &previous)
                &&& #[trigger] is_pass(&previous, dropped, passes, after)
            }
    }
}

/// Whether the map `after` is what `count` passes of a retraining and the
/// dropping of the errors make of the map `compacted`.
pub open spec fn is_finished<O, S: Solution>(
    compacted: &Network<O, S>,
    dropped: Seq<S::V>,
    count: int,
    after: &Network<O, S>,
) -> bool where O: Objective<S> {
    exists|rebalanced: Network<O, S>|
        {
            &&& rebalanced.wf()
            &&& is_rebalanced(compacted, dropped, count, &rebalanced)
            &&& #[trigger] is_cleared(&rebalanced, after)
        }
}

/// Whether the map `after` is the map `before` with the errors of its nodes
/// dropped, unless the map is set to keep them.
pub open spec fn is_cleared<O, S: Solution>(before: &Network<O, S>, after: &Network<O, S>) -> bool where
    O: Objective<S>,
 {
    if before.config.has_initial_error {
        *after == *before
    } else {
        &&& after.config == before.config
        &&& after.factory == before.factory
        &&& after.dimension == before.dimension
        &&& after.time == before.time
        &&& after.created == before.created
        &&& after.nodes@.len() == before.nodes@.len()
        &&& forall|i: int|
            0 <= i < before.nodes@.len() ==> (#[trigger] after.nodes@[i])@ == (NodeView {
                error: 0,
                ..before.nodes@[i]@
            })
    }
}

/// Whether retraining the map `before` gives the map `after`: the nodes that
/// are not to be kept leave, `count` passes train the solutions again, and
/// the errors are dropped unless the map is set to keep them. So the
/// settings and the time stay; each node of `after` that `before` had is one
/// of those that were to be kept, at its place; and where the solutions are
/// not trained again, the nodes are those that were to be kept, as they
/// were.
pub open spec fn is_retrained<O, S: Solution>(
    before: &Network<O, S>,
    count: usize,
    keep: Seq<bool>,
    after: &Network<O, S>,
) -> bool where O: Objective<S> {
    &&& after.config == before.config
    &&& after.factory == before.factory
    &&& after.dimension == before.dimension
    &&& after.time == before.time
    &&& is_survival(before.nodes@, keep, before.created@, after.nodes@)
    &&& !after.config.has_initial_error ==> forall|j: int|
        0 <= j < after.nodes@.len() ==> (#[trigger] after.nodes@[j]).error == 0
    &&& exists|compacted: Network<O, S>|
        {
            &&& compacted.wf()
            &&& #[trigger] is_compacted(before, keep, &compacted)
            &&& is_finished(
                &compacted,
                dropped_solutions(before.nodes@, keep, keep.len() as int),
                count as int,
                after,
            )
        }
    &&& count == 0 ==> after.nodes@.len() == kept(before.nodes@, keep, keep.len() as int).len()
    &&& count == 0 ==> forall|j: int|
        0 <= j < after.nodes@.len() ==> (#[trigger] after.nodes@[j])@ == (NodeView {
            error: if after.config.has_initial_error {
                kept(before.nodes@, keep, keep.len() as int)[j].error
            } else {
                0
            },
            ..kept(before.nodes@, keep, keep.len() as int)[j]@
        })
}

/// The place of each of the four nodes that a map starts with.
pub open spec fn seed_place(i: int) -> Coordinate {
    if i == 0 {
        Coordinate(0, 0)
    } else if i == 1 {
        Coordinate(0, 1)
    } else if i == 2 {
        Coordinate(1, 0)
    } else {
        Coordinate(1, 1)
    }
}

/// Whether storing the first `count` inputs of a batch in the map `before`,
/// one after the other, gives the map `after`.
pub open spec fn is_stored_all<O, S: Solution>(
    before: &Network<O, S>,
    batch: Seq<S::V>,
    count: int,
    generation: usize,
    after: &Network<O, S>,
) -> bool where O: Objective<S>
    decreases count,
{
    if count <= 0 {
        *after == *before
    } else {
        exists|middle: Network<O, S>|
            middle.wf() && is_stored_all(before, batch, count - 1, generation, &middle)
                && is_trained(&middle, batch[count - 1], generation, true, after)
    }
}

/// Those of the first `count` nodes that are to be kept, in their order.
pub open spec fn kept<O, S: Solution>(nodes: Seq<Node<O, S>>, keep: Seq<bool>, count: int) -> Seq<
    Node<O, S>,
> where O: Objective<S>
    decreases count,
{
    if count <= 0 {
        Seq::<Node<O, S>>::empty()
    } else if keep[count - 1] {
        kept(nodes, keep, count - 1).push(nodes[count - 1])
    } else {
        kept(nodes, keep, count - 1)
    }
}

/// Whether no two of the nodes share a place or a number.
pub open spec fn are_apart<O, S: Solution>(nodes: Seq<Node<O, S>>) -> bool where O: Objective<S> {
    forall|i: int, j: int|
        0 <= i < nodes.len() && 0 <= j < nodes.len() && i != j ==> {
            &&& (#[trigger] nodes[i]).coordinate != (#[trigger] nodes[j]).coordinate
            &&& nodes[i].id@ != nodes[j].id@
        }
}

/// Whether a node is one of the first `count` nodes and marked to be kept.
pub open spec fn is_marked<O, S: Solution>(
    nodes: Seq<Node<O, S>>,
    keep: Seq<bool>,
    count: int,
    node: Node<O, S>,
) -> bool where O: Objective<S> {
    exists|i: int| 0 <= i < count && keep[i] && nodes[i] == node
}

/// Each of the nodes that are kept is one of the nodes, marked to be kept;
/// and no two of them share a place or a number where no two of the nodes
/// do.
pub proof fn lemma_kept<O, S: Solution>(nodes: Seq<Node<O, S>>, keep: Seq<bool>, count: int) where
    O: Objective<S>,

    requires
        0 <= count <= nodes.len(),
        count <= keep.len(),
    ensures
        kept(nodes, keep, count).len() <= count,
        forall|k: int|
            0 <= k < kept(nodes, keep, count).len() ==> is_marked(
                nodes,
                keep,
                count,
                #[trigger] kept(nodes, keep, count)[k],
            ),
        are_apart(nodes) ==> are_apart(kept(nodes, keep, count)),
    decreases count,
{
    if count > 0 {
        lemma_kept(nodes, keep, count - 1);
        let before = kept(nodes, keep, count - 1);
        let all = kept(nodes, keep, count);
        assert forall|k: int| 0 <= k < all.len() implies is_marked(
            nodes,
            keep,
            count,
            #[trigger] all[k],
        ) by {
            if k < before.len() {
                assert(is_marked(nodes, keep, count - 1, before[k]));
                let i = choose|i: int| 0 <= i < count - 1 && keep[i] && nodes[i] == before[k];
                assert(0 <= i < count && keep[i] && nodes[i] == all[k]);
            } else {
                assert(keep[count - 1] && nodes[count - 1] == all[k]);
            }
        }
        if are_apart(nodes) {
            assert forall|k: int, j: int|
                0 <= k < all.len() && 0 <= j < all.len() && k != j implies {
                &&& (#[trigger] all[k]).coordinate != (#[trigger] all[j]).coordinate
                &&& all[k].id@ != all[j].id@
            } by {
                if k < before.len() && j < before.len() {
                    assert(before[k] == all[k] && before[j] == all[j]);
                } else {
                    let other = if k < before.len() {
                        k
                    } else {
                        j
                    };
                    assert(is_marked(nodes, keep, count - 1, before[other]));
                    let i = choose|i: int|
                        0 <= i < count - 1 && keep[i] && nodes[i] == before[other];
                    assert(nodes[i].coordinate != nodes[count - 1].coordinate);
                }
            }
        }
    }
}

/// Whether the nodes `after` hold no leftover of the nodes `before` that
/// was not to be kept: each of them that the map had before, with a number
/// below `first`, is one of those that were to be kept, at its place.
pub open spec fn is_survival<O, S: Solution>(
    before: Seq<Node<O, S>>,
    keep: Seq<bool>,
    first: nat,
    after: Seq<Node<O, S>>,
) -> bool where O: Objective<S> {
    forall|j: int|
        0 <= j < after.len() && (#[trigger] after[j]).id@ < first ==> exists|i: int|
            0 <= i < before.len() && i < keep.len() && keep[i] && before[i].id@ == after[j].id@
                && before[i].coordinate == after[j].coordinate
}

/// Training a map keeps it free of leftovers: the nodes that it had keep
/// their numbers and places, and the nodes that it gains get new numbers.
pub proof fn lemma_trained_survival<O, S: Solution>(
    before: &Network<O, S>,
    input: S::V,
    generation: usize,
    is_new: bool,
    after: &Network<O, S>,
    former: Seq<Node<O, S>>,
    keep: Seq<bool>,
    first: nat,
) where O: Objective<S>
    requires
        is_trained(before, input, generation, is_new, after),
        is_survival(former, keep, first, before.nodes@),
        before.created@ >= first,
    ensures
        is_survival(former, keep, first, after.nodes@),
        after.created@ >= first,
{
    let total = before.nodes@.len() as int;
    if total > 0 {
        let x = S::weights_of(input);
        let b = bmu_upto(before.nodes@, x, total);
        assert forall|j: int|
            0 <= j < after.nodes@.len() && (#[trigger] after.nodes@[j]).id@ < first implies exists|
            i: int,
        |
            0 <= i < former.len() && i < keep.len() && keep[i] && former[i].id@ == after.nodes@[j].id@
                && former[i].coordinate == after.nodes@[j].coordinate by {
            if j < total {
                assert(after.nodes@[j]@ == trained_node(
                    before,
                    j,
                    b,
                    input,
                    generation,
                    is_new,
                ));
                assert(after.nodes@[j]@.id == before.nodes@[j]@.id);
                assert(before.nodes@[j].id@ < first);
            } else {
                let trained = after.nodes@.subrange(0, total);
                let added = sprouts(trained, total, b, 4);
                assert(is_sprout(
                    after.nodes@[total + (j - total)],
                    added[j - total],
                    before.created@ + (j - total),
                    if is_new {
                        generation
                    } else {
                        before.time
                    },
                    &before.factory,
                ));
            }
        }
    }
}

/// Whether a node is what a sprout grows into: it lies at the sprout's place
/// with the sprout's weights, without error and without solutions, stamped
/// with `stamp`, and it has the given number.
pub open spec fn is_sprout<O, S: Solution>(
    node: Node<O, S>,
    sprout: Sprout,
    id: int,
    stamp: usize,
    factory: &IndividualStorageFactory<O>,
) -> bool where O: Objective<S> {
    &&& node.id@ == id
    &&& node.coordinate == sprout.coordinate
    &&& node.weights@ == sprout.weights
    &&& node.error == 0
    &&& node.last_hit == stamp
    &&& node.storage.members() == Seq::<S::V>::empty()
    &&& node.storage.max_population_size == factory.node_size
    &&& node.storage.selection_size == factory.node_size
    &&& agree::<S, O>(&node.storage.objective, &factory.objective)
}

/// Whether `after` is `nodes` grown around the node at position `b`: the
/// nodes themselves, and after them what the sprouts around that node grow
/// into, numbered from `first` on.
pub open spec fn is_sprouted<O, S: Solution>(
    nodes: Seq<Node<O, S>>,
    b: int,
    stamp: usize,
    first: nat,
    factory: &IndividualStorageFactory<O>,
    after: Seq<Node<O, S>>,
    created: nat,
) -> bool where O: Objective<S> {
    let added = sprouts(nodes, nodes.len() as int, b, 4);
    &&& after.len() == nodes.len() + added.len()
    &&& created == first + added.len()
    &&& forall|j: int|
        0 <= j < added.len() ==> is_sprout(
            #[trigger] after[nodes.len() + j],
            added[j],
            first + j,
            stamp,
            factory,
        )
}

/// A node of a map after an input was trained that matched the node at
/// position `b` best.
pub open spec fn trained_node<O, S: Solution>(
    map: &Network<O, S>,
    i: int,
    b: int,
    input: S::V,
    generation: usize,
    is_new: bool,
) -> NodeView<O, S::V> where O: Objective<S> {
    let node = map.nodes@[i]@;
    let x = S::weights_of(input);
    let gathered = error_sum(node.error as int, distance_of(node.weights, x));
    let threshold = threshold_of(map.config, map.dimension);
    NodeView {
        id: node.id,
        coordinate: node.coordinate,
        weights: adjusted(node.weights, x, map.rate_for(b, i)),
        error: if i != b {
            node.error
        } else if gathered > threshold {
            (threshold / 2) as u128
        } else {
            gathered as u128
        },
        last_hit: if i == b && is_new {
            generation
        } else {
            node.last_hit
        },
        objective: node.objective,
        capacity: node.capacity,
        selection_size: node.selection_size,
        members: if i == b {
            after_add(&node.objective, node.members, input, node.capacity as int)
        } else {
            node.members
        },
    }
}

/// Whether training the map `before` with an input gives the map `after`.
pub open spec fn is_trained<O, S: Solution>(
    before: &Network<O, S>,
    input: S::V,
    generation: usize,
    is_new: bool,
    after: &Network<O, S>,
) -> bool where O: Objective<S> {
    let x = S::weights_of(input);
    let stamp = if is_new {
        generation
    } else {
        before.time
    };
    let total = before.nodes@.len() as int;
    &&& after.config == before.config
    &&& after.factory == before.factory
    &&& after.dimension == before.dimension
    &&& after.time == (if is_new && generation > before.time {
        generation
    } else {
        before.time
    })
    &&& if total == 0 {
        &&& after.nodes@.len() == 1
        &&& after.created@ == before.created@ + 1
        &&& after.nodes@[0].id@ == before.created@
        &&& after.nodes@[0].coordinate == Coordinate(0, 0)
        &&& after.nodes@[0].weights@ == padded(x, before.dimension as int)
        &&& after.nodes@[0].error == 0
        &&& after.nodes@[0].last_hit == stamp
        &&& after.nodes@[0].storage.members() == seq![input]
    } else {
        let b = bmu_upto(before.nodes@, x, total);
        let gathered = error_sum(
            before.nodes@[b].error as int,
            distance_of(before.nodes@[b].weights@, x),
        );
        &&& after.nodes@.len() >= total
        &&& forall|i: int|
            0 <= i < total ==> (#[trigger] after.nodes@[i])@ == trained_node(
                before,
                i,
                b,
                input,
                generation,
                is_new,
            )
        &&& if gathered > threshold_of(before.config, before.dimension) {
            is_sprouted(
                after.nodes@.subrange(0, total),
                b,
                stamp,
                before.created@,
                &before.factory,
                after.nodes@,
                after.created@,
            )
        } else {
            after.nodes@.len() == total && after.created@ == before.created@
        }
    }
}

/// A map grows only by an input that brings the error of its best matching
/// node above the growth threshold: with an error up to the threshold the
/// map has as many nodes after the training as before.
pub proof fn lemma_growth_needs_error<O, S: Solution>(
    before: &Network<O, S>,
    input: S::V,
    generation: usize,
    is_new: bool,
    after: &Network<O, S>,
) where O: Objective<S>
    requires
        is_trained(before, input, generation, is_new, after),
        before.nodes@.len() > 0,
        ({
            let best = bmu_upto(
                before.nodes@,
                S::weights_of(input),
                before.nodes@.len() as int,
            );
            error_sum(
                before.nodes@[best].error as int,
                distance_of(before.nodes@[best].weights@, S::weights_of(input)),
            ) <= threshold_of(before.config, before.dimension)
        }),
    ensures
        after.nodes@.len() == before.nodes@.len(),
{
}

/// After a map was retrained, none of its nodes is a leftover: each node
/// that the map had before was marked to be kept.
pub proof fn lemma_retrained_keeps_marked<O, S: Solution>(
    before: &Network<O, S>,
    count: usize,
    keep: Seq<bool>,
    after: &Network<O, S>,
    j: int,
) where O: Objective<S>
    requires
        is_retrained(before, count, keep, after),
        0 <= j < after.nodes@.len(),
        after.nodes@[j].id@ < before.created@,
    ensures
        exists|i: int|
            0 <= i < before.nodes@.len() && i < keep.len() && keep[i] && before.nodes@[i].id@ == after.nodes@[j].id@
                && before.nodes@[i].coordinate == after.nodes@[j].coordinate,
{
}

/// The position of a place among the first nodes of two sequences is the
/// same where the sequences agree in them.
pub proof fn lemma_position_prefix<O, S: Solution>(
    first: Seq<Node<O, S>>,
    second: Seq<Node<O, S>>,
    place: Coordinate,
    limit: int,
    from: int,
) where O: Objective<S>
    requires
        0 <= from,
        limit <= first.len(),
        limit <= second.len(),
        forall|i: int| 0 <= i < limit ==> first[i] == second[i],
    ensures
        position_from(first, place, limit, from) == position_from(second, place, limit, from),
    decreases limit - from,
{
    if from < limit && first[from].coordinate != place {
        lemma_position_prefix(first, second, place, limit, from + 1);
    }
}

/// The weights at a place among the first nodes of two sequences are the
/// same where the sequences agree in them.
pub proof fn lemma_weights_prefix<O, S: Solution>(
    first: Seq<Node<O, S>>,
    second: Seq<Node<O, S>>,
    place: Option<Coordinate>,
    limit: int,
) where O: Objective<S>
    requires
        0 <= limit <= first.len(),
        limit <= second.len(),
        forall|i: int| 0 <= i < limit ==> first[i] == second[i],
    ensures
        weights_at(first, place, limit) == weights_at(second, place, limit),
{
    match place {
        Some(p) => {
            lemma_position_prefix(first, second, p, limit, 0);
            lemma_position_bound(first, p, limit, 0);
        },
        None => {},
    }
}

/// The position of a place lies between where the search starts and where
/// it ends.
pub proof fn lemma_position_bound<O, S: Solution>(
    nodes: Seq<Node<O, S>>,
    place: Coordinate,
    limit: int,
    from: int,
) where O: Objective<S>
    requires
        0 <= from <= limit,
    ensures
        from <= position_from(nodes, place, limit, from) <= limit,
    decreases limit - from,
{
    if from < limit && nodes[from].coordinate != place {
        lemma_position_bound(nodes, place, limit, from + 1);
    }
}

/// The place of a coordinate shifted by `steps` steps in direction `k`.
pub fn shift(from: &Coordinate, k: usize, steps: i32) -> (r: Option<Coordinate>)
    ensures
        r == shifted(*from, k as int, steps as int),
{
    let (dx, dy): (i64, i64) = if k == 0 {
        (-1, 0)
    } else if k == 1 {
        (1, 0)
    } else if k == 2 {
        (0, -1)
    } else {
        (0, 1)
    };
    assert(-0x8000_0000 <= dx * steps <= 0x8000_0000 && -0x8000_0000 <= dy * steps
        <= 0x8000_0000) by (nonlinear_arith)
        requires
            -1 <= dx <= 1,
            -1 <= dy <= 1,
            -0x8000_0000 <= steps < 0x8000_0000,
    ;
    let x: i64 = from.0 as i64 + dx * steps as i64;
    let y: i64 = from.1 as i64 + dy * steps as i64;
    if x >= i32::MIN as i64 && x <= i32::MAX as i64 && y >= i32::MIN as i64 && y <= i32::MAX as i64 {
        Some(Coordinate(x as i32, y as i32))
    } else {
        None
    }
}

/// Whether two places lie side by side.
pub fn are_neighbours(a: &Coordinate, b: &Coordinate) -> (r: bool)
    ensures
        r == is_neighbour(*a, *b),
{
    let dx: i64 = a.0 as i64 - b.0 as i64;
    let dy: i64 = a.1 as i64 - b.1 as i64;
    (dx == 0 && (dy == 1 || dy == -1)) || (dy == 0 && (dx == 1 || dx == -1))
}

} // verus!
