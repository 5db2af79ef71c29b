//! The adaptive population: an archive of the best solutions, a map that
//! spreads the others over the space of their features, and the phases that
//! steer the search from exploring the map to exploiting the archive.

use vstd::prelude::*;
use crate::algorithms::gsom::network::{
    is_retrained, is_seed_map, is_stored_all, is_trained, position_from, Coordinate,
    IndividualStorageFactory, Network, NetworkConfig, Node,
};
use crate::algorithms::math::{
    relative_distance, relative_distance_of, scale_round, scaled_round,
    Ratio,
};
use crate::algorithms::sorting::{
    is_descending, lemma_moved_forward, moved_forward, sort_descending,
};
use crate::population::elitism::{
    after_add, after_add_all, improves, improves_any, is_front, views, Elitism,
};
use crate::population::objective::{preference, Objective, Preference, Solution};
use crate::utils::random::DefaultRandom;

verus! {

/// The settings of the population.
#[derive(Clone, Copy, Debug, PartialEq, Eq)]
pub struct RosomaxaConfig {
    /// How many solutions a selection holds.
    pub selection_size: usize,
    /// How many solutions the archive of the best holds.
    pub elite_size: usize,
    /// How many solutions the archive of a node of the map holds.
    pub node_size: usize,
    /// The growth threshold of the map per weight dimension: minus the
    /// logarithm of one less the spread factor, in squared weight units.
    pub spread_threshold: u64,
    /// The distribution factor of the map.
    pub distribution_factor: Ratio,
    /// The probability with which the archive of a new node gets a shuffled
    /// objective.
    pub objective_reshuffling: Ratio,
    /// The learning rate of the map.
    pub learning_rate: Ratio,
    /// The number of nodes that the map is meant to keep.
    pub rebalance_memory: usize,
    /// How many times the map is trained anew when it is pruned.
    pub rebalance_count: usize,
    /// The share of the search that is spent exploring.
    pub exploration_ratio: Ratio,
}

impl RosomaxaConfig {
    /// The default settings for the given selection size. The growth
    /// threshold is that of the spread factor one quarter for weights in
    /// thousandths.
    pub fn new_with_defaults(selection_size: usize) -> (r: Self)
        ensures
            r == (RosomaxaConfig {
                selection_size,
                elite_size: 2,
                node_size: 2,
                spread_threshold: 287_682,
                distribution_factor: 250_000,
                objective_reshuffling: 10_000,
                learning_rate: 100_000,
                rebalance_memory: 100,
                rebalance_count: 2,
                exploration_ratio: 900_000,
            }),
    {
        RosomaxaConfig {
            selection_size,
            elite_size: 2,
            node_size: 2,
            spread_threshold: 287_682,
            distribution_factor: 250_000,
            objective_reshuffling: 10_000,
            learning_rate: 100_000,
            rebalance_memory: 100,
            rebalance_count: 2,
            exploration_ratio: 900_000,
        }
    }

    /// Whether the settings are above their thresholds.
    pub open spec fn is_valid(&self) -> bool {
        self.elite_size >= 1 && self.node_size >= 1 && self.selection_size >= 2
    }
}

/// How fast the search goes.
#[derive(Clone, Copy, Debug, PartialEq, Eq)]
pub enum HeuristicSpeed {
    /// Slowly: at the given share of a moderate speed.
    Slow(Ratio),
    /// At a moderate speed.
    Moderate,
}

/// What the search tells the population of each generation.
#[derive(Clone, Copy, Debug, PartialEq, Eq)]
pub struct HeuristicStatistics {
    /// The number of the generation.
    pub generation: usize,
    /// How far the search has come, from nothing to one.
    pub termination_estimate: Ratio,
    /// One less the logistic function, ten times as steep as the standard
    /// one and centred at one half, of the termination estimate brought
    /// between nothing and one.
    pub termination_decay: Ratio,
    /// The share of the last thousand generations that improved the best
    /// known solution.
    pub improvement_1000_ratio: Ratio,
    /// How fast the search goes.
    pub speed: HeuristicSpeed,
}

/// The phase of the search that a selection serves.
#[derive(Clone, Copy, Debug, PartialEq, Eq, Structural)]
pub enum SelectionPhase {
    /// The population gathers its first solutions.
    Initial,
    /// The population spreads the search over its map.
    Exploration,
    /// The population keeps the search to the best solutions.
    Exploitation,
}

/// The selection size at the given speed: at a slow speed the share of the
/// configured size, rounded, and one at least; else the configured size.
pub open spec fn tuned_selection_size(selection_size: usize, speed: HeuristicSpeed) -> int {
    match speed {
        HeuristicSpeed::Slow(ratio) => {
            let scaled = scaled_round(selection_size as int, ratio as int);
            if scaled < 1 {
                1
            } else if scaled > usize::MAX {
                usize::MAX as int
            } else {
                scaled
            }
        },
        HeuristicSpeed::Moderate => selection_size as int,
    }
}

/// The selection size at the given speed.
pub fn tune_selection_size(selection_size: usize, speed: &HeuristicSpeed) -> (r: usize)
    ensures
        r == tuned_selection_size(selection_size, *speed),
{
    match speed {
        HeuristicSpeed::Slow(ratio) => {
            let scaled = scale_round(selection_size as u64, *ratio);
            if scaled < 1 {
                1
            } else if scaled > usize::MAX as u64 {
                usize::MAX
            } else {
                scaled as usize
            }
        },
        HeuristicSpeed::Moderate => selection_size,
    }
}

/// Whether a search with the given termination estimate still explores at
/// the given speed: the estimate is below the exploration ratio, at a slow
/// speed below the share of it that the speed gives.
pub open spec fn is_exploring(
    termination_estimate: Ratio,
    exploration_ratio: Ratio,
    speed: HeuristicSpeed,
) -> bool {
    match speed {
        HeuristicSpeed::Slow(ratio) => termination_estimate * 1_000_000 < exploration_ratio
            * ratio,
        HeuristicSpeed::Moderate => termination_estimate < exploration_ratio,
    }
}

/// Tells whether a search with the given termination estimate still explores
/// at the given speed.
pub fn keeps_exploring(
    termination_estimate: Ratio,
    exploration_ratio: Ratio,
    speed: &HeuristicSpeed,
) -> (r: bool)
    ensures
        r == is_exploring(termination_estimate, exploration_ratio, *speed),
{
    match speed {
        HeuristicSpeed::Slow(ratio) => {
            assert(exploration_ratio * *ratio <= 0xffff_ffff_ffff_ffff * 0xffff_ffff_ffff_ffff)
                by (nonlinear_arith)
                requires
                    0 <= exploration_ratio <= 0xffff_ffff_ffff_ffff,
                    0 <= *ratio <= 0xffff_ffff_ffff_ffff,
            ;
            (termination_estimate as u128) * 1_000_000 < (exploration_ratio as u128) * (
            *ratio as u128)
        },
        HeuristicSpeed::Moderate => termination_estimate < exploration_ratio,
    }
}

/// A place of the map with the distance of its best solution to the best
/// known one and the number of generations since it was last hit.
pub type CoordinateInfo = (Coordinate, u64, usize);

/// A count brought into the range of `usize`.
pub open spec fn as_count(value: int) -> int {
    if value > usize::MAX {
        usize::MAX as int
    } else {
        value
    }
}

/// The number of nodes that the map keeps for sure when it is pruned: with
/// many improvements the configured number and its share that the decay of
/// the termination estimate gives, rounded to the nearest whole; with fewer
/// twice, with few thrice, else four times the configured number.
pub open spec fn keep_size_of(statistics: HeuristicStatistics, rebalance_memory: usize) -> int {
    let base = rebalance_memory as int;
    if statistics.improvement_1000_ratio > 200_000 {
        as_count(base + scaled_round(base, statistics.termination_decay as int))
    } else if statistics.improvement_1000_ratio > 100_000 {
        as_count(2 * base)
    } else if statistics.improvement_1000_ratio > 10_000 {
        as_count(3 * base)
    } else {
        as_count(4 * base)
    }
}

/// The number of nodes that the map keeps for sure when it is pruned.
pub fn get_keep_size(statistics: &HeuristicStatistics, rebalance_memory: usize) -> (r: usize)
    ensures
        r == keep_size_of(*statistics, rebalance_memory),
{
    let base: u128 = rebalance_memory as u128;
    let wide: u128 = if statistics.improvement_1000_ratio > 200_000 {
        base + scale_round(rebalance_memory as u64, statistics.termination_decay) as u128
    } else if statistics.improvement_1000_ratio > 100_000 {
        2 * base
    } else if statistics.improvement_1000_ratio > 10_000 {
        3 * base
    } else {
        4 * base
    };
    if wide > usize::MAX as u128 {
        usize::MAX
    } else {
        wide as usize
    }
}

/// The share of the places that is shuffled: with very many improvements
/// half the decay of the termination estimate, a tenth at least and a half
/// at most; with many a half; else all.
pub open spec fn shuffle_ratio_of(statistics: HeuristicStatistics) -> int {
    if statistics.improvement_1000_ratio > 500_000 {
        let half = statistics.termination_decay as int / 2;
        if half < 100_000 {
            100_000
        } else if half > 500_000 {
            500_000
        } else {
            half
        }
    } else if statistics.improvement_1000_ratio > 200_000 {
        500_000
    } else {
        1_000_000
    }
}

/// The number of places that are shuffled, of `length` places: their share,
/// rounded.
pub open spec fn shuffle_amount_of(statistics: HeuristicStatistics, length: usize) -> int {
    as_count(scaled_round(length as int, shuffle_ratio_of(statistics)))
}

/// The position in the distances, sorted from the greatest on, of the
/// distance below which a node is kept: the number of distances less the
/// number of nodes to keep where there are more distances than that, else
/// three quarters of the number of distances, rounded down.
pub open spec fn percentile_index(length: int, keep_size: int) -> int {
    if length > keep_size {
        length - keep_size
    } else {
        (3 * length) / 4
    }
}

/// Whether `value` stands at position `index` when the distances are sorted
/// from the greatest on.
pub open spec fn is_threshold(distances: Seq<u64>, index: int, value: u64) -> bool {
    exists|sorted: Seq<u64>|
        {
            &&& is_descending(sorted)
            &&& #[trigger] sorted.to_multiset() == distances.to_multiset()
            &&& sorted.len() == distances.len()
            &&& 0 <= index < sorted.len()
            &&& sorted[index] == value
        }
}

/// The distance of the best solution of a node to the best known fitness,
/// none where the node holds no solution.
pub open spec fn node_distance<O, S: Solution>(node: Node<O, S>, best: Seq<i64>) -> Option<
    u64,
> where O: Objective<S> {
    if node.storage.members().len() > 0 {
        Some(relative_distance_of(best, S::fitness_of(node.storage.members()[0])) as u64)
    } else {
        None
    }
}

/// The distances of those of the first `count` nodes that hold a solution,
/// in the order of the nodes.
pub open spec fn distances_upto<O, S: Solution>(
    nodes: Seq<Node<O, S>>,
    best: Seq<i64>,
    count: int,
) -> Seq<u64> where O: Objective<S>
    decreases count,
{
    if count <= 0 {
        Seq::<u64>::empty()
    } else {
        match node_distance(nodes[count - 1], best) {
            Some(distance) => distances_upto(nodes, best, count - 1).push(distance),
            None => distances_upto(nodes, best, count - 1),
        }
    }
}

/// The marks of the nodes that are kept: those whose distance is below the
/// threshold.
pub open spec fn marks<O, S: Solution>(nodes: Seq<Node<O, S>>, best: Seq<i64>, threshold: u64) -> Seq<
    bool,
> where O: Objective<S> {
    Seq::new(
        nodes.len(),
        |i: int|
            match node_distance(nodes[i], best) {
                Some(distance) => distance < threshold,
                None => false,
            },
    )
}

/// Whether pruning the map `before` gives the map `after`. Nothing happens
/// in generation zero, nor while the map has no more nodes than it keeps for
/// sure, nor where no node holds a solution. Else the map is retrained, and
/// the nodes are kept whose distance to the best known fitness is below the
/// distance at the percentile index.
pub open spec fn is_optimized<O, S: Solution>(
    before: &Network<O, S>,
    statistics: HeuristicStatistics,
    best: Seq<i64>,
    rebalance_memory: usize,
    rebalance_count: usize,
    after: &Network<O, S>,
) -> bool where O: Objective<S> {
    let keep_size = keep_size_of(statistics, rebalance_memory);
    let distances = distances_upto(before.nodes@, best, before.nodes@.len() as int);
    let index = percentile_index(distances.len() as int, keep_size);
    if statistics.generation == 0 || before.nodes@.len() <= keep_size || index
        >= distances.len() {
        *after == *before
    } else {
        exists|threshold: u64|
            #![trigger marks(before.nodes@, best, threshold)]
            is_threshold(distances, index, threshold) && is_retrained(
                before,
                rebalance_count,
                marks(before.nodes@, best, threshold),
                after,
            )
    }
}

/// The number of generations since a node was last hit.
pub open spec fn age_of(time: usize, last_hit: usize) -> usize {
    if time >= last_hit {
        (time - last_hit) as usize
    } else {
        0
    }
}

/// The places of those of the first `count` nodes that hold a solution,
/// each with the distance of the node's best solution to the best known
/// fitness and the time since the node was last hit, in the order of the
/// nodes.
pub open spec fn snapshot_upto<O, S: Solution>(
    nodes: Seq<Node<O, S>>,
    time: usize,
    best: Seq<i64>,
    count: int,
) -> Seq<CoordinateInfo> where O: Objective<S>
    decreases count,
{
    if count <= 0 {
        Seq::<CoordinateInfo>::empty()
    } else {
        match node_distance(nodes[count - 1], best) {
            Some(distance) => snapshot_upto(nodes, time, best, count - 1).push(
                (
                    nodes[count - 1].coordinate,
                    distance,
                    age_of(time, nodes[count - 1].last_hit),
                ),
            ),
            None => snapshot_upto(nodes, time, best, count - 1),
        }
    }
}

/// The number of those of the first `count` nodes that hold a solution.
pub open spec fn non_empty_count<O, S: Solution>(nodes: Seq<Node<O, S>>, count: int) -> int where
    O: Objective<S>,

    decreases count,
{
    if count <= 0 {
        0
    } else if nodes[count - 1].storage.members().len() > 0 {
        non_empty_count(nodes, count - 1) + 1
    } else {
        non_empty_count(nodes, count - 1)
    }
}

/// There are as many places in the snapshot of a map as nodes that hold a
/// solution.
pub proof fn lemma_snapshot_len<O, S: Solution>(
    nodes: Seq<Node<O, S>>,
    time: usize,
    best: Seq<i64>,
    count: int,
) where O: Objective<S>
    ensures
        snapshot_upto(nodes, time, best, count).len() == non_empty_count(nodes, count),
        count >= 0 ==> non_empty_count(nodes, count) <= count,
    decreases count,
{
    if count > 0 {
        lemma_snapshot_len(nodes, time, best, count - 1);
    }
}

/// The key by which places are put in order: the distance, or the time
/// since the last hit.
pub open spec fn order_key(info: CoordinateInfo, by_distance: bool) -> int {
    if by_distance {
        info.1 as int
    } else {
        info.2 as int
    }
}

/// Whether the places stand in the order of their keys, the least first.
pub open spec fn is_ordered(coordinates: Seq<CoordinateInfo>, by_distance: bool) -> bool {
    forall|i: int, j: int|
        0 <= i < j < coordinates.len() ==> order_key(coordinates[i], by_distance) <= order_key(
            coordinates[j],
            by_distance,
        )
}

fn get_order_key(info: &CoordinateInfo, by_distance: bool) -> (r: u64)
    ensures
        r == order_key(*info, by_distance),
{
    if by_distance {
        info.1
    } else {
        info.2 as u64
    }
}

/// Puts the places in the order of their distances, or of the times since
/// their last hits, the least first.
pub fn order_coordinates(coordinates: &mut Vec<CoordinateInfo>, by_distance: bool)
    ensures
        final(coordinates)@.len() == old(coordinates)@.len(),
        final(coordinates)@.to_multiset() == old(coordinates)@.to_multiset(),
        is_ordered(final(coordinates)@, by_distance),
{
    let total: usize = coordinates.len();
    let mut sorted: usize = 0;
    while sorted < total
        invariant
            sorted <= total,
            total == coordinates@.len(),
            total == old(coordinates)@.len(),
            coordinates@.to_multiset() == old(coordinates)@.to_multiset(),
            is_ordered(coordinates@.subrange(0, sorted as int), by_distance),
        decreases total - sorted,
    {
        let ghost current = coordinates@;
        let ghost prefix = current.subrange(0, sorted as int);
        let key = get_order_key(&coordinates[sorted], by_distance);
        let mut rank: usize = 0;
        while rank < sorted && get_order_key(&coordinates[rank], by_distance) <= key
            invariant
                rank <= sorted < total,
                total == coordinates@.len(),
                current == coordinates@,
                key == order_key(current[sorted as int], by_distance),
                forall|k: int| 0 <= k < rank ==> order_key(current[k], by_distance) <= key,
            decreases sorted - rank,
        {
            rank = rank + 1;
        }
        proof {
            lemma_moved_forward(current, sorted as int, rank as int);
        }
        let taken = coordinates.remove(sorted);
        coordinates.insert(rank, taken);
        proof {
            let after = coordinates@;
            assert(after == moved_forward(current, sorted as int, rank as int));
            let next = after.subrange(0, sorted as int + 1);
            assert forall|i: int, j: int| 0 <= i < j < next.len() implies order_key(
                next[i],
                by_distance,
            ) <= order_key(next[j], by_distance) by {
                if j < rank {
                    assert(order_key(prefix[i], by_distance) <= order_key(prefix[j], by_distance));
                } else if j == rank {
                } else {
                    assert(order_key(current[rank as int], by_distance) > key);
                    if j - 1 > rank {
                        assert(order_key(prefix[rank as int], by_distance) <= order_key(
                            prefix[j - 1],
                            by_distance,
                        ));
                    }
                    if i < rank {
                        assert(order_key(prefix[i], by_distance) <= order_key(
                            prefix[j - 1],
                            by_distance,
                        ));
                    } else if i > rank {
                        assert(order_key(prefix[i - 1], by_distance) <= order_key(
                            prefix[j - 1],
                            by_distance,
                        ));
                    }
                }
            }
        }
        sorted = sorted + 1;
    }
    assert(coordinates@.subrange(0, total as int) =~= coordinates@);
}

/// What the population holds beside the archive of the best, by phase.
pub enum RosomaxaPhases<O, S> where S: Solution, O: Objective<S> {
    /// The solutions gathered so far.
    Initial { solutions: Vec<S> },
    /// The map, the places of it that a selection draws from, the statistics
    /// of the last generation and the current selection size.
    Exploration {
        network: Network<O, S>,
        coordinates: Vec<CoordinateInfo>,
        statistics: HeuristicStatistics,
        selection_size: usize,
    },
    /// The current selection size.
    Exploitation { selection_size: usize },
}

/// The adaptive population.
pub struct Rosomaxa<O, S> where S: Solution, O: Objective<S> {
    /// The objective of the search.
    pub objective: O,
    /// The settings.
    pub config: RosomaxaConfig,
    /// The archive of the best solutions.
    pub elite: Elitism<O, S>,
    /// What the current phase holds.
    pub phase: RosomaxaPhases<O, S>,
}

/// Whether a candidate may enter the archive of the best: it is not
/// strictly worse than the best known solution, if there is one.
pub open spec fn is_comparable<S: Solution, O: Objective<S>>(
    objective: &O,
    members: Seq<S::V>,
    x: S::V,
) -> bool {
    members.len() == 0 || !objective.precedes(members[0], x)
}

/// Those of the first `count` candidates of a batch that may enter an
/// archive of the best with the given members, in their order.
pub open spec fn comparable_of<S: Solution, O: Objective<S>>(
    objective: &O,
    members: Seq<S::V>,
    batch: Seq<S::V>,
    count: int,
) -> Seq<S::V>
    decreases count,
{
    if count <= 0 {
        Seq::<S::V>::empty()
    } else if is_comparable(objective, members, batch[count - 1]) {
        comparable_of(objective, members, batch, count - 1).push(batch[count - 1])
    } else {
        comparable_of(objective, members, batch, count - 1)
    }
}

impl<O, S> Rosomaxa<O, S> where S: Solution, O: Objective<S> {
    /// The phase of the population.
    pub open spec fn phase_of(&self) -> SelectionPhase {
        match self.phase {
            RosomaxaPhases::Initial { .. } => SelectionPhase::Initial,
            RosomaxaPhases::Exploration { .. } => SelectionPhase::Exploration,
            RosomaxaPhases::Exploitation { .. } => SelectionPhase::Exploitation,
        }
    }

    /// The solutions gathered in the initial phase.
    pub open spec fn gathered(&self) -> Seq<S::V> {
        match self.phase {
            RosomaxaPhases::Initial { solutions } => views(solutions@),
            _ => Seq::<S::V>::empty(),
        }
    }

    /// Whether the population is well formed: its settings are above their
    /// thresholds, its archive is well formed, of the configured sizes and
    /// ranked by the objective of the search, and holds a solution as soon
    /// as one was gathered; and, while exploring, the map is well formed and
    /// gives its nodes archives of the configured size.
    pub open spec fn wf(&self) -> bool {
        &&& self.config.is_valid()
        &&& self.elite.wf()
        &&& self.elite.objective == self.objective
        &&& self.elite.max_population_size == self.config.elite_size
        &&& self.elite.selection_size == self.config.selection_size
        &&& match self.phase {
            RosomaxaPhases::Initial { solutions } => solutions@.len() > 0
                ==> self.elite.members().len() > 0,
            RosomaxaPhases::Exploration { network, coordinates, statistics, selection_size } => {
                &&& network.wf()
                &&& network.factory.node_size == self.config.node_size
                &&& self.elite.members().len() > 0
            },
            RosomaxaPhases::Exploitation { selection_size } => true,
        }
    }

    /// Creates a population without solutions, in its initial phase. The
    /// settings must be above their thresholds: an archive of the best and
    /// archives of the nodes for one solution at least, and a selection of
    /// two at least.
    pub fn new(objective: O, config: RosomaxaConfig) -> (r: Result<Self, String>)
        ensures
            r.is_ok() <==> config.is_valid(),
            match r {
                Ok(population) => {
                    &&& population.wf()
                    &&& population.config == config
                    &&& population.objective == objective
                    &&& population.elite.members() == Seq::<S::V>::empty()
                    &&& population.phase_of() == SelectionPhase::Initial
                    &&& population.gathered() == Seq::<S::V>::empty()
                },
                Err(message) => message@
                    == "Rosomaxa algorithm requires some parameters to be above thresholds"@,
            },
    {
        if config.elite_size < 1 || config.node_size < 1 || config.selection_size < 2 {
            return Err(
                String::from_str(
                    "Rosomaxa algorithm requires some parameters to be above thresholds",
                ),
            );
        }
        let elite = Elitism::new(objective.duplicate(), config.elite_size, config.selection_size);
        let population = Rosomaxa {
            objective,
            config,
            elite,
            phase: RosomaxaPhases::Initial { solutions: Vec::new() },
        };
        assert(population.gathered() =~= Seq::<S::V>::empty());
        Ok(population)
    }

    /// The number of solutions in the archive of the best: never more than
    /// the archive is configured to hold.
    pub fn size(&self) -> (r: usize)
        requires
            self.wf(),
        ensures
            r == self.elite.members().len(),
            r <= self.config.elite_size,
    {
        self.elite.size()
    }

    /// Compares two solutions in the total order of the archive of the best.
    pub fn cmp(&self, a: &S, b: &S) -> (r: Preference)
        ensures
            r == preference(&self.elite.objective, a@, b@),
    {
        self.elite.cmp(a, b)
    }

    /// The solutions of the archive of the best with their ranks, best
    /// first: the ranks count up from zero, and each solution comes strictly
    /// before the later ones.
    pub fn ranked(&self) -> (r: Vec<(&S, usize)>)
        requires
            self.wf(),
        ensures
            r@.len() == self.elite.members().len(),
            forall|i: int|
                0 <= i < r@.len() ==> *(#[trigger] r@[i]).0 == self.elite.individuals@[i] && r@[i].1
                    == i,
            forall|i: int, j: int|
                0 <= i < j < r@.len() ==> self.elite.objective.precedes(
                    (#[trigger] r@[i]).0@,
                    (#[trigger] r@[j]).0@,
                ),
    {
        let ranked = self.elite.ranked();
        assert forall|i: int, j: int| 0 <= i < j < ranked@.len() implies self.elite.objective.precedes(
            (#[trigger] ranked@[i]).0@,
            (#[trigger] ranked@[j]).0@,
        ) by {
            assert(self.elite.objective.precedes(
                self.elite.members()[i],
                self.elite.members()[j],
            ));
        }
        ranked
    }

    /// The phase of the population.
    pub fn selection_phase(&self) -> (r: SelectionPhase)
        ensures
            r == self.phase_of(),
    {
        match &self.phase {
            RosomaxaPhases::Initial { .. } => SelectionPhase::Initial,
            RosomaxaPhases::Exploration { .. } => SelectionPhase::Exploration,
            RosomaxaPhases::Exploitation { .. } => SelectionPhase::Exploitation,
        }
    }

    fn is_comparable_with_best_known(&self, individual: &S) -> (r: bool)
        requires
            self.wf(),
        ensures
            r == is_comparable(&self.objective, self.elite.members(), individual@),
    {
        match self.elite.best() {
            Some(best_known) => {
                assert(best_known@ == self.elite.members()[0]);
                self.objective.total_order(individual, best_known) != Preference::Greater
            },
            None => true,
        }
    }

    /// The number of places that are shuffled, of `length` places.
    pub fn calculate_shuffle_amount(statistics: &HeuristicStatistics, length: usize) -> (r: usize)
        ensures
            r == shuffle_amount_of(*statistics, length),
    {
        let ratio: Ratio = if statistics.improvement_1000_ratio > 500_000 {
            let half = statistics.termination_decay / 2;
            if half < 100_000 {
                100_000
            } else if half > 500_000 {
                500_000
            } else {
                half
            }
        } else if statistics.improvement_1000_ratio > 200_000 {
            500_000
        } else {
            1_000_000
        };
        let amount = scale_round(length as u64, ratio);
        if amount > usize::MAX as u64 {
            usize::MAX
        } else {
            amount as usize
        }
    }

    /// Creates the map from the first four solutions.
    pub fn create_network(
        objective: O,
        config: &RosomaxaConfig,
        individuals: Vec<S>,
        random: &mut DefaultRandom,
    ) -> (r: Network<O, S>)
        requires
            individuals@.len() == 4,
            config.node_size >= 1,
        ensures
            r.wf(),
            is_seed_map(
                &r,
                views(individuals@),
                map_config_of(*config),
                IndividualStorageFactory {
                    node_size: config.node_size,
                    reshuffling_probability: config.objective_reshuffling,
                    objective,
                },
            ),
    {
        let storage_factory = IndividualStorageFactory {
            node_size: config.node_size,
            reshuffling_probability: config.objective_reshuffling,
            objective,
        };
        Network::new(
            individuals,
            NetworkConfig {
                growth_threshold: config.spread_threshold,
                distribution_factor: config.distribution_factor,
                learning_rate: config.learning_rate,
                rebalance_memory: config.rebalance_memory,
                has_initial_error: true,
            },
            storage_factory,
            random,
        )
    }

    /// Prunes the map: unless the generation is zero or the map has no more
    /// nodes than it keeps for sure, the nodes far from the best known
    /// fitness leave, and the map is retrained.
    pub fn optimize_network(
        network: &mut Network<O, S>,
        statistics: &HeuristicStatistics,
        best_fitness: &Vec<i64>,
        rebalance_memory: usize,
        rebalance_count: usize,
        random: &mut DefaultRandom,
    )
        requires
            old(network).wf(),
        ensures
            final(network).wf(),
            final(network).factory == old(network).factory,
            final(network).config == old(network).config,
            is_optimized(
                old(network),
                *statistics,
                best_fitness@,
                rebalance_memory,
                rebalance_count,
                final(network),
            ),
    {
        let keep_size = get_keep_size(statistics, rebalance_memory);
        if statistics.generation == 0 || network.size() <= keep_size {
            return ;
        }
        let ghost nodes = network.nodes@;
        let total: usize = network.nodes.len();
        let mut distances: Vec<u64> = Vec::new();
        let mut node_distances: Vec<Option<u64>> = Vec::new();
        let mut i: usize = 0;
        while i < total
            invariant
                i <= total,
                *network == *old(network),
                nodes == network.nodes@,
                total == nodes.len(),
                distances@ == distances_upto(nodes, best_fitness@, i as int),
                node_distances@.len() == i,
                forall|k: int|
                    0 <= k < i ==> node_distances@[k] == node_distance(nodes[k], best_fitness@),
            decreases total - i,
        {
            let node = &network.nodes[i];
            match node.storage.best() {
                Some(individual) => {
                    assert(individual@ == node.storage.members()[0]);
                    let fitness = individual.get_fitness();
                    let distance = relative_distance(best_fitness, &fitness);
                    distances.push(distance);
                    node_distances.push(Some(distance));
                },
                None => {
                    node_distances.push(None);
                },
            }
            i = i + 1;
        }
        let ghost unsorted = distances@;
        sort_descending(&mut distances);
        let length: usize = distances.len();
        let index: usize = if length > keep_size {
            length - keep_size
        } else {
            (length / 4) * 3 + ((length % 4) * 3) / 4
        };
        assert(index == percentile_index(length as int, keep_size as int));
        if index < length {
            let threshold = distances[index];
            assert(is_threshold(unsorted, index as int, threshold)) by {
                assert(distances@.to_multiset() == unsorted.to_multiset());
            }
            let mut keep: Vec<bool> = Vec::new();
            let mut k: usize = 0;
            while k < total
                invariant
                    k <= total,
                    total == nodes.len(),
                    node_distances@.len() == total,
                    forall|j: int|
                        0 <= j < total ==> node_distances@[j] == node_distance(
                            nodes[j],
                            best_fitness@,
                        ),
                    keep@.len() == k,
                    forall|j: int|
                        0 <= j < k ==> keep@[j] == marks(nodes, best_fitness@, threshold)[j],
                decreases total - k,
            {
                let kept = match node_distances[k] {
                    Some(distance) => distance < threshold,
                    None => false,
                };
                keep.push(kept);
                k = k + 1;
            }
            assert(keep@ =~= marks(nodes, best_fitness@, threshold));
            network.retrain(rebalance_count, &keep, random);
        }
    }

    /// Lists the places of the map anew: one for each node that holds a
    /// solution, in the order of the nodes, with the distance of the node's
    /// best solution to the best known fitness and the time since the node
    /// was last hit.
    pub fn snapshot_populations(
        network: &Network<O, S>,
        coordinates: &mut Vec<CoordinateInfo>,
        best_fitness: &Vec<i64>,
    )
        ensures
            final(coordinates)@ == snapshot_upto(
                network.nodes@,
                network.time,
                best_fitness@,
                network.nodes@.len() as int,
            ),
            final(coordinates)@.len() == non_empty_count(
                network.nodes@,
                network.nodes@.len() as int,
            ),
    {
        coordinates.clear();
        let total: usize = network.nodes.len();
        let time = network.get_current_time();
        let mut i: usize = 0;
        assert(coordinates@ =~= snapshot_upto(network.nodes@, network.time, best_fitness@, 0));
        while i < total
            invariant
                i <= total,
                total == network.nodes@.len(),
                time == network.time,
                coordinates@ == snapshot_upto(
                    network.nodes@,
                    network.time,
                    best_fitness@,
                    i as int,
                ),
            decreases total - i,
        {
            let node = &network.nodes[i];
            match node.storage.best() {
                Some(individual) => {
                    assert(individual@ == node.storage.members()[0]);
                    let fitness = individual.get_fitness();
                    coordinates.push(
                        (
                            node.coordinate,
                            relative_distance(best_fitness, &fitness),
                            node.get_last_hits(time),
                        ),
                    );
                },
                None => {},
            }
            i = i + 1;
        }
        proof {
            lemma_snapshot_len(network.nodes@, network.time, best_fitness@, total as int);
        }
    }

    /// Prepares the places for the shuffle and tells how many of them are to
    /// be shuffled. Where that is all of them, the places stay as they are.
    /// Else they are put in order, the least first: by their distances for
    /// heads, by the times since their last hits for tails. The partial
    /// shuffle that follows picks that many places at random and moves them
    /// to the end of the list; the places in front keep the order that is
    /// left.
    pub fn arrange_coordinates(
        coordinates: &mut Vec<CoordinateInfo>,
        statistics: &HeuristicStatistics,
        is_head_not_tails: bool,
    ) -> (amount: usize)
        ensures
            amount == shuffle_amount_of(*statistics, old(coordinates)@.len() as usize),
            final(coordinates)@.len() == old(coordinates)@.len(),
            final(coordinates)@.to_multiset() == old(coordinates)@.to_multiset(),
            amount != old(coordinates)@.len() ==> is_ordered(
                final(coordinates)@,
                is_head_not_tails,
            ),
            amount == old(coordinates)@.len() ==> final(coordinates)@ == old(coordinates)@,
    {
        let shuffle_amount = Self::calculate_shuffle_amount(statistics, coordinates.len());
        if shuffle_amount != coordinates.len() {
            order_coordinates(coordinates, is_head_not_tails);
        }
        shuffle_amount
    }

    /// Fills the list of places anew: one for each node that holds a
    /// solution, and puts them in order for a selection. Unless all places
    /// are to be shuffled, a coin decides whether they are first put in the
    /// order of their distances or of the times since their last hits, and
    /// then a part of them is shuffled; else all are. Where no place is to
    /// be shuffled, the places stay in the order that the coin chose.
    pub fn fill_populations(
        network: &Network<O, S>,
        coordinates: &mut Vec<CoordinateInfo>,
        best_fitness: &Vec<i64>,
        statistics: &HeuristicStatistics,
        random: &mut DefaultRandom,
    )
        ensures
            final(coordinates)@.to_multiset() == snapshot_upto(
                network.nodes@,
                network.time,
                best_fitness@,
                network.nodes@.len() as int,
            ).to_multiset(),
            final(coordinates)@.len() == non_empty_count(
                network.nodes@,
                network.nodes@.len() as int,
            ),
            shuffle_amount_of(*statistics, final(coordinates)@.len() as usize) == 0
                && final(coordinates)@.len() != 0 ==> is_ordered(final(coordinates)@, true)
                || is_ordered(final(coordinates)@, false),
    {
        Self::snapshot_populations(network, coordinates, best_fitness);
        proof {
            broadcast use vstd::seq_lib::group_to_multiset_ensures;
        }
        let ghost snapshot = coordinates@;
        let length: usize = coordinates.len();
        if Self::calculate_shuffle_amount(statistics, length) != length {
            // partially randomize order
            let is_head_not_tails = random.is_head_not_tails();
            let shuffle_amount = Self::arrange_coordinates(
                coordinates,
                statistics,
                is_head_not_tails,
            );
            random.partial_shuffle(coordinates, shuffle_amount);
        } else {
            random.shuffle(coordinates);
        }
        proof {
            assert(coordinates@.to_multiset().len() == coordinates@.len());
            assert(snapshot.to_multiset().len() == snapshot.len());
        }
    }

    /// Whether the population stands to `before` as after a generation with
    /// the given statistics. The archive of the best stays as it is. While
    /// the first solutions are gathered, nothing happens until there are
    /// four of them; then the first four seed the map, the others are
    /// stored in it, and the population starts to explore. While it
    /// explores, it goes on only as long as the termination estimate is
    /// below the exploration ratio at the speed of this generation: then
    /// the map is pruned and the places
    /// are listed anew; else it starts to exploit. The selection size
    /// follows the speed of the search.
    pub open spec fn is_next_generation(
        &self,
        before: &Self,
        statistics: HeuristicStatistics,
    ) -> bool {
        let size = tuned_selection_size(before.config.selection_size, statistics.speed);
        &&& self.config == before.config
        &&& self.objective == before.objective
        &&& self.elite == before.elite
        &&& match before.phase {
            RosomaxaPhases::Initial { solutions: former } => if former@.len() < 4 {
                self.phase == before.phase
            } else {
                match self.phase {
                    RosomaxaPhases::Exploration {
                        network,
                        coordinates,
                        statistics: kept_statistics,
                        selection_size,
                    } => {
                        &&& coordinates@ == Seq::<CoordinateInfo>::empty()
                        &&& kept_statistics == statistics
                        &&& selection_size == size
                        &&& exists|seeded: Network<O, S>|
                            {
                                &&& seeded.wf()
                                &&& #[trigger] is_seed_map(
                                    &seeded,
                                    views(former@).subrange(0, 4),
                                    map_config_of(before.config),
                                    IndividualStorageFactory {
                                        node_size: before.config.node_size,
                                        reshuffling_probability: before.config.objective_reshuffling,
                                        objective: before.objective,
                                    },
                                )
                                &&& is_stored_all(
                                    &seeded,
                                    views(former@).subrange(4, former@.len() as int),
                                    former@.len() - 4,
                                    0,
                                    &network,
                                )
                            }
                    },
                    _ => false,
                }
            },
            RosomaxaPhases::Exploration {
                network: former,
                coordinates: former_coordinates,
                statistics: former_statistics,
                selection_size: former_size,
            } => if is_exploring(
                statistics.termination_estimate,
                before.config.exploration_ratio,
                statistics.speed,
            ) {
                match self.phase {
                    RosomaxaPhases::Exploration {
                        network,
                        coordinates,
                        statistics: kept_statistics,
                        selection_size,
                    } => {
                        let best = S::fitness_of(before.elite.members()[0]);
                        &&& kept_statistics == statistics
                        &&& selection_size == size
                        &&& is_optimized(
                            &former,
                            statistics,
                            best,
                            before.config.rebalance_memory,
                            before.config.rebalance_count,
                            &network,
                        )
                        &&& coordinates@.to_multiset() == snapshot_upto(
                            network.nodes@,
                            network.time,
                            best,
                            network.nodes@.len() as int,
                        ).to_multiset()
                        &&& coordinates@.len() == non_empty_count(
                            network.nodes@,
                            network.nodes@.len() as int,
                        )
                    },
                    _ => false,
                }
            } else {
                self.phase == (RosomaxaPhases::<O, S>::Exploitation {
                    selection_size: size as usize,
                })
            },
            RosomaxaPhases::Exploitation { selection_size: former_size } => self.phase == (
            RosomaxaPhases::<O, S>::Exploitation { selection_size: size as usize }),
        }
    }

    fn update_phase(&mut self, statistics: &HeuristicStatistics, random: &mut DefaultRandom)
        requires
            old(self).wf(),
        ensures
            final(self).wf(),
            final(self).is_next_generation(old(self), *statistics),
    {
        let selection_size = tune_selection_size(self.config.selection_size, &statistics.speed);
        let mut next: Option<RosomaxaPhases<O, S>> = None;
        match &mut self.phase {
            RosomaxaPhases::Initial { solutions } => {
                if solutions.len() >= 4 {
                    let ghost former = solutions@;
                    let mut rest: Vec<S> = Vec::new();
                    core::mem::swap(solutions, &mut rest);
                    let mut roots: Vec<S> = Vec::new();
                    let mut taken: usize = 0;
                    while taken < 4
                        invariant
                            taken <= 4,
                            former.len() >= 4,
                            rest@.len() == former.len() - taken,
                            roots@.len() == taken,
                            forall|k: int| 0 <= k < taken ==> roots@[k] == former[k],
                            forall|k: int| 0 <= k < rest@.len() ==> rest@[k] == former[taken + k],
                        decreases 4 - taken,
                    {
                        let ghost held = rest@;
                        let root = rest.remove(0);
                        roots.push(root);
                        assert forall|k: int| 0 <= k < rest@.len() implies rest@[k] == former[taken
                            + 1 + k] by {
                            assert(rest@[k] == held[k + 1]);
                        }
                        taken = taken + 1;
                    }
                    assert(views(roots@) =~= views(former).subrange(0, 4));
                    assert(views(rest@) =~= views(former).subrange(4, former.len() as int));
                    let mut network = Self::create_network(
                        self.objective.duplicate(),
                        &self.config,
                        roots,
                        random,
                    );
                    network.store_batch(rest, 0, random);
                    next = Some(
                        RosomaxaPhases::Exploration {
                            network,
                            coordinates: Vec::new(),
                            statistics: *statistics,
                            selection_size,
                        },
                    );
                }
            },
            RosomaxaPhases::Exploration {
                network,
                coordinates,
                statistics: old_statistics,
                selection_size: old_selection_size,
            } => {
                if keeps_exploring(
                    statistics.termination_estimate,
                    self.config.exploration_ratio,
                    &statistics.speed,
                ) {
                    *old_statistics = *statistics;
                    *old_selection_size = selection_size;
                    let best_fitness = match self.elite.best() {
                        Some(best_individual) => best_individual.get_fitness(),
                        None => Vec::new(),
                    };
                    Self::optimize_network(
                        network,
                        statistics,
                        &best_fitness,
                        self.config.rebalance_memory,
                        self.config.rebalance_count,
                        random,
                    );
                    Self::fill_populations(
                        network,
                        coordinates,
                        &best_fitness,
                        statistics,
                        random,
                    );
                } else {
                    next = Some(RosomaxaPhases::Exploitation { selection_size });
                }
            },
            RosomaxaPhases::Exploitation { selection_size: old_selection_size } => {
                *old_selection_size = selection_size;
            },
        }
        match next {
            Some(phase) => {
                self.phase = phase;
            },
            None => {},
        }
    }

    /// Tells the population of a generation of the search.
    pub fn on_generation(&mut self, statistics: &HeuristicStatistics, random: &mut DefaultRandom)
        requires
            old(self).wf(),
        ensures
            final(self).wf(),
            final(self).is_next_generation(old(self), *statistics),
    {
        self.update_phase(statistics, random)
    }

    /// The solutions that a selection yields. While the first solutions
    /// are gathered these are the first of the archive of the best, as many
    /// as the archive selects; while the best are exploited, the first of
    /// these, as many as the current selection size. While the map is
    /// explored, they are the first `elite_picks` of those that the archive
    /// selects and then, place by place, what the nodes at the places give
    /// for their numbers of picks, cut off at the current selection size.
    pub open spec fn selection_of(&self, elite_picks: usize, picks: Seq<usize>) -> Seq<S::V> {
        let elite = leading(self.elite.members(), self.elite.selection_size as int);
        match self.phase {
            RosomaxaPhases::Initial { solutions } => elite,
            RosomaxaPhases::Exploration { network, coordinates, statistics, selection_size } => leading(
                leading(elite, elite_picks as int) + nodes_selection(
                    &network,
                    coordinates@,
                    picks,
                    coordinates@.len() as int,
                ),
                selection_size as int,
            ),
            RosomaxaPhases::Exploitation { selection_size } => leading(elite, selection_size as int),
        }
    }

    /// The size of a selection in the current phase.
    pub open spec fn selection_size_of(&self) -> usize {
        match self.phase {
            RosomaxaPhases::Initial { solutions } => self.elite.selection_size,
            RosomaxaPhases::Exploration { network, coordinates, statistics, selection_size } => selection_size,
            RosomaxaPhases::Exploitation { selection_size } => selection_size,
        }
    }

    /// Selects solutions for the given numbers of picks: `elite_picks` from
    /// the archive of the best, and for each place of the map in turn its
    /// number of `node_picks`.
    pub fn select_with(&self, elite_picks: usize, node_picks: &Vec<usize>) -> (r: Vec<&S>)
        requires
            self.wf(),
        ensures
            ref_views(r@) == self.selection_of(elite_picks, node_picks@),
            r@.len() <= self.selection_size_of(),
    {
        match &self.phase {
            RosomaxaPhases::Exploration { network, coordinates, selection_size, .. } => {
                let ghost elite = leading(
                    self.elite.members(),
                    self.elite.selection_size as int,
                );
                let from_elite: usize = if elite_picks < self.elite.selection_size {
                    elite_picks
                } else {
                    self.elite.selection_size
                };
                let first = self.elite.take(from_elite);
                assert(ref_views(first@) =~= leading(elite, elite_picks as int));
                let mut out: Vec<&S> = Vec::new();
                let mut k: usize = 0;
                while k < first.len() && out.len() < *selection_size
                    invariant
                        k <= first@.len(),
                        out@.len() == k,
                        k <= *selection_size,
                        forall|j: int| 0 <= j < k ==> out@[j] == first@[j],
                    decreases first@.len() - k,
                {
                    out.push(first[k]);
                    k = k + 1;
                }
                assert(ref_views(out@) =~= leading(
                    leading(elite, elite_picks as int),
                    *selection_size as int,
                ));
                let ghost head = leading(elite, elite_picks as int);
                let total: usize = coordinates.len();
                let mut i: usize = 0;
                assert(head + nodes_selection(network, coordinates@, node_picks@, 0) =~= head);
                while i < total
                    invariant
                        i <= total,
                        total == coordinates@.len(),
                        out@.len() <= *selection_size,
                        ref_views(out@) == leading(
                            head + nodes_selection(network, coordinates@, node_picks@, i as int),
                            *selection_size as int,
                        ),
                    decreases total - i,
                {
                    let ghost before = head + nodes_selection(
                        network,
                        coordinates@,
                        node_picks@,
                        i as int,
                    );
                    let ghost added = if i < node_picks@.len() {
                        node_selection(network, coordinates@[i as int].0, node_picks@[i as int] as int)
                    } else {
                        Seq::<S::V>::empty()
                    };
                    assert(head + nodes_selection(
                        network,
                        coordinates@,
                        node_picks@,
                        i as int + 1,
                    ) =~= before + added);
                    if i < node_picks.len() {
                        let explore_size = node_picks[i];
                        match network.find(&coordinates[i].0) {
                            Some(node) => {
                                let count: usize = if explore_size < node.storage.selection_size {
                                    explore_size
                                } else {
                                    node.storage.selection_size
                                };
                                let members = node.storage.take(count);
                                assert(ref_views(members@) =~= added);
                                let mut m: usize = 0;
                                while m < members.len() && out.len() < *selection_size
                                    invariant
                                        m <= members@.len(),
                                        out@.len() <= *selection_size,
                                        ref_views(members@) == added,
                                        ref_views(out@) == leading(
                                            before + added.subrange(0, m as int),
                                            *selection_size as int,
                                        ),
                                        out@.len() < *selection_size ==> ref_views(out@) == before
                                            + added.subrange(0, m as int),
                                    decreases members@.len() - m,
                                {
                                    let ghost held = ref_views(out@);
                                    out.push(members[m]);
                                    assert(ref_views(out@) =~= held.push(added[m as int]));
                                    assert(before + added.subrange(0, m as int + 1) =~= (before
                                        + added.subrange(0, m as int)).push(added[m as int]));
                                    m = m + 1;
                                }
                                proof {
                                    if m < members@.len() {
                                        lemma_leading_full(
                                            before + added.subrange(0, m as int),
                                            added.subrange(m as int, added.len() as int),
                                            *selection_size as int,
                                        );
                                        assert(before + added.subrange(0, m as int)
                                            + added.subrange(m as int, added.len() as int)
                                            =~= before + added);
                                    } else {
                                        assert(added.subrange(0, m as int) =~= added);
                                    }
                                }
                            },
                            None => {
                                assert(before + added =~= before);
                            },
                        }
                    } else {
                        assert(before + added =~= before);
                    }
                    i = i + 1;
                }
                out
            },
            RosomaxaPhases::Exploitation { selection_size } => {
                let count: usize = if *selection_size < self.elite.selection_size {
                    *selection_size
                } else {
                    self.elite.selection_size
                };
                let out = self.elite.take(count);
                assert(ref_views(out@) =~= leading(
                    leading(self.elite.members(), self.elite.selection_size as int),
                    *selection_size as int,
                ));
                out
            },
            RosomaxaPhases::Initial { .. } => {
                let out = self.elite.select();
                assert(ref_views(out@) =~= leading(
                    self.elite.members(),
                    self.elite.selection_size as int,
                ));
                out
            },
        }
    }

    /// The places of the map that a selection draws from.
    pub open spec fn places_of(&self) -> Seq<CoordinateInfo> {
        match self.phase {
            RosomaxaPhases::Exploration { network, coordinates, statistics, selection_size } => coordinates@,
            _ => Seq::<CoordinateInfo>::empty(),
        }
    }

    /// Whether the solutions are what a selection may yield: what the
    /// population gives for some numbers of picks. While the map is explored
    /// there is a number of picks for each place of the map, and all
    /// numbers lie within their ranges.
    pub open spec fn is_selection(&self, selected: Seq<S::V>) -> bool {
        exists|elite_picks: usize, picks: Seq<usize>|
            {
                &&& selected == #[trigger] self.selection_of(elite_picks, picks)
                &&& self.phase_of() == SelectionPhase::Exploration ==> {
                    &&& elite_explore_range(self.selection_size_of()).0 <= elite_picks
                        <= elite_explore_range(self.selection_size_of()).1
                    &&& picks.len() == self.places_of().len()
                    &&& forall|i: int|
                        0 <= i < picks.len() ==> 1 <= #[trigger] picks[i] <= node_explore_size(
                            self.selection_size_of(),
                        )
                }
            }
    }

    /// Selects solutions to breed from. While the map is explored, chance
    /// decides how many solutions come from the archive of the best and how
    /// many from each place of the map, within their ranges; in the other
    /// phases chance has no part.
    pub fn select(&self, random: &mut DefaultRandom) -> (r: Vec<&S>)
        requires
            self.wf(),
        ensures
            r@.len() <= self.selection_size_of(),
            self.phase_of() != SelectionPhase::Exploration ==> ref_views(r@) == self.selection_of(
                0,
                Seq::<usize>::empty(),
            ),
            self.is_selection(ref_views(r@)),
    {
        match &self.phase {
            RosomaxaPhases::Exploration { coordinates, selection_size, .. } => {
                let elite_explore_size: usize = if *selection_size > 6 {
                    random.uniform_int(2, 4) as usize
                } else if *selection_size > 2 {
                    2
                } else {
                    1
                };
                let node_explore_size: i32 = if *selection_size > 4 {
                    2
                } else {
                    1
                };
                let mut picks: Vec<usize> = Vec::new();
                let mut i: usize = 0;
                while i < coordinates.len()
                    invariant
                        i <= coordinates@.len(),
                        picks@.len() == i,
                        1 <= node_explore_size <= 2,
                        forall|k: int| 0 <= k < i ==> 1 <= #[trigger] picks@[k] <= node_explore_size,
                    decreases coordinates@.len() - i,
                {
                    let explore_size = random.uniform_int(1, node_explore_size);
                    picks.push(explore_size as usize);
                    i = i + 1;
                }
                let out = self.select_with(elite_explore_size, &picks);
                assert(ref_views(out@) == self.selection_of(elite_explore_size, picks@));
                assert(picks@.len() == self.places_of().len());
                out
            },
            _ => {
                let picks: Vec<usize> = Vec::new();
                let out = self.select_with(0, &picks);
                assert(picks@ =~= Seq::<usize>::empty());
                assert(ref_views(out@) == self.selection_of(0, Seq::<usize>::empty()));
                out
            },
        }
    }

    /// Whether the population stands to `before` as after a solution was
    /// passed on to what the phase holds: while the first solutions are
    /// gathered it joins them, while the map is explored it is stored in
    /// the map, and afterwards it is dropped.
    pub open spec fn is_routed(&self, before: &Self, x: S::V) -> bool {
        match (before.phase, self.phase) {
            (
                RosomaxaPhases::Initial { solutions: former },
                RosomaxaPhases::Initial { solutions },
            ) => views(solutions@) == views(former@).push(x),
            (
                RosomaxaPhases::Exploration {
                    network: former,
                    coordinates: former_coordinates,
                    statistics: former_statistics,
                    selection_size: former_size,
                },
                RosomaxaPhases::Exploration { network, coordinates, statistics, selection_size },
            ) => {
                &&& is_trained(&former, x, former_statistics.generation, true, &network)
                &&& coordinates == former_coordinates
                &&& statistics == former_statistics
                &&& selection_size == former_size
            },
            (
                RosomaxaPhases::Exploitation { selection_size: former_size },
                RosomaxaPhases::Exploitation { selection_size },
            ) => selection_size == former_size,
            _ => false,
        }
    }

    /// Whether the population stands to `before` as after the solutions of
    /// a batch were passed on to what the phase holds.
    pub open spec fn is_routed_all(&self, before: &Self, batch: Seq<S::V>) -> bool {
        match (before.phase, self.phase) {
            (
                RosomaxaPhases::Initial { solutions: former },
                RosomaxaPhases::Initial { solutions },
            ) => views(solutions@) == views(former@) + batch,
            (
                RosomaxaPhases::Exploration {
                    network: former,
                    coordinates: former_coordinates,
                    statistics: former_statistics,
                    selection_size: former_size,
                },
                RosomaxaPhases::Exploration { network, coordinates, statistics, selection_size },
            ) => {
                &&& is_stored_all(
                    &former,
                    batch,
                    batch.len() as int,
                    former_statistics.generation,
                    &network,
                )
                &&& coordinates == former_coordinates
                &&& statistics == former_statistics
                &&& selection_size == former_size
            },
            (
                RosomaxaPhases::Exploitation { selection_size: former_size },
                RosomaxaPhases::Exploitation { selection_size },
            ) => selection_size == former_size,
            _ => false,
        }
    }

    /// Adds a solution. A copy of it is offered to the archive of the best
    /// unless it is strictly worse than the best known solution; the
    /// solution itself is passed on to what the phase holds. Tells whether
    /// the archive was improved.
    pub fn add(&mut self, individual: S, random: &mut DefaultRandom) -> (improved: bool)
        requires
            old(self).wf(),
        ensures
            final(self).wf(),
            final(self).config == old(self).config,
            final(self).objective == old(self).objective,
            final(self).elite.members() == (if is_comparable(
                &old(self).objective,
                old(self).elite.members(),
                individual@,
            ) {
                after_add(
                    &old(self).objective,
                    old(self).elite.members(),
                    individual@,
                    old(self).config.elite_size as int,
                )
            } else {
                old(self).elite.members()
            }),
            improved == (is_comparable(
                &old(self).objective,
                old(self).elite.members(),
                individual@,
            ) && improves(
                &old(self).objective,
                old(self).elite.members(),
                individual@,
                old(self).config.elite_size as int,
            )),
            final(self).is_routed(old(self), individual@),
            final(self).elite.members().len() <= final(self).config.elite_size,
            is_front(
                &final(self).objective,
                final(self).elite.members(),
                final(self).config.elite_size as int,
            ),
    {
        let is_improved = if self.is_comparable_with_best_known(&individual) {
            self.elite.add(individual.deep_copy())
        } else {
            false
        };
        match &mut self.phase {
            RosomaxaPhases::Initial { solutions } => {
                proof {
                    crate::population::elitism::lemma_views_insert(
                        solutions@,
                        solutions@.len() as int,
                        individual,
                    );
                    assert(solutions@.insert(solutions@.len() as int, individual)
                        =~= solutions@.push(individual));
                    assert(views(solutions@).insert(solutions@.len() as int, individual@)
                        =~= views(solutions@).push(individual@));
                }
                solutions.push(individual);
            },
            RosomaxaPhases::Exploration { network, statistics, .. } => {
                network.store(individual, statistics.generation, random);
            },
            RosomaxaPhases::Exploitation { .. } => {},
        }
        is_improved
    }

    /// Adds the solutions of a batch. Copies of those that are not strictly
    /// worse than the solution that was the best known before are offered to
    /// the archive of the best, one after the other; the solutions
    /// themselves are passed on to what the phase holds. Tells whether the
    /// archive was improved.
    pub fn add_all(&mut self, individuals: Vec<S>, random: &mut DefaultRandom) -> (improved: bool)
        requires
            old(self).wf(),
        ensures
            final(self).wf(),
            final(self).config == old(self).config,
            final(self).objective == old(self).objective,
            final(self).elite.members() == after_add_all(
                &old(self).objective,
                old(self).elite.members(),
                comparable_of(
                    &old(self).objective,
                    old(self).elite.members(),
                    views(individuals@),
                    individuals@.len() as int,
                ),
                comparable_of(
                    &old(self).objective,
                    old(self).elite.members(),
                    views(individuals@),
                    individuals@.len() as int,
                ).len() as int,
                old(self).config.elite_size as int,
            ),
            improved == improves_any(
                &old(self).objective,
                old(self).elite.members(),
                comparable_of(
                    &old(self).objective,
                    old(self).elite.members(),
                    views(individuals@),
                    individuals@.len() as int,
                ),
                comparable_of(
                    &old(self).objective,
                    old(self).elite.members(),
                    views(individuals@),
                    individuals@.len() as int,
                ).len() as int,
                old(self).config.elite_size as int,
            ),
            final(self).is_routed_all(old(self), views(individuals@)),
            final(self).elite.members().len() <= final(self).config.elite_size,
            is_front(
                &final(self).objective,
                final(self).elite.members(),
                final(self).config.elite_size as int,
            ),
    {
        let ghost batch = views(individuals@);
        let ghost members = self.elite.members();
        let mut elite: Vec<S> = Vec::new();
        let mut i: usize = 0;
        while i < individuals.len()
            invariant
                i <= individuals@.len(),
                *self == *old(self),
                self.wf(),
                batch == views(individuals@),
                members == self.elite.members(),
                views(elite@) == comparable_of(&self.objective, members, batch, i as int),
            decreases individuals@.len() - i,
        {
            let individual = &individuals[i];
            assert(individual@ == batch[i as int]);
            if self.is_comparable_with_best_known(individual) {
                let ghost before = views(elite@);
                elite.push(individual.deep_copy());
                assert(views(elite@) =~= before.push(individual@));
            }
            i = i + 1;
        }
        let ghost offered = views(elite@);
        let is_improved = self.elite.add_all(elite);
        let ghost elite_count = self.elite.members().len();
        proof {
            if individuals@.len() > 0 && members.len() == 0 {
                // the first candidate may enter an empty archive
                lemma_comparable_of_empty(&self.objective, members, batch, individuals@.len() as int);
                assert(offered.len() > 0);
            }
            assert(batch.len() > 0 || members.len() > 0 ==> elite_count > 0);
        }
        match &mut self.phase {
            RosomaxaPhases::Initial { solutions } => {
                let ghost former = views(solutions@);
                assert(former.len() > 0 ==> members.len() > 0);
                let mut rest = individuals;
                let total: usize = rest.len();
                let mut done: usize = 0;
                while done < total
                    invariant
                        done <= total,
                        total == batch.len(),
                        rest@.len() == total - done,
                        forall|k: int|
                            0 <= k < rest@.len() ==> (#[trigger] rest@[k])@ == batch[done + k],
                        views(solutions@) == former + batch.subrange(0, done as int),
                        former.len() > 0 || batch.len() > 0 ==> elite_count > 0,
                    decreases total - done,
                {
                    let ghost held = rest@;
                    let ghost so_far = views(solutions@);
                    let individual = rest.remove(0);
                    assert(individual@ == batch[done as int]);
                    assert forall|k: int| 0 <= k < rest@.len() implies (#[trigger] rest@[k])@
                        == batch[done + 1 + k] by {
                        assert(rest@[k] == held[k + 1]);
                    }
                    solutions.push(individual);
                    assert(views(solutions@) =~= so_far.push(individual@));
                    assert(views(solutions@) =~= former + batch.subrange(0, done as int + 1));
                    done = done + 1;
                }
                assert(batch.subrange(0, total as int) =~= batch);
            },
            RosomaxaPhases::Exploration { network, statistics, .. } => {
                network.store_batch(individuals, statistics.generation, random);
            },
            RosomaxaPhases::Exploitation { .. } => {},
        }
        is_improved
    }
}

/// The first `count` of the items; all of them where there are fewer.
pub open spec fn leading<V>(items: Seq<V>, count: int) -> Seq<V> {
    if count <= 0 {
        Seq::<V>::empty()
    } else if count >= items.len() {
        items
    } else {
        items.subrange(0, count)
    }
}

/// The views of the solutions that references point to.
pub open spec fn ref_views<S: Solution>(refs: Seq<&S>) -> Seq<S::V> {
    Seq::new(refs.len(), |i: int| (*refs[i])@)
}

/// The least and the greatest number of solutions that a selection takes
/// from the archive of the best while the map is explored.
pub open spec fn elite_explore_range(selection_size: usize) -> (int, int) {
    if selection_size > 6 {
        (2, 4)
    } else if selection_size > 2 {
        (2, 2)
    } else {
        (1, 1)
    }
}

/// The greatest number of solutions that a selection takes from one node.
pub open spec fn node_explore_size(selection_size: usize) -> int {
    if selection_size > 4 {
        2
    } else {
        1
    }
}

/// What a selection takes from the node at the given place: the first
/// `picks` of the solutions that the node's archive selects, none where no
/// node lies there.
pub open spec fn node_selection<O, S: Solution>(
    network: &Network<O, S>,
    place: Coordinate,
    picks: int,
) -> Seq<S::V> where O: Objective<S> {
    let at = position_from(network.nodes@, place, network.nodes@.len() as int, 0);
    if at < network.nodes@.len() {
        leading(
            leading(
                network.nodes@[at].storage.members(),
                network.nodes@[at].storage.selection_size as int,
            ),
            picks,
        )
    } else {
        Seq::<S::V>::empty()
    }
}

/// What a selection takes from the nodes at the first `count` places, one
/// after the other; nothing from a place without a number of picks.
pub open spec fn nodes_selection<O, S: Solution>(
    network: &Network<O, S>,
    coordinates: Seq<CoordinateInfo>,
    picks: Seq<usize>,
    count: int,
) -> Seq<S::V> where O: Objective<S>
    decreases count,
{
    if count <= 0 {
        Seq::<S::V>::empty()
    } else if count - 1 < picks.len() {
        nodes_selection(network, coordinates, picks, count - 1) + node_selection(
            network,
            coordinates[count - 1].0,
            picks[count - 1] as int,
        )
    } else {
        nodes_selection(network, coordinates, picks, count - 1)
    }
}

/// The first items of a sequence stay the first when more items follow a
/// sequence that is long enough already.
pub proof fn lemma_leading_full<V>(items: Seq<V>, more: Seq<V>, count: int)
    requires
        items.len() >= count,
    ensures
        leading(items + more, count) == leading(items, count),
{
    assert(leading(items + more, count) =~= leading(items, count));
}

/// The settings of the map of a population.
pub open spec fn map_config_of(config: RosomaxaConfig) -> NetworkConfig {
    NetworkConfig {
        growth_threshold: config.spread_threshold,
        distribution_factor: config.distribution_factor,
        learning_rate: config.learning_rate,
        rebalance_memory: config.rebalance_memory,
        has_initial_error: true,
    }
}

/// The archive of the best of a population is a front: it holds no more
/// solutions than it is configured for, they are ranked, and none of them
/// dominates another.
pub proof fn lemma_elite_is_front<O, S: Solution>(population: &Rosomaxa<O, S>) where
    O: Objective<S>,

    requires
        population.wf(),
    ensures
        population.elite.members().len() <= population.config.elite_size,
        is_front(
            &population.objective,
            population.elite.members(),
            population.config.elite_size as int,
        ),
{
}

/// A population that has gathered fewer than four solutions goes on
/// gathering after a generation.
pub proof fn lemma_stays_initial<O, S: Solution>(
    before: &Rosomaxa<O, S>,
    statistics: HeuristicStatistics,
    after: &Rosomaxa<O, S>,
) where O: Objective<S>
    requires
        after.is_next_generation(before, statistics),
        before.phase_of() == SelectionPhase::Initial,
        before.gathered().len() < 4,
    ensures
        after.phase_of() == SelectionPhase::Initial,
        after.gathered() == before.gathered(),
{
}

/// A population that has gathered four solutions explores after a
/// generation; with exactly four, its map has four nodes, and no place is
/// listed yet.
pub proof fn lemma_starts_exploring<O, S: Solution>(
    before: &Rosomaxa<O, S>,
    statistics: HeuristicStatistics,
    after: &Rosomaxa<O, S>,
) where O: Objective<S>
    requires
        after.is_next_generation(before, statistics),
        before.phase_of() == SelectionPhase::Initial,
        before.gathered().len() >= 4,
    ensures
        after.phase_of() == SelectionPhase::Exploration,
        match after.phase {
            RosomaxaPhases::Exploration { network, coordinates, statistics, selection_size } => {
                &&& coordinates@.len() == 0
                &&& before.gathered().len() == 4 ==> {
                    &&& network.nodes@.len() == 4
                    &&& forall|i: int|
                        0 <= i < 4 ==> (#[trigger] network.nodes@[i]).storage.members() == seq![
                            before.gathered()[i],
                        ]
                }
            },
            _ => false,
        },
        after.gathered().len() == 0,
        after.elite == before.elite,
{
    match (before.phase, after.phase) {
        (
            RosomaxaPhases::Initial { solutions: former },
            RosomaxaPhases::Exploration { network, coordinates, statistics: kept, selection_size },
        ) => {
            if former@.len() == 4 {
                let seeded = choose|seeded: Network<O, S>|
                    {
                        &&& seeded.wf()
                        &&& #[trigger] is_seed_map(
                            &seeded,
                            views(former@).subrange(0, 4),
                            map_config_of(before.config),
                            IndividualStorageFactory {
                                node_size: before.config.node_size,
                                reshuffling_probability: before.config.objective_reshuffling,
                                objective: before.objective,
                            },
                        )
                        &&& is_stored_all(
                            &seeded,
                            views(former@).subrange(4, former@.len() as int),
                            former@.len() - 4,
                            0,
                            &network,
                        )
                    };
                assert(network == seeded);
            }
        },
        _ => {},
    }
}

/// A population that explores starts to exploit with the generation in
/// which the termination estimate reaches the exploration ratio, and goes on
/// exploring before.
pub proof fn lemma_starts_exploiting<O, S: Solution>(
    before: &Rosomaxa<O, S>,
    statistics: HeuristicStatistics,
    after: &Rosomaxa<O, S>,
) where O: Objective<S>
    requires
        after.is_next_generation(before, statistics),
        before.phase_of() == SelectionPhase::Exploration,
    ensures
        match before.phase {
            RosomaxaPhases::Exploration {
                network,
                coordinates,
                statistics: former,
                selection_size,
            } => (!is_exploring(
                statistics.termination_estimate,
                before.config.exploration_ratio,
                statistics.speed,
            )) == (after.phase_of() == SelectionPhase::Exploitation),
            _ => true,
        },
        after.phase_of() != SelectionPhase::Initial,
        after.elite == before.elite,
{
}

/// While the map is explored, there are as many places to select from after
/// a generation as the map has nodes that hold a solution.
pub proof fn lemma_places_match_nodes<O, S: Solution>(
    before: &Rosomaxa<O, S>,
    statistics: HeuristicStatistics,
    after: &Rosomaxa<O, S>,
) where O: Objective<S>
    requires
        after.is_next_generation(before, statistics),
        before.phase_of() == SelectionPhase::Exploration,
        after.phase_of() == SelectionPhase::Exploration,
    ensures
        match after.phase {
            RosomaxaPhases::Exploration { network, coordinates, statistics, selection_size } => coordinates@.len()
                == non_empty_count(network.nodes@, network.nodes@.len() as int),
            _ => true,
        },
{
}

/// Pruning the map does nothing in generation zero, and nothing while the
/// map has no more nodes than it keeps for sure.
pub proof fn lemma_optimize_is_noop<O, S: Solution>(
    before: &Network<O, S>,
    statistics: HeuristicStatistics,
    best: Seq<i64>,
    rebalance_memory: usize,
    rebalance_count: usize,
    after: &Network<O, S>,
) where O: Objective<S>
    requires
        is_optimized(before, statistics, best, rebalance_memory, rebalance_count, after),
        statistics.generation == 0 || before.nodes@.len() <= keep_size_of(
            statistics,
            rebalance_memory,
        ),
    ensures
        *after == *before,
{
}

/// Two selections of the same population are the same wherever chance has no
/// room: outside the exploration of the map, and while the map is explored
/// with a selection size of four at most, at which every number of picks is
/// fixed.
pub proof fn lemma_selection_repeats<O, S: Solution>(
    population: &Rosomaxa<O, S>,
    first: Seq<S::V>,
    second: Seq<S::V>,
) where O: Objective<S>
    requires
        population.is_selection(first),
        population.is_selection(second),
        population.phase_of() != SelectionPhase::Exploration || population.selection_size_of()
            <= 4,
    ensures
        first == second,
        first.to_multiset() == second.to_multiset(),
{
    let (elite_first, picks_first) = choose|elite_picks: usize, picks: Seq<usize>|
        {
            &&& first == #[trigger] population.selection_of(elite_picks, picks)
            &&& population.phase_of() == SelectionPhase::Exploration ==> {
                &&& elite_explore_range(population.selection_size_of()).0 <= elite_picks
                    <= elite_explore_range(population.selection_size_of()).1
                &&& picks.len() == population.places_of().len()
                &&& forall|i: int|
                    0 <= i < picks.len() ==> 1 <= #[trigger] picks[i] <= node_explore_size(
                        population.selection_size_of(),
                    )
            }
        };
    let (elite_second, picks_second) = choose|elite_picks: usize, picks: Seq<usize>|
        {
            &&& second == #[trigger] population.selection_of(elite_picks, picks)
            &&& population.phase_of() == SelectionPhase::Exploration ==> {
                &&& elite_explore_range(population.selection_size_of()).0 <= elite_picks
                    <= elite_explore_range(population.selection_size_of()).1
                &&& picks.len() == population.places_of().len()
                &&& forall|i: int|
                    0 <= i < picks.len() ==> 1 <= #[trigger] picks[i] <= node_explore_size(
                        population.selection_size_of(),
                    )
            }
        };
    if population.phase_of() == SelectionPhase::Exploration {
        assert(elite_first == elite_second);
        assert(picks_first =~= picks_second);
    }
}

/// Every candidate may enter an archive of the best that is empty.
pub proof fn lemma_comparable_of_empty<S: Solution, O: Objective<S>>(
    objective: &O,
    members: Seq<S::V>,
    batch: Seq<S::V>,
    count: int,
)
    requires
        members.len() == 0,
        0 <= count <= batch.len(),
    ensures
        comparable_of(objective, members, batch, count).len() == count,
    decreases count,
{
    if count > 0 {
        lemma_comparable_of_empty(objective, members, batch, count - 1);
    }
}

} // verus!
