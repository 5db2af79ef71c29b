use rosomaxa::algorithms::gsom::network::{are_neighbours, shift};
use rosomaxa::algorithms::gsom::weights::{adjust, get_distance, get_neighbour_rate, grow, pad};
use rosomaxa::algorithms::gsom::{Coordinate, IndividualStorageFactory, Network, NetworkConfig};
use rosomaxa::population::example::{VectorObjective, VectorSolution};
use rosomaxa::utils::DefaultRandom;

type Grid = Network<VectorObjective, VectorSolution>;

fn solution(fitness: i64, weights: &[i32]) -> VectorSolution {
    VectorSolution::new(vec![fitness], weights.to_vec())
}

fn create(growth_threshold: u64, has_initial_error: bool, random: &mut DefaultRandom) -> Grid {
    let roots =
        vec![solution(1, &[0, 0]), solution(2, &[0, 1000]), solution(3, &[1000, 0]), solution(4, &[1000, 1000])];
    Network::new(
        roots,
        NetworkConfig {
            growth_threshold,
            distribution_factor: 250_000,
            learning_rate: 100_000,
            rebalance_memory: 10,
            has_initial_error,
        },
        IndividualStorageFactory { node_size: 2, reshuffling_probability: 0, objective: VectorObjective::new(1, false) },
        random,
    )
}

fn places(map: &Grid) -> Vec<Coordinate> {
    map.get_nodes().iter().map(|node| node.coordinate).collect()
}

#[test]
fn squared_distance_covers_the_node_dimensions() {
    assert_eq!(get_distance(&vec![0, 0], &vec![3, 4]), 25);
    assert_eq!(get_distance(&vec![1, 2, 3], &vec![1, 2]), 9);
    assert_eq!(get_distance(&vec![1], &vec![1, 100]), 0);
    assert_eq!(get_distance(&vec![i32::MIN], &vec![i32::MAX]), 18446744065119617025);
}

#[test]
fn weights_are_pulled_towards_the_input() {
    assert_eq!(adjust(&vec![0, 1000, -1000], &vec![1000, 0, 0], 100_000), vec![100, 900, -900]);
    assert_eq!(adjust(&vec![0, 10], &vec![5, 5], 1_000_000), vec![5, 5]);
    assert_eq!(adjust(&vec![0, 10], &vec![5, 5], 9_000_000), vec![5, 5]);
    assert_eq!(adjust(&vec![0, 10], &vec![5, 5], 0), vec![0, 10]);
    assert_eq!(adjust(&vec![0, 0], &vec![9, -9], 500_000), vec![4, -4]);
    assert_eq!(get_neighbour_rate(100_000, 250_000), 25_000);
    assert_eq!(pad(&vec![1, 2, 3], 2), vec![1, 2]);
    assert_eq!(pad(&vec![1], 3), vec![1, 0, 0]);
}

#[test]
fn new_node_weights_are_extrapolated() {
    assert_eq!(grow(&vec![10, -10], Some(&vec![4, 0]), None), vec![16, -20]);
    assert_eq!(grow(&vec![10, -10], Some(&vec![4, 0]), Some(&vec![0, 0])), vec![16, -20]);
    assert_eq!(grow(&vec![10, -10], None, Some(&vec![5, -1])), vec![7, -5]);
    assert_eq!(grow(&vec![10, -10], None, None), vec![11, -9]);
    assert_eq!(grow(&vec![i32::MAX], Some(&vec![0]), None), vec![i32::MAX]);
}

#[test]
fn coordinates_shift_and_neighbour() {
    assert_eq!(shift(&Coordinate(0, 0), 0, 1), Some(Coordinate(-1, 0)));
    assert_eq!(shift(&Coordinate(0, 0), 1, 2), Some(Coordinate(2, 0)));
    assert_eq!(shift(&Coordinate(0, 0), 2, -1), Some(Coordinate(0, 1)));
    assert_eq!(shift(&Coordinate(0, 0), 3, 1), Some(Coordinate(0, 1)));
    assert_eq!(shift(&Coordinate(i32::MAX, 0), 1, 1), None);
    assert!(are_neighbours(&Coordinate(0, 0), &Coordinate(0, 1)));
    assert!(are_neighbours(&Coordinate(3, 2), &Coordinate(2, 2)));
    assert!(!are_neighbours(&Coordinate(0, 0), &Coordinate(1, 1)));
    assert!(!are_neighbours(&Coordinate(0, 0), &Coordinate(0, 0)));
    assert!(!are_neighbours(&Coordinate(i32::MIN, 0), &Coordinate(i32::MAX, 0)));
}

#[test]
fn new_map_is_a_square_of_seeds() {
    let mut random = DefaultRandom::new_repeatable(1);

    let map = create(1_000_000, true, &mut random);

    assert_eq!(map.size(), 4);
    assert_eq!(map.get_current_time(), 0);
    assert_eq!(map.dimension, 2);
    assert_eq!(places(&map), vec![Coordinate(0, 0), Coordinate(0, 1), Coordinate(1, 0), Coordinate(1, 1)]);
    for (node, weights) in map.get_nodes().iter().zip([[0, 0], [0, 1000], [1000, 0], [1000, 1000]]) {
        assert_eq!(node.weights, weights.to_vec());
        assert_eq!(node.error, 0);
        assert_eq!(node.storage.size(), 1);
    }
    assert!(map.find(&Coordinate(1, 1)).is_some());
    assert!(map.find(&Coordinate(2, 1)).is_none());
}

#[test]
fn store_trains_the_best_matching_node() {
    let mut random = DefaultRandom::new_repeatable(1);
    let mut map = create(1_000_000, true, &mut random);

    map.store(solution(9, &[100, 100]), 3, &mut random);

    // the squared distance 20000 stays below the threshold of two million
    assert_eq!(map.size(), 4);
    assert_eq!(map.get_current_time(), 3);
    let nodes = map.get_nodes();
    assert_eq!(nodes[0].weights, vec![10, 10]);
    assert_eq!(nodes[0].error, 20_000);
    assert_eq!(nodes[0].last_hit, 3);
    assert_eq!(nodes[0].storage.size(), 2);
    assert_eq!(nodes[0].get_last_hits(5), 2);
    // the neighbours learn at a quarter of the rate
    assert_eq!(nodes[1].weights, vec![2, 978]);
    assert_eq!(nodes[2].weights, vec![978, 2]);
    // the node across the square does not learn
    assert_eq!(nodes[3].weights, vec![1000, 1000]);
    assert_eq!(nodes[3].last_hit, 0);
    assert_eq!(nodes[1].storage.size(), 1);
}

#[test]
fn map_grows_only_beyond_the_threshold() {
    let mut random = DefaultRandom::new_repeatable(1);
    // two dimensions, 10000 each: the threshold is 20000
    let mut map = create(10_000, true, &mut random);

    map.store(solution(9, &[100, 100]), 1, &mut random);
    assert_eq!(map.size(), 4);
    assert_eq!(map.get_nodes()[0].error, 20_000);

    map.store(solution(9, &[10, 11]), 2, &mut random);

    assert_eq!(map.size(), 6);
    assert_eq!(map.get_nodes()[0].error, 10_000);
    assert_eq!(&places(&map)[4..], &[Coordinate(-1, 0), Coordinate(0, -1)]);
    let nodes = map.get_nodes();
    // each new node mirrors the neighbour at the other side of the node that grew
    for (new, opposite) in [(4, 2), (5, 1)] {
        for dimension in 0..2 {
            assert_eq!(nodes[new].weights[dimension], 2 * nodes[0].weights[dimension] - nodes[opposite].weights[dimension]);
        }
        assert_eq!(nodes[new].error, 0);
        assert_eq!(nodes[new].last_hit, 2);
        assert_eq!(nodes[new].storage.size(), 0);
    }
}

#[test]
fn store_batch_is_repeated_store() {
    let mut random = DefaultRandom::new_repeatable(1);
    let mut one_by_one = create(10_000, true, &mut random);
    let mut at_once = create(10_000, true, &mut random);
    let inputs = [[100, 100], [900, 950], [10, 990], [-200, 40]];

    for weights in inputs {
        one_by_one.store(solution(9, &weights), 4, &mut random);
    }
    at_once.store_batch(inputs.iter().map(|weights| solution(9, weights)).collect(), 4, &mut random);

    assert_eq!(places(&at_once), places(&one_by_one));
    for (first, second) in at_once.get_nodes().iter().zip(one_by_one.get_nodes().iter()) {
        assert_eq!(first.weights, second.weights);
        assert_eq!(first.error, second.error);
        assert_eq!(first.last_hit, second.last_hit);
        assert_eq!(first.storage.individuals, second.storage.individuals);
    }
}

#[test]
fn retrain_without_passes_keeps_the_marked_nodes() {
    let mut random = DefaultRandom::new_repeatable(1);
    let mut map = create(1_000_000, true, &mut random);
    map.store(solution(9, &[100, 100]), 3, &mut random);

    map.retrain(0, &vec![true, false, true, false], &mut random);

    assert_eq!(places(&map), vec![Coordinate(0, 0), Coordinate(1, 0)]);
    assert_eq!(map.get_nodes()[0].error, 20_000);
    assert_eq!(map.get_nodes()[0].storage.size(), 2);
    assert_eq!(map.get_current_time(), 3);
}

#[test]
fn retrain_drops_errors_unless_they_are_kept() {
    let mut random = DefaultRandom::new_repeatable(1);
    let mut map = create(1_000_000, false, &mut random);
    map.store(solution(9, &[100, 100]), 3, &mut random);
    assert_eq!(map.get_nodes()[0].error, 20_000);

    map.retrain(2, &vec![true, true, true, false], &mut random);

    assert!(map.get_nodes().iter().all(|node| node.error == 0));
    assert!(map.find(&Coordinate(1, 1)).is_none());
    // the solutions are trained again, those of the node that left among them
    let held: usize = map.get_nodes().iter().map(|node| node.storage.size()).sum();
    assert!(held >= 3);
    assert_eq!(map.get_current_time(), 3);
    assert!(map.get_nodes().iter().all(|node| node.storage.size() <= 2));
}

#[test]
fn empty_map_is_seeded_by_the_next_input() {
    let mut random = DefaultRandom::new_repeatable(1);
    let mut map = create(1_000_000, true, &mut random);
    map.retrain(0, &vec![false, false, false, false], &mut random);
    assert_eq!(map.size(), 0);

    map.store(solution(9, &[5]), 7, &mut random);

    assert_eq!(places(&map), vec![Coordinate(0, 0)]);
    assert_eq!(map.get_nodes()[0].weights, vec![5, 0]);
    assert_eq!(map.get_nodes()[0].last_hit, 7);
    assert_eq!(map.get_nodes()[0].storage.size(), 1);
}

#[test]
fn new_archives_are_reshuffled_with_the_given_probability() {
    let mut random = DefaultRandom::new_repeatable(3);
    let objective = VectorObjective::new(1000, false);
    let never = IndividualStorageFactory { node_size: 2, reshuffling_probability: 0, objective };
    let always = IndividualStorageFactory { node_size: 2, reshuffling_probability: 1_000_000, objective };

    let kept: Vec<usize> = (0..20).map(|_| never.eval::<VectorSolution>(&mut random).objective.primary).collect();
    let shuffled: Vec<usize> = (0..20).map(|_| always.eval::<VectorSolution>(&mut random).objective.primary).collect();

    assert!(kept.iter().all(|primary| *primary == 0));
    assert!(shuffled.iter().all(|primary| *primary < 1000));
    assert!(shuffled.iter().any(|primary| *primary != 0));
    let archive = always.eval::<VectorSolution>(&mut random);
    assert_eq!((archive.size(), archive.max_population_size, archive.selection_size), (0, 2, 2));
}
