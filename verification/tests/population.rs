use rosomaxa::algorithms::gsom::{Coordinate, Network};
use rosomaxa::population::example::{VectorObjective, VectorSolution};
use rosomaxa::population::objective::Preference;
use rosomaxa::population::rosomaxa::{
    get_keep_size, keeps_exploring, order_coordinates, tune_selection_size, CoordinateInfo,
    HeuristicSpeed, HeuristicStatistics, RosomaxaPhases, SelectionPhase,
};
use rosomaxa::population::{Rosomaxa, RosomaxaConfig};
use rosomaxa::utils::DefaultRandom;

type Population = Rosomaxa<VectorObjective, VectorSolution>;

fn solution(fitness: i64, weight: i32) -> VectorSolution {
    VectorSolution::new(vec![fitness], vec![weight])
}

fn statistics(generation: usize, termination_estimate: u64, improvement_1000_ratio: u64) -> HeuristicStatistics {
    HeuristicStatistics {
        generation,
        termination_estimate,
        termination_decay: 500_000,
        improvement_1000_ratio,
        speed: HeuristicSpeed::Moderate,
    }
}

fn config(selection_size: usize, elite_size: usize, node_size: usize) -> RosomaxaConfig {
    RosomaxaConfig { elite_size, node_size, ..RosomaxaConfig::new_with_defaults(selection_size) }
}

fn create(selection_size: usize, elite_size: usize, node_size: usize) -> Population {
    Rosomaxa::new(VectorObjective::new(1, false), config(selection_size, elite_size, node_size))
        .expect("the settings are above their thresholds")
}

fn ranked_fitness(population: &Population) -> Vec<Vec<i64>> {
    population.ranked().into_iter().map(|(individual, _)| individual.fitness.clone()).collect()
}

fn network_of(population: &Population) -> &Network<VectorObjective, VectorSolution> {
    match &population.phase {
        RosomaxaPhases::Exploration { network, .. } => network,
        _ => panic!("the population does not explore"),
    }
}

fn coordinates_of(population: &Population) -> &Vec<CoordinateInfo> {
    match &population.phase {
        RosomaxaPhases::Exploration { coordinates, .. } => coordinates,
        _ => panic!("the population does not explore"),
    }
}

#[test]
fn default_config_has_documented_values() {
    let config = RosomaxaConfig::new_with_defaults(8);

    assert_eq!(config.selection_size, 8);
    assert_eq!(config.elite_size, 2);
    assert_eq!(config.node_size, 2);
    assert_eq!(config.spread_threshold, 287_682);
    assert_eq!(config.distribution_factor, 250_000);
    assert_eq!(config.objective_reshuffling, 10_000);
    assert_eq!(config.learning_rate, 100_000);
    assert_eq!(config.rebalance_memory, 100);
    assert_eq!(config.rebalance_count, 2);
    assert_eq!(config.exploration_ratio, 900_000);
}

#[test]
fn construction_fails_below_thresholds() {
    let message = "Rosomaxa algorithm requires some parameters to be above thresholds";
    for (selection_size, elite_size, node_size) in [(4, 0, 2), (4, 2, 0), (1, 2, 2), (0, 0, 0)] {
        let result = Population::new(VectorObjective::new(1, false), config(selection_size, elite_size, node_size));
        assert_eq!(result.err().as_deref(), Some(message));
    }
    assert!(Population::new(VectorObjective::new(1, false), config(2, 1, 1)).is_ok());
}

#[test]
fn new_population_is_empty_and_initial() {
    let mut random = DefaultRandom::new_repeatable(1);
    let population = create(4, 2, 2);

    assert_eq!(population.selection_phase(), SelectionPhase::Initial);
    assert_eq!(population.size(), 0);
    assert!(population.select(&mut random).is_empty());
    assert!(population.ranked().is_empty());
}

#[test]
fn buffers_first_solutions_in_initial_phase() {
    let mut random = DefaultRandom::new_repeatable(1);
    let mut population = create(4, 2, 2);

    assert!(population.add(solution(10, 0), &mut random));
    assert!(population.add(solution(8, 1000), &mut random));
    assert!(!population.add(solution(12, 2000), &mut random));
    population.on_generation(&statistics(1, 0, 0), &mut random);

    assert_eq!(population.selection_phase(), SelectionPhase::Initial);
    assert_eq!(population.size(), 2);
    assert_eq!(ranked_fitness(&population), vec![vec![8], vec![10]]);
    match &population.phase {
        RosomaxaPhases::Initial { solutions } => assert_eq!(solutions.len(), 3),
        _ => panic!("the population left its initial phase"),
    }
}

#[test]
fn seeds_the_map_with_four_solutions() {
    let mut random = DefaultRandom::new_repeatable(1);
    let mut population = create(4, 2, 2);
    population.add(solution(10, 0), &mut random);
    population.add(solution(8, 1000), &mut random);
    population.add(solution(12, 2000), &mut random);
    population.on_generation(&statistics(1, 0, 0), &mut random);

    assert!(population.add(solution(7, 3000), &mut random));
    population.on_generation(&statistics(2, 0, 0), &mut random);

    assert_eq!(population.selection_phase(), SelectionPhase::Exploration);
    assert_eq!(network_of(&population).size(), 4);
    assert!(coordinates_of(&population).len() <= 4);
    assert_eq!(ranked_fitness(&population), vec![vec![7], vec![8]]);
    let places: Vec<Coordinate> = network_of(&population).get_nodes().iter().map(|node| node.coordinate).collect();
    assert_eq!(places, vec![Coordinate(0, 0), Coordinate(0, 1), Coordinate(1, 0), Coordinate(1, 1)]);
}

#[test]
fn size_never_exceeds_elite_size() {
    let mut random = DefaultRandom::new_repeatable(7);
    let mut population = create(4, 3, 2);

    for (step, fitness) in [50, 40, 45, 30, 60, 20, 10, 70, 5, 55].into_iter().enumerate() {
        population.add(solution(fitness, step as i32 * 1000), &mut random);
        population.on_generation(&statistics(step, 100_000, 0), &mut random);
        assert!(population.size() <= 3);
        let ranked = population.ranked();
        for (position, (_, rank)) in ranked.iter().enumerate() {
            assert_eq!(*rank, position);
        }
        for pair in ranked.windows(2) {
            assert_eq!(population.cmp(pair[0].0, pair[1].0), Preference::Less);
        }
    }
    assert_eq!(ranked_fitness(&population), vec![vec![5], vec![10], vec![20]]);
}

#[test]
fn add_all_filters_by_the_best_known_before() {
    let mut random = DefaultRandom::new_repeatable(3);
    let mut population = create(4, 3, 2);
    population.add(solution(10, 0), &mut random);

    let improved = population.add_all(vec![solution(12, 1), solution(9, 2), solution(10, 3), solution(8, 4)], &mut random);

    assert!(improved);
    // 12 is strictly worse than the best known 10 and stays out; 10 is there already
    assert_eq!(ranked_fitness(&population), vec![vec![8], vec![9], vec![10]]);
    match &population.phase {
        RosomaxaPhases::Initial { solutions } => assert_eq!(solutions.len(), 5),
        _ => panic!("the population left its initial phase"),
    }
}

#[test]
fn moves_from_exploration_to_exploitation() {
    let mut random = DefaultRandom::new_repeatable(5);
    let mut population = create(4, 2, 2);
    for (fitness, weight) in [(10, 0), (8, 1000), (12, 2000), (7, 3000)] {
        population.add(solution(fitness, weight), &mut random);
    }
    population.on_generation(&statistics(1, 100_000, 0), &mut random);
    assert_eq!(population.selection_phase(), SelectionPhase::Exploration);
    population.on_generation(&statistics(2, 899_999, 0), &mut random);
    assert_eq!(population.selection_phase(), SelectionPhase::Exploration);

    population.on_generation(&statistics(3, 950_000, 0), &mut random);

    assert_eq!(population.selection_phase(), SelectionPhase::Exploitation);
    let selected: Vec<Vec<i64>> = population.select(&mut random).into_iter().map(|s| s.fitness.clone()).collect();
    assert_eq!(selected, vec![vec![7], vec![8]]);
    // what is added now only reaches the archive of the best
    population.add(solution(6, 4000), &mut random);
    population.on_generation(&statistics(4, 100_000, 0), &mut random);
    assert_eq!(population.selection_phase(), SelectionPhase::Exploitation);
    assert_eq!(ranked_fitness(&population), vec![vec![6], vec![7]]);
}

#[test]
fn slow_speed_lowers_the_exploration_ratio() {
    assert!(keeps_exploring(899_999, 900_000, &HeuristicSpeed::Moderate));
    assert!(!keeps_exploring(900_000, 900_000, &HeuristicSpeed::Moderate));
    assert!(keeps_exploring(449_999, 900_000, &HeuristicSpeed::Slow(500_000)));
    assert!(!keeps_exploring(450_000, 900_000, &HeuristicSpeed::Slow(500_000)));
    assert!(!keeps_exploring(0, 900_000, &HeuristicSpeed::Slow(0)));
    // a third of one is no whole number of millionths: 300000 lies just below it
    assert!(keeps_exploring(300_000, 900_001, &HeuristicSpeed::Slow(333_333)));
    assert!(!keeps_exploring(u64::MAX, u64::MAX, &HeuristicSpeed::Slow(1_000_000)));
}

#[test]
fn exploration_ratio_follows_the_speed_of_the_generation() {
    let mut random = DefaultRandom::new_repeatable(5);
    let mut population = create(4, 2, 2);
    for (fitness, weight) in [(10, 0), (8, 1000), (12, 2000), (7, 3000)] {
        population.add(solution(fitness, weight), &mut random);
    }
    let slow = |termination_estimate: u64| HeuristicStatistics {
        speed: HeuristicSpeed::Slow(500_000),
        ..statistics(1, termination_estimate, 0)
    };
    population.on_generation(&slow(100_000), &mut random);
    population.on_generation(&slow(100_000), &mut random);
    assert_eq!(population.selection_phase(), SelectionPhase::Exploration);

    // the speed before was slow, this generation is moderate: 0.6 lies below 0.9
    population.on_generation(&statistics(3, 600_000, 0), &mut random);
    assert_eq!(population.selection_phase(), SelectionPhase::Exploration);

    // at a slow speed of one half the ratio is 0.45, which the estimate reaches
    population.on_generation(&slow(450_000), &mut random);
    assert_eq!(population.selection_phase(), SelectionPhase::Exploitation);
    assert_eq!(ranked_fitness(&population), vec![vec![7], vec![8]]);
}

#[test]
fn selection_size_follows_the_speed() {
    assert_eq!(tune_selection_size(8, &HeuristicSpeed::Moderate), 8);
    assert_eq!(tune_selection_size(8, &HeuristicSpeed::Slow(500_000)), 4);
    assert_eq!(tune_selection_size(5, &HeuristicSpeed::Slow(500_000)), 3);
    assert_eq!(tune_selection_size(8, &HeuristicSpeed::Slow(10_000)), 1);
    assert_eq!(tune_selection_size(8, &HeuristicSpeed::Slow(0)), 1);
}

#[test]
fn keep_size_follows_the_improvement_ratio() {
    let with = |improvement: u64, decay: u64| HeuristicStatistics {
        termination_decay: decay,
        ..statistics(1, 0, improvement)
    };
    assert_eq!(get_keep_size(&with(5_000, 0), 4), 16);
    assert_eq!(get_keep_size(&with(10_000, 0), 4), 16);
    assert_eq!(get_keep_size(&with(10_001, 0), 4), 12);
    assert_eq!(get_keep_size(&with(100_000, 0), 4), 12);
    assert_eq!(get_keep_size(&with(150_000, 0), 4), 8);
    assert_eq!(get_keep_size(&with(200_000, 0), 4), 8);
    assert_eq!(get_keep_size(&with(200_001, 500_000), 4), 6);
    assert_eq!(get_keep_size(&with(900_000, 993_307), 100), 199);
    assert_eq!(get_keep_size(&with(900_000, 0), 100), 100);
    // ten and 2.689 of ten give 12.689, which is thirteen to the nearest
    assert_eq!(get_keep_size(&with(300_000, 268_941), 10), 13);
    assert_eq!(get_keep_size(&with(300_000, 250_000), 10), 13);
    assert_eq!(get_keep_size(&with(300_000, 249_999), 10), 12);
}

#[test]
fn shuffle_amount_follows_the_improvement_ratio() {
    let with = |improvement: u64, decay: u64| HeuristicStatistics {
        termination_decay: decay,
        ..statistics(1, 0, improvement)
    };
    assert_eq!(Population::calculate_shuffle_amount(&with(0, 0), 4), 4);
    assert_eq!(Population::calculate_shuffle_amount(&with(200_000, 0), 10), 10);
    assert_eq!(Population::calculate_shuffle_amount(&with(300_000, 0), 10), 5);
    assert_eq!(Population::calculate_shuffle_amount(&with(300_000, 0), 5), 3);
    assert_eq!(Population::calculate_shuffle_amount(&with(600_000, 1_000_000), 10), 5);
    assert_eq!(Population::calculate_shuffle_amount(&with(600_000, 600_000), 10), 3);
    assert_eq!(Population::calculate_shuffle_amount(&with(600_000, 0), 10), 1);
}

#[test]
fn refills_coordinates_from_the_nodes() {
    let mut random = DefaultRandom::new_repeatable(11);
    let config = config(4, 2, 2);
    let individuals = vec![solution(7, 0), solution(8, 10_000), solution(10, 20_000), solution(12, 30_000)];
    let network = Population::create_network(VectorObjective::new(1, false), &config, individuals, &mut random);
    let mut coordinates: Vec<CoordinateInfo> = vec![(Coordinate(9, 9), 1, 1)];
    let statistics = statistics(3, 100_000, 0);

    Population::fill_populations(&network, &mut coordinates, &vec![7], &statistics, &mut random);

    assert_eq!(Population::calculate_shuffle_amount(&statistics, 4), 4);
    assert_eq!(coordinates.len(), 4);
    coordinates.sort();
    assert_eq!(
        coordinates,
        vec![
            (Coordinate(0, 0), 0, 0),
            (Coordinate(0, 1), 125_000, 0),
            (Coordinate(1, 0), 300_000, 0),
            (Coordinate(1, 1), 416_666, 0),
        ]
    );
}

#[test]
fn lists_the_places_in_the_order_of_the_nodes() {
    let mut random = DefaultRandom::new_repeatable(11);
    let individuals = vec![solution(12, 0), solution(7, 10_000), solution(10, 20_000), solution(8, 30_000)];
    let network = Population::create_network(VectorObjective::new(1, false), &config(4, 2, 2), individuals, &mut random);
    let mut coordinates: Vec<CoordinateInfo> = vec![];

    Population::snapshot_populations(&network, &mut coordinates, &vec![7]);

    assert_eq!(
        coordinates,
        vec![
            (Coordinate(0, 0), 416_666, 0),
            (Coordinate(0, 1), 0, 0),
            (Coordinate(1, 0), 300_000, 0),
            (Coordinate(1, 1), 125_000, 0),
        ]
    );
}

#[test]
fn arranges_the_places_for_the_shuffle() {
    let unordered: Vec<CoordinateInfo> =
        vec![(Coordinate(0, 0), 30, 2), (Coordinate(0, 1), 10, 3), (Coordinate(1, 0), 20, 1), (Coordinate(1, 1), 5, 0)];
    let half = statistics(1, 0, 300_000);

    let mut by_distance = unordered.clone();
    let amount = Population::arrange_coordinates(&mut by_distance, &half, true);
    let mut by_age = unordered.clone();
    Population::arrange_coordinates(&mut by_age, &half, false);
    let mut untouched = unordered.clone();
    let all = Population::arrange_coordinates(&mut untouched, &statistics(1, 0, 0), true);

    assert_eq!(amount, 2);
    assert_eq!(by_distance.iter().map(|info| info.1).collect::<Vec<_>>(), vec![5, 10, 20, 30]);
    assert_eq!(by_age.iter().map(|info| info.2).collect::<Vec<_>>(), vec![0, 1, 2, 3]);
    assert_eq!(all, 4);
    assert_eq!(untouched, unordered);
}

#[test]
fn places_stay_in_order_where_none_is_shuffled() {
    let mut random = DefaultRandom::new_repeatable(11);
    let individuals = vec![solution(12, 0), solution(7, 10_000), solution(10, 20_000), solution(8, 30_000)];
    let network = Population::create_network(VectorObjective::new(1, false), &config(4, 2, 2), individuals, &mut random);
    // a decay of nothing gives a tenth of four places, which is none to the nearest
    let none = HeuristicStatistics { termination_decay: 0, ..statistics(1, 0, 600_000) };
    assert_eq!(Population::calculate_shuffle_amount(&none, 4), 0);

    for _ in 0..10 {
        let mut coordinates: Vec<CoordinateInfo> = vec![];
        Population::fill_populations(&network, &mut coordinates, &vec![7], &none, &mut random);
        let distances: Vec<u64> = coordinates.iter().map(|info| info.1).collect();
        // all nodes were hit at the same time: ordering by the time leaves the order of the nodes
        assert!(distances == vec![0, 125_000, 300_000, 416_666] || distances == vec![416_666, 0, 300_000, 125_000]);
    }
}

#[test]
fn orders_coordinates_by_distance_or_by_age() {
    let unordered: Vec<CoordinateInfo> =
        vec![(Coordinate(0, 0), 30, 2), (Coordinate(0, 1), 10, 3), (Coordinate(1, 0), 20, 1), (Coordinate(1, 1), 10, 0)];

    let mut by_distance = unordered.clone();
    order_coordinates(&mut by_distance, true);
    let mut by_age = unordered.clone();
    order_coordinates(&mut by_age, false);

    assert_eq!(by_distance.iter().map(|info| info.1).collect::<Vec<_>>(), vec![10, 10, 20, 30]);
    assert_eq!(by_age.iter().map(|info| info.2).collect::<Vec<_>>(), vec![0, 1, 2, 3]);
    let mut sorted = by_distance.clone();
    sorted.sort();
    let mut expected = unordered.clone();
    expected.sort();
    assert_eq!(sorted, expected);
}

fn grown_map(random: &mut DefaultRandom) -> Network<VectorObjective, VectorSolution> {
    // with a growth threshold of zero, every input that misses its node makes the map grow
    let config = RosomaxaConfig { spread_threshold: 0, objective_reshuffling: 0, ..config(4, 2, 2) };
    let seeds = vec![solution(100, 0), solution(110, 10_000), solution(120, 20_000), solution(130, 30_000)];
    let mut network = Population::create_network(VectorObjective::new(1, false), &config, seeds, random);
    for seed in 0..4 {
        let weight = network.get_nodes()[seed].weights[0] + 100;
        network.store(solution(1000 + seed as i64, weight), 1, random);
    }
    assert_eq!(network.size(), 12);
    let mut fitness = 140;
    for node in 0..12 {
        if network.get_nodes()[node].storage.size() == 0 {
            let weight = network.get_nodes()[node].weights[0];
            network.store(solution(fitness, weight), 1, random);
            fitness += 10;
        }
    }
    assert_eq!(network.size(), 12);
    assert!(network.get_nodes().iter().all(|node| node.storage.size() > 0));
    network
}

fn best_fitness_of_nodes(network: &Network<VectorObjective, VectorSolution>) -> Vec<i64> {
    let mut best: Vec<i64> = network.get_nodes().iter().map(|node| node.storage.individuals[0].fitness[0]).collect();
    best.sort();
    best
}

#[test]
fn keeps_the_map_while_it_is_small_enough() {
    let mut random = DefaultRandom::new_repeatable(13);
    let mut network = grown_map(&mut random);
    let before = best_fitness_of_nodes(&network);

    // a ratio of 0.005 keeps four times the rebalance memory: 16 nodes
    Population::optimize_network(&mut network, &statistics(2, 100_000, 5_000), &vec![100], 4, 0, &mut random);

    assert_eq!(network.size(), 12);
    assert_eq!(best_fitness_of_nodes(&network), before);
}

#[test]
fn keeps_the_map_in_generation_zero() {
    let mut random = DefaultRandom::new_repeatable(13);
    let mut network = grown_map(&mut random);

    Population::optimize_network(&mut network, &statistics(0, 100_000, 150_000), &vec![100], 4, 0, &mut random);

    assert_eq!(network.size(), 12);
}

#[test]
fn prunes_the_nodes_far_from_the_best() {
    let mut random = DefaultRandom::new_repeatable(13);
    let mut network = grown_map(&mut random);
    assert_eq!(best_fitness_of_nodes(&network), vec![100, 110, 120, 130, 140, 150, 160, 170, 180, 190, 200, 210]);

    // a ratio of 0.15 keeps twice the rebalance memory: 8 nodes; the distance at the
    // percentile index is that of the fifth farthest node, and only nodes below it stay
    Population::optimize_network(&mut network, &statistics(2, 100_000, 150_000), &vec![100], 4, 0, &mut random);

    let left = best_fitness_of_nodes(&network);
    for farthest in [180, 190, 200, 210] {
        assert!(!left.contains(&farthest));
    }
    assert_eq!(left, vec![100, 110, 120, 130, 140, 150, 160]);
}

#[test]
fn composes_selection_from_elite_and_nodes() {
    let mut random = DefaultRandom::new_repeatable(17);
    let mut population = create(7, 4, 2);
    for (fitness, weight) in [(40, 0), (30, 10_000), (20, 20_000), (10, 30_000), (35, 100), (25, 10_100)] {
        population.add(solution(fitness, weight), &mut random);
    }
    population.on_generation(&statistics(1, 100_000, 0), &mut random);
    population.on_generation(&statistics(2, 100_000, 0), &mut random);
    assert_eq!(population.selection_phase(), SelectionPhase::Exploration);
    let coordinates = coordinates_of(&population).clone();
    assert!(!coordinates.is_empty());

    let picks = vec![2; coordinates.len()];
    let selected: Vec<i64> = population.select_with(3, &picks).into_iter().map(|s| s.fitness[0]).collect();

    let mut expected: Vec<i64> = vec![10, 20, 30];
    for (coordinate, _, _) in coordinates.iter() {
        let node = network_of(&population).find(coordinate).expect("a node lies at each listed place");
        expected.extend(node.storage.individuals.iter().take(2).map(|s| s.fitness[0]));
    }
    expected.truncate(7);
    assert_eq!(selected.len(), 7);
    assert_eq!(selected, expected);
    assert_eq!(&selected[..3], &[10, 20, 30]);
}

#[test]
fn selects_within_the_selection_size_while_exploring() {
    let mut random = DefaultRandom::new_repeatable(19);
    let mut population = create(3, 4, 2);
    for (fitness, weight) in [(40, 0), (30, 10_000), (20, 20_000), (10, 30_000), (35, 100), (25, 10_100)] {
        population.add(solution(fitness, weight), &mut random);
    }
    population.on_generation(&statistics(1, 100_000, 0), &mut random);
    population.on_generation(&statistics(2, 100_000, 0), &mut random);

    for _ in 0..20 {
        let selected: Vec<i64> = population.select(&mut random).into_iter().map(|s| s.fitness[0]).collect();
        assert_eq!(selected.len(), 3);
        // a selection size of three takes two from the archive of the best
        assert_eq!(&selected[..2], &[10, 20]);
    }
}

#[test]
fn selection_repeats_outside_exploration() {
    let mut random = DefaultRandom::new_repeatable(23);
    let mut population = create(4, 3, 2);
    for (fitness, weight) in [(40, 0), (30, 1), (20, 2)] {
        population.add(solution(fitness, weight), &mut random);
    }

    let first: Vec<i64> = population.select(&mut random).into_iter().map(|s| s.fitness[0]).collect();
    let second: Vec<i64> = population.select(&mut random).into_iter().map(|s| s.fitness[0]).collect();

    assert_eq!(first, vec![20, 30, 40]);
    assert_eq!(first, second);
}

#[test]
fn stores_added_solutions_in_the_map_while_exploring() {
    let mut random = DefaultRandom::new_repeatable(29);
    let mut population = create(4, 2, 2);
    for (fitness, weight) in [(10, 0), (8, 10_000), (12, 20_000), (7, 30_000)] {
        population.add(solution(fitness, weight), &mut random);
    }
    population.on_generation(&statistics(5, 100_000, 0), &mut random);

    population.add(solution(9, 10_010), &mut random);

    let node = network_of(&population).find(&Coordinate(0, 1)).expect("the seed is there");
    let held: Vec<i64> = node.storage.individuals.iter().map(|s| s.fitness[0]).collect();
    assert_eq!(held, vec![8, 9]);
    assert_eq!(node.last_hit, 5);
    assert_eq!(network_of(&population).get_current_time(), 5);
}
