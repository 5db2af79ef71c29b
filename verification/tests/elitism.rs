use rosomaxa::population::example::{VectorObjective, VectorSolution};
use rosomaxa::population::objective::{Objective, Preference, Solution};
use rosomaxa::population::Elitism;
use rosomaxa::utils::DefaultRandom;

type Archive = Elitism<VectorObjective, VectorSolution>;

fn solution(fitness: &[i64]) -> VectorSolution {
    VectorSolution::new(fitness.to_vec(), vec![])
}

fn members(archive: &Archive) -> Vec<Vec<i64>> {
    archive.ranked().into_iter().map(|(individual, _)| individual.fitness.clone()).collect()
}

#[test]
fn new_archive_is_empty() {
    let archive = Archive::new(VectorObjective::new(1, true), 3, 2);

    assert_eq!(archive.size(), 0);
    assert!(archive.select().is_empty());
    assert!(archive.best().is_none());
}

#[test]
fn dominated_candidate_is_turned_away() {
    let mut archive = Archive::new(VectorObjective::new(2, true), 3, 2);
    assert!(archive.add(solution(&[1, 1])));

    assert!(!archive.add(solution(&[2, 1])));
    assert!(!archive.add(solution(&[1, 2])));
    assert!(!archive.add(solution(&[5, 5])));

    assert_eq!(members(&archive), vec![vec![1, 1]]);
}

#[test]
fn candidate_evicts_the_members_it_dominates() {
    let mut archive = Archive::new(VectorObjective::new(2, true), 4, 2);
    assert!(archive.add(solution(&[1, 9])));
    assert!(!archive.add(solution(&[5, 5])));
    assert!(!archive.add(solution(&[9, 1])));
    assert_eq!(members(&archive), vec![vec![1, 9], vec![5, 5], vec![9, 1]]);

    // [4, 4] dominates [5, 5] only; it displaces a member without becoming the best
    assert!(archive.add(solution(&[4, 4])));

    assert_eq!(members(&archive), vec![vec![1, 9], vec![4, 4], vec![9, 1]]);
}

#[test]
fn worst_ranked_leave_beyond_capacity() {
    let mut archive = Archive::new(VectorObjective::new(2, true), 2, 2);
    archive.add(solution(&[5, 5]));
    archive.add(solution(&[9, 1]));

    // the new best pushes the worst-ranked member out
    assert!(archive.add(solution(&[1, 9])));
    assert_eq!(members(&archive), vec![vec![1, 9], vec![5, 5]]);

    // a candidate that ranks last in a full archive leaves it again at once
    assert!(!archive.add(solution(&[10, 0])));
    assert_eq!(members(&archive), vec![vec![1, 9], vec![5, 5]]);
}

#[test]
fn no_member_dominates_another() {
    let objective = VectorObjective::new(2, true);
    let mut archive = Archive::new(objective, 5, 2);
    for fitness in [[5, 5], [3, 8], [8, 3], [4, 4], [3, 3], [9, 1], [1, 9], [2, 2], [7, 7], [0, 10]] {
        archive.add(solution(&fitness));
        let ranked = archive.ranked();
        for (a, _) in ranked.iter() {
            for (b, _) in ranked.iter() {
                assert!(!objective.is_dominating(a, b));
            }
        }
        for pair in ranked.windows(2) {
            assert_eq!(archive.cmp(pair[0].0, pair[1].0), Preference::Less);
        }
        assert!(archive.size() <= 5);
    }
    assert_eq!(members(&archive), vec![vec![0, 10], vec![1, 9], vec![2, 2], vec![9, 1]]);
}

#[test]
fn adding_twice_is_adding_once() {
    let mut once = Archive::new(VectorObjective::new(2, true), 3, 2);
    let mut twice = Archive::new(VectorObjective::new(2, true), 3, 2);
    for fitness in [[5, 5], [3, 8], [8, 3], [4, 9]] {
        once.add(solution(&fitness));
        twice.add(solution(&fitness));
        assert!(!twice.add(solution(&fitness)));
    }

    assert_eq!(members(&once), members(&twice));
}

#[test]
fn add_all_is_repeated_add() {
    let mut one_by_one = Archive::new(VectorObjective::new(1, false), 3, 2);
    let mut at_once = Archive::new(VectorObjective::new(1, false), 3, 2);
    let mut improved = false;
    for fitness in [[10], [8], [12], [7], [9]] {
        improved = one_by_one.add(solution(&fitness)) || improved;
    }

    let improved_at_once =
        at_once.add_all(vec![solution(&[10]), solution(&[8]), solution(&[12]), solution(&[7]), solution(&[9])]);

    assert_eq!(members(&at_once), vec![vec![7], vec![8], vec![9]]);
    assert_eq!(members(&at_once), members(&one_by_one));
    assert_eq!(improved_at_once, improved);
    assert!(!at_once.add_all(vec![]));
}

#[test]
fn select_yields_the_best_first() {
    let mut archive = Archive::new(VectorObjective::new(1, false), 4, 2);
    archive.add_all(vec![solution(&[3]), solution(&[1]), solution(&[2])]);

    let selected: Vec<i64> = archive.select().into_iter().map(|s| s.fitness[0]).collect();
    let ranked: Vec<(i64, usize)> = archive.ranked().into_iter().map(|(s, rank)| (s.fitness[0], rank)).collect();

    assert_eq!(selected, vec![1, 2]);
    assert_eq!(ranked, vec![(1, 0), (2, 1), (3, 2)]);
    assert_eq!(archive.best().map(|s| s.fitness[0]), Some(1));
}

#[test]
fn shuffle_keeps_the_members() {
    let mut random = DefaultRandom::new_repeatable(31);
    let mut archive = Archive::new(VectorObjective::new(2, true), 4, 2);
    archive.add_all(vec![solution(&[1, 9]), solution(&[5, 5]), solution(&[9, 1])]);
    let mut before = members(&archive);
    before.sort();

    for _ in 0..10 {
        archive.shuffle_objective(&mut random);
        assert!(archive.objective.primary < 2);
        let mut after = members(&archive);
        for pair in archive.ranked().windows(2) {
            assert_eq!(archive.cmp(pair[0].0, pair[1].0), Preference::Less);
        }
        after.sort();
        assert_eq!(after, before);
    }
}

#[test]
fn shuffle_with_another_primary_component_ranks_anew() {
    let mut archive = Archive::new(VectorObjective::new(2, true), 4, 2);
    archive.add_all(vec![solution(&[1, 9]), solution(&[5, 5]), solution(&[9, 1])]);
    assert_eq!(members(&archive), vec![vec![1, 9], vec![5, 5], vec![9, 1]]);

    archive.shuffle_objective_with(1);

    assert_eq!(archive.objective.primary, 1);
    assert_eq!(members(&archive), vec![vec![9, 1], vec![5, 5], vec![1, 9]]);
}

#[test]
fn drain_removes_a_range_of_ranks() {
    let mut archive = Archive::new(VectorObjective::new(1, false), 5, 2);
    archive.add_all(vec![solution(&[4]), solution(&[1]), solution(&[3]), solution(&[2])]);

    let drained: Vec<i64> = archive.drain(1, 3).into_iter().map(|s| s.fitness[0]).collect();

    assert_eq!(drained, vec![2, 3]);
    assert_eq!(members(&archive), vec![vec![1], vec![4]]);
    assert_eq!(archive.drain(0, 2).len(), 2);
    assert_eq!(archive.size(), 0);
}

#[test]
fn vector_objective_orders_by_primary_then_in_turn() {
    let objective = VectorObjective::new(3, true);
    let a = solution(&[1, 5, 5]);
    let b = solution(&[1, 5, 6]);
    let c = solution(&[0, 9, 9]);

    assert_eq!(objective.total_order(&a, &b), Preference::Less);
    assert_eq!(objective.total_order(&b, &a), Preference::Greater);
    assert_eq!(objective.total_order(&a, &a), Preference::Equal);
    assert_eq!(objective.total_order(&c, &a), Preference::Less);
    assert_eq!(objective.shuffled(1).total_order(&c, &a), Preference::Greater);
    assert_eq!(objective.shuffled(4).primary, 1);
    assert!(objective.is_dominating(&a, &b));
    assert!(!objective.is_dominating(&b, &a));
    assert!(!objective.is_dominating(&a, &c));
    assert!(!objective.is_dominating(&a, &a));
    assert!(!VectorObjective::new(3, false).is_dominating(&a, &b));
    assert_eq!(objective.duplicate(), objective);
}

#[test]
fn vector_solution_copies_deeply() {
    let original = VectorSolution::new(vec![1, 2], vec![3, 4, 5]);

    let copy = original.deep_copy();

    assert_eq!(copy, original);
    assert_eq!(original.get_fitness(), vec![1, 2]);
    assert_eq!(original.weights(), vec![3, 4, 5]);
}
