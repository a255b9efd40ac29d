use pareto_layout::collision::count_collisions;
use pareto_layout::fitness::{mo_fitness, mo_fitness_and_validity};

#[test]
fn mo_fitness_concatenates_objective_values() {
    let values = vec![vec![0.5], vec![], vec![0.25, 1.0]];
    assert_eq!(mo_fitness(values), vec![0.5, 0.25, 1.0]);
    assert_eq!(mo_fitness(Vec::<Vec<f64>>::new()), Vec::<f64>::new());
}

#[test]
fn validity_needs_every_required_objective_met() {
    let values = vec![vec![0.9], vec![1.0], vec![0.3]];
    let (valid, fitness) = mo_fitness_and_validity(&vec![false, true, false], &vec![false, true, false], values.clone());
    assert!(valid);
    assert_eq!(fitness, vec![0.9, 1.0, 0.3]);
    let (valid, _) = mo_fitness_and_validity(&vec![true, true, false], &vec![false, true, false], values);
    assert!(!valid);
}

#[test]
fn count_collisions_skips_the_diagonal() {
    let hits = vec![
        vec![true, false, false],
        vec![false, true, true],
        vec![false, false, true],
    ];
    assert_eq!(count_collisions(&hits), 1);
    assert_eq!(count_collisions(&vec![vec![false, true], vec![true]]), 2);
    assert_eq!(count_collisions(&vec![]), 0);
}
