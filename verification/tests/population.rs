use light_robot_core::population::{parameters_count, PopulationShape};

#[test]
fn parameters_count_counts_weights_and_biases() {
    // 3 * (2 + 1) + 1 * (3 + 1)
    assert_eq!(parameters_count(&[2, 3, 1]), 13);
    assert_eq!(parameters_count(&[4, 8, 8, 2]), 8 * 5 + 8 * 9 + 2 * 9);
}

#[test]
fn single_layer_has_no_parameters() {
    assert_eq!(parameters_count(&[7]), 0);
}

#[test]
fn generation_sizes() {
    let shape = PopulationShape { elitism: 2, mutants: 3, mutation_rounds: 4, recombinations: 1, recombination_rounds: 2 };
    assert_eq!(shape.population_size(), 18);
    assert_eq!(shape.elimination_count(), 13);
}

#[test]
fn one_round_each_keeps_only_the_elite_out_of_the_cut() {
    let shape = PopulationShape { elitism: 5, mutants: 10, mutation_rounds: 1, recombinations: 4, recombination_rounds: 1 };
    assert_eq!(shape.population_size(), 5 + 10 + 8);
    assert_eq!(shape.elimination_count(), 5);
}
