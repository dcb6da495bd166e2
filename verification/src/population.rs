//! Integer bookkeeping of the neural-network trainer: how many parameters
//! a layered network has, and how many candidates a genetic-algorithm
//! generation holds and drops.

use vstd::prelude::*;

verus! {

/// Weights and biases of the first `n` layers: each layer after the first
/// has one weight per neuron of the layer before, plus a bias, for each of
/// its neurons.
pub open spec fn layer_parameters(layers: Seq<u32>, n: int) -> int
    decreases n,
{
    if n <= 1 {
        0
    } else {
        layer_parameters(layers, n - 1) + layers[n - 1] * (layers[n - 2] + 1)
    }
}

proof fn lemma_layer_parameters_grow(layers: Seq<u32>, m: int, n: int)
    requires
        1 <= m <= n <= layers.len(),
    ensures
        0 <= layer_parameters(layers, m) <= layer_parameters(layers, n),
    decreases n,
{
    if n > 1 {
        assert(layers[n - 1] * (layers[n - 2] + 1) >= 0) by (nonlinear_arith)
            requires
                layers[n - 1] >= 0,
                layers[n - 2] >= 0,
        ;
        if m < n {
            lemma_layer_parameters_grow(layers, m, n - 1);
        } else {
            lemma_layer_parameters_grow(layers, n - 1, n - 1);
        }
    }
}

/// The number of parameters (weights and biases) of a network with the
/// given layer widths, input layer first.
pub fn parameters_count(layers: &[u32]) -> (count: u32)
    requires
        layers@.len() >= 1,
        forall|i: int| 0 <= i < layers@.len() - 1 ==> #[trigger] layers@[i] < u32::MAX,
        layer_parameters(layers@, layers@.len() as int) <= u32::MAX,
    ensures
        count == layer_parameters(layers@, layers@.len() as int),
{
    let mut current = layers[0];
    let mut sum: u32 = 0;
    let mut i: usize = 1;
    while i < layers.len()
        invariant
            1 <= i <= layers@.len(),
            current == layers@[i - 1],
            sum == layer_parameters(layers@, i as int),
            forall|j: int| 0 <= j < layers@.len() - 1 ==> #[trigger] layers@[j] < u32::MAX,
            layer_parameters(layers@, layers@.len() as int) <= u32::MAX,
        decreases layers.len() - i,
    {
        proof {
            lemma_layer_parameters_grow(layers@, i + 1, layers@.len() as int);
            lemma_layer_parameters_grow(layers@, i as int, i as int);
            assert(layers@[i as int] * (current + 1) >= 0) by (nonlinear_arith)
                requires
                    layers@[i as int] >= 0,
                    current >= 0,
            ;
        }
        sum = sum + layers[i] * (current + 1);
        current = layers[i];
        i = i + 1;
    }
    sum
}

/// How a genetic algorithm's generation is made up: survivors kept as
/// they are, mutants made in rounds, and recombined pairs made in rounds.
pub struct PopulationShape {
    pub elitism: u32,
    pub mutants: u32,
    pub mutation_rounds: u32,
    pub recombinations: u32,
    pub recombination_rounds: u32,
}

/// The candidates of one generation.
pub open spec fn population_of(s: PopulationShape) -> int {
    s.elitism + s.mutants * s.mutation_rounds + s.recombinations * s.recombination_rounds * 2
}

/// The candidates dropped after a generation is ranked: all but one round
/// of mutants and of recombinations.
pub open spec fn eliminated_of(s: PopulationShape) -> int {
    s.elitism + s.mutants * (s.mutation_rounds - 1) + s.recombinations * (s.recombination_rounds - 1) * 2
}

proof fn lemma_products_nonnegative(a: int, b: int)
    by (nonlinear_arith)
    requires
        a >= 0,
        b >= 0,
    ensures
        a * b >= 0,
        a * b * 2 >= 0,
{
}

impl PopulationShape {
    /// The number of candidates in one generation.
    pub fn population_size(&self) -> (size: u32)
        requires
            population_of(*self) <= u32::MAX,
        ensures
            size == population_of(*self),
    {
        proof {
            lemma_products_nonnegative(self.mutants as int, self.mutation_rounds as int);
            lemma_products_nonnegative(self.recombinations as int, self.recombination_rounds as int);
        }
        self.elitism + self.mutants * self.mutation_rounds + self.recombinations * self.recombination_rounds * 2
    }

    /// The number of candidates dropped from a ranked generation.
    pub fn elimination_count(&self) -> (count: u32)
        requires
            self.mutation_rounds >= 1,
            self.recombination_rounds >= 1,
            eliminated_of(*self) <= u32::MAX,
        ensures
            count == eliminated_of(*self),
    {
        proof {
            lemma_products_nonnegative(self.mutants as int, self.mutation_rounds - 1);
            lemma_products_nonnegative(self.recombinations as int, self.recombination_rounds - 1);
        }
        self.elitism + self.mutants * (self.mutation_rounds - 1) + self.recombinations * (self.recombination_rounds - 1) * 2
    }
}

} // verus!
