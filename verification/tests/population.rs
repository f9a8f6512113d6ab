use evosim::genetic_algorithm::roulette_wheel::{weight_cap, weight_of, MIN_WEIGHT};
use evosim::genetic_algorithm::{
    Individual, Population, PopulationStatistics, RouletteWheelPopulation,
};
use evosim::gridworld_sim::{Brain, Config};
use evosim::neural_network::Network;
use rand::rngs::StdRng;
use rand::SeedableRng;

fn small_config() -> Config {
    Config { brain_neurons: 3, ..Config::default() }
}

fn brain_with(fitness: i64) -> Brain {
    let mut brain = Brain::new(&Config::default(), Network::new(vec![]));
    brain.fitness = fitness;
    brain
}

#[test]
fn the_weight_is_the_fitness_with_a_floor() {
    assert_eq!(MIN_WEIGHT, 10);
    assert_eq!(weight_of::<Brain, Config>(&brain_with(0), u64::MAX), 10);
    assert_eq!(weight_of::<Brain, Config>(&brain_with(-5_000_000), u64::MAX), 10);
    assert_eq!(weight_of::<Brain, Config>(&brain_with(9), u64::MAX), 10);
    assert_eq!(weight_of::<Brain, Config>(&brain_with(11), u64::MAX), 11);
    assert_eq!(weight_of::<Brain, Config>(&brain_with(100_000_000), u64::MAX), 100_000_000);
    assert_eq!(weight_of::<Brain, Config>(&brain_with(i64::MAX), u64::MAX), i64::MAX as u64);
}

#[test]
fn the_weight_is_capped_so_that_the_sum_fits() {
    assert_eq!(weight_cap(0), u64::MAX);
    assert_eq!(weight_cap(1), u64::MAX);
    assert_eq!(weight_cap(4), u64::MAX / 4);
    assert_eq!(weight_of::<Brain, Config>(&brain_with(1000), 500), 500);
    assert_eq!(weight_of::<Brain, Config>(&brain_with(0), 5), 5);
}

#[test]
fn selection_prefers_the_fitter_almost_always() {
    let config = small_config();
    let population =
        RouletteWheelPopulation::new(vec![brain_with(0), brain_with(100_000_000)], &config);
    let mut rng = StdRng::seed_from_u64(1);
    let mut high = 0;
    for _ in 0..10_000 {
        if population.select(&config, &mut rng).fitness == 100_000_000 {
            high += 1;
        }
    }
    assert!(high >= 9_990);
}

#[test]
fn selection_is_in_proportion_to_fitness() {
    let config = small_config();
    let population =
        RouletteWheelPopulation::new(vec![brain_with(1_000_000), brain_with(3_000_000)], &config);
    let mut rng = StdRng::seed_from_u64(2);
    let mut high = 0;
    for _ in 0..20_000 {
        if population.select(&config, &mut rng).fitness == 3_000_000 {
            high += 1;
        }
    }
    assert!(high > 14_400 && high < 15_600);
}

#[test]
fn individuals_without_fitness_can_still_be_chosen() {
    let config = small_config();
    let population =
        RouletteWheelPopulation::new(vec![brain_with(0), brain_with(-7), brain_with(0)], &config);
    let mut rng = StdRng::seed_from_u64(4);
    let mut seen = [0usize; 2];
    for _ in 0..3_000 {
        let chosen = population.select(&config, &mut rng);
        seen[if chosen.fitness == 0 { 0 } else { 1 }] += 1;
    }
    assert!(seen[0] > 1_700 && seen[0] < 2_300);
    assert!(seen[1] > 700 && seen[1] < 1_300);
}

#[test]
fn selection_copes_with_the_greatest_fitness() {
    let config = small_config();
    let population = RouletteWheelPopulation::new(
        vec![brain_with(i64::MAX), brain_with(i64::MAX), brain_with(i64::MAX)],
        &config,
    );
    let mut rng = StdRng::seed_from_u64(4);
    for _ in 0..100 {
        assert_eq!(population.select(&config, &mut rng).fitness, i64::MAX);
    }
}

#[test]
fn a_population_knows_its_size_and_parameters() {
    let config = small_config();
    let population = RouletteWheelPopulation::new(vec![brain_with(1), brain_with(2)], &config);
    assert_eq!(population.size(), 2);
    assert_eq!(population.get_population().len(), 2);
    assert_eq!(population.get_config().brain_neurons, 3);
    assert_eq!(population.get_population()[1].fitness, 2);
}

#[test]
fn a_random_population_has_the_size_asked_for() {
    let config = small_config();
    let mut rng = StdRng::seed_from_u64(4);
    let population: RouletteWheelPopulation<Brain, Config> =
        RouletteWheelPopulation::random(5, &config, &mut rng);
    assert_eq!(population.size(), 5);
    for brain in population.get_population() {
        assert_eq!(brain.fitness, 0);
        assert_eq!(brain.nn.layers.len(), 3);
        assert_eq!(brain.nn.layers[0].input_size, 404);
        assert_eq!(brain.nn.layers[0].output_size, 3);
        assert_eq!(brain.nn.layers[2].output_size, 9);
    }
    let empty: RouletteWheelPopulation<Brain, Config> =
        RouletteWheelPopulation::random(0, &config, &mut rng);
    assert_eq!(empty.size(), 0);
}

#[test]
fn the_next_generation_is_as_large_as_the_last() {
    let config = small_config();
    let mut rng = StdRng::seed_from_u64(12);
    for size in [0usize, 1, 2, 7] {
        let mut population: Box<RouletteWheelPopulation<Brain, Config>> =
            Box::new(RouletteWheelPopulation::random(size, &config, &mut rng));
        for _ in 0..3 {
            let (next, _) = population.evolve(&config, &mut rng);
            assert_eq!(next.size(), size);
            for brain in next.get_population() {
                assert_eq!(brain.nn.layers.len(), 3);
                assert_eq!(brain.nn.layers[1].weights.len(), 9);
            }
            population = next;
        }
    }
}

#[test]
fn the_statistics_are_of_the_parents() {
    let config = small_config();
    let mut rng = StdRng::seed_from_u64(12);
    let mut population: RouletteWheelPopulation<Brain, Config> =
        RouletteWheelPopulation::random(3, &config, &mut rng);
    population.population[0].fitness = 1_000_000;
    population.population[1].fitness = -2_000_000;
    population.population[2].fitness = 5_000_000;
    let (_, stats) = population.evolve(&config, &mut rng);
    assert_eq!(stats.min_fitness(), -2_000_000);
    assert_eq!(stats.max_fitness(), 5_000_000);
    assert_eq!(stats.mean_fitness(), 1_333_333);
    assert_eq!(stats.max_similarity, 0);
}

#[test]
fn statistics_of_given_fitness() {
    let stats =
        PopulationStatistics::new::<Brain, Config>(&vec![brain_with(-3), brain_with(-4)], 7);
    assert_eq!(stats.min_fitness, -4);
    assert_eq!(stats.max_fitness, -3);
    assert_eq!(stats.mean_fitness, -4);
    assert_eq!(stats.max_similarity, 7);
    let stats = PopulationStatistics::new::<Brain, Config>(&vec![brain_with(42)], 0);
    assert_eq!((stats.min_fitness, stats.mean_fitness, stats.max_fitness), (42, 42, 42));
    let stats = PopulationStatistics::new::<Brain, Config>(&vec![], 0);
    assert_eq!((stats.min_fitness, stats.mean_fitness, stats.max_fitness), (0, 0, 0));
    let stats = PopulationStatistics::new::<Brain, Config>(
        &vec![brain_with(i64::MAX), brain_with(i64::MAX), brain_with(i64::MIN)],
        0,
    );
    assert_eq!(stats.min_fitness, i64::MIN);
    assert_eq!(stats.max_fitness, i64::MAX);
    assert_eq!(stats.mean_fitness, (i64::MAX as i128 * 2 + i64::MIN as i128).div_euclid(3) as i64);
}

#[test]
fn a_mutant_is_the_same_or_starts_anew() {
    let config = Config { brain_neurons: 2, ga_mut_chance: 1_000_000, ..Config::default() };
    let mut rng = StdRng::seed_from_u64(12);
    let mut brain = Brain::random(&config, &mut rng);
    brain.fitness = 77;
    let weights = brain.nn.layers[0].weights.clone();
    // With a chance of one the individual is always handed back as it is.
    let same = brain.mutate(&config, &mut rng);
    assert_eq!(same.fitness, 77);
    assert_eq!(same.nn.layers[0].weights, weights);

    let config = Config { brain_neurons: 2, ga_mut_chance: 0, start_fitness: 5, ..Config::default() };
    let fresh = same.mutate(&config, &mut rng);
    assert_eq!(fresh.fitness, 5);
    assert_eq!(fresh.nn.layers[0].weights, weights);
}

#[test]
fn a_child_starts_with_the_starting_fitness() {
    let config = Config { brain_neurons: 2, start_fitness: -9, ..Config::default() };
    let mut rng = StdRng::seed_from_u64(12);
    let mut a = Brain::random(&config, &mut rng);
    let mut b = Brain::random(&config, &mut rng);
    a.fitness = 100;
    b.fitness = 200;
    b.time_since_move = 9;
    let child = a.crossover(&b, &config, &mut rng);
    assert_eq!(child.fitness(), -9);
    assert_eq!(child.time_since_move, 0);
    for k in 0..3 {
        for i in 0..child.nn.layers[k].weights.len() {
            let w = child.nn.layers[k].weights[i];
            assert!(w == a.nn.layers[k].weights[i] || w == b.nn.layers[k].weights[i]);
        }
    }
}
