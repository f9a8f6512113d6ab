use evosim::animal_simulation::{Config, Food, Point2, Simulation, World};
use rand::rngs::StdRng;
use rand::SeedableRng;

fn small_config() -> Config {
    Config {
        brain_neurons: 5,
        eye_cells: 3,
        sim_generation_length: 6,
        world_animals: 8,
        world_foods: 15,
        ..Config::default()
    }
}

fn check_invariants(simulation: &Simulation) {
    let config = simulation.config();
    let world = simulation.world();
    assert_eq!(world.animals().len(), config.world_animals);
    assert_eq!(world.foods().len(), config.world_foods);
    assert_eq!(simulation.population.population.len(), config.world_animals);
    for (i, animal) in world.animals().iter().enumerate() {
        assert_eq!(animal.brain, i);
        assert!((0..1_000_000).contains(&animal.position.x));
        assert!((0..1_000_000).contains(&animal.position.y));
        assert!((-3_141_593..3_141_593).contains(&animal.rotation));
        assert!(animal.speed >= 0 && animal.speed <= 2 * config.sim_speed_max);
        assert!(animal.vision.iter().all(|v| *v >= 0));
    }
    for food in world.foods() {
        assert!((0..1_000_000).contains(&food.position().x));
        assert!((0..1_000_000).contains(&food.position().y));
    }
    assert!(simulation.age <= config.sim_generation_length);
}

#[test]
fn a_random_world_has_food_and_no_animals() {
    let mut rng = StdRng::seed_from_u64(3);
    let world = World::random(&small_config(), &mut rng);
    assert_eq!(world.foods().len(), 15);
    assert!(world.animals().is_empty());
    assert!(world.foods().iter().any(|f| f.position() != world.foods()[0].position()));
}

#[test]
fn a_new_plane_simulation_is_in_order() {
    let mut rng = StdRng::seed_from_u64(3);
    let simulation = Simulation::random_with(&small_config(), &mut rng);
    check_invariants(&simulation);
    assert_eq!((simulation.age, simulation.generation), (0, 0));
    let simulation = Simulation::random(&small_config()).unwrap();
    check_invariants(&simulation);
}

#[test]
fn on_the_plane_statistics_come_when_the_age_exceeds_the_length() {
    let mut rng = StdRng::seed_from_u64(3);
    let mut simulation = Simulation::random_with(&small_config(), &mut rng);
    for generation in 0..3 {
        for tick in 1..=6 {
            assert_eq!(simulation.step(&mut rng), None);
            assert_eq!(simulation.age, tick);
            assert_eq!(simulation.generation, generation);
            check_invariants(&simulation);
        }
        let stats = simulation.step(&mut rng).unwrap();
        assert_eq!(stats.generation, generation);
        assert_eq!((simulation.age, simulation.generation), (0, generation + 1));
        check_invariants(&simulation);
    }
}

#[test]
fn one_animal_without_food_is_born_again() {
    let config = Config { sim_generation_length: 1, world_animals: 1, world_foods: 0, ..small_config() };
    let mut rng = StdRng::seed_from_u64(3);
    let mut simulation = Simulation::random_with(&config, &mut rng);
    let born_at = simulation.world().animals()[0].position();
    assert_eq!(simulation.step(&mut rng), None);
    let stats = simulation.step(&mut rng).unwrap();
    assert_eq!(stats.generation, 0);
    assert_eq!((stats.ga.min_fitness, stats.ga.mean_fitness, stats.ga.max_fitness), {
        let f = stats.ga.min_fitness;
        (f, f, f)
    });
    assert_eq!(simulation.generation, 1);
    assert_eq!(simulation.world().animals().len(), 1);
    assert!(simulation.world().foods().is_empty());
    let animal = &simulation.world().animals()[0];
    assert!(animal.position() != born_at);
    assert_eq!((animal.satiation, animal.boosts, animal.stunned), (0, 0, 0));
    assert_eq!(animal.speed, config.sim_speed_max);
    assert_eq!(simulation.population.population[0].fitness, 0);
}

#[test]
fn with_no_length_the_first_tick_ends_the_generation() {
    let config = Config { sim_generation_length: 0, world_animals: 1, world_foods: 0, ..small_config() };
    let mut rng = StdRng::seed_from_u64(3);
    let mut simulation = Simulation::random_with(&config, &mut rng);
    let stats = simulation.step(&mut rng).unwrap();
    assert_eq!(stats.generation, 0);
    assert_eq!(simulation.generation, 1);
    assert_eq!(simulation.world().animals().len(), 1);
}

#[test]
fn training_runs_one_generation_on_the_plane() {
    let mut rng = StdRng::seed_from_u64(4);
    let mut simulation = Simulation::random_with(&small_config(), &mut rng);
    simulation.step(&mut rng);
    let stats = simulation.train(&mut rng);
    assert_eq!(stats.generation, 0);
    assert_eq!((simulation.age, simulation.generation), (0, 1));
    let stats = simulation.train(&mut rng);
    assert_eq!(stats.generation, 1);
    check_invariants(&simulation);
}

#[test]
fn the_same_seed_gives_the_same_run_on_the_plane() {
    let mut first_rng = StdRng::seed_from_u64(42);
    let mut second_rng = StdRng::seed_from_u64(42);
    let mut first = Simulation::random_with(&small_config(), &mut first_rng);
    let mut second = Simulation::random_with(&small_config(), &mut second_rng);
    for _ in 0..25 {
        assert_eq!(first.step(&mut first_rng), second.step(&mut second_rng));
        for (a, b) in first.world().animals().iter().zip(second.world().animals().iter()) {
            assert_eq!(a.position(), b.position());
            assert_eq!(a.rotation(), b.rotation());
            assert_eq!(a.vision(), b.vision());
            assert_eq!((a.speed, a.satiation, a.stunned), (b.speed, b.satiation, b.stunned));
        }
        for (a, b) in first.world().foods().iter().zip(second.world().foods().iter()) {
            assert_eq!(a.position(), b.position());
        }
        for (a, b) in first.population.population.iter().zip(second.population.population.iter()) {
            assert_eq!(a.fitness, b.fitness);
        }
    }
}

#[test]
fn food_within_reach_is_eaten_and_turns_up_elsewhere() {
    let config = Config { world_animals: 2, world_foods: 2, ..small_config() };
    let mut rng = StdRng::seed_from_u64(8);
    let mut simulation = Simulation::random_with(&config, &mut rng);
    simulation.world.animals[0].position = Point2::new(100_000, 100_000);
    simulation.world.animals[1].position = Point2::new(800_000, 800_000);
    simulation.world.animals[0].boosts = 4;
    simulation.world.foods[0] = Food { position: Point2::new(100_000, 105_000) };
    simulation.world.foods[1] = Food { position: Point2::new(500_000, 500_000) };
    Simulation::process_collisions(
        &mut simulation.world,
        &mut simulation.population.population,
        &config,
        &mut rng,
    );
    assert_eq!(simulation.world.animals[0].satiation, 1);
    assert_eq!(simulation.world.animals[1].satiation, 0);
    assert_eq!(simulation.population.population[0].fitness, 1_000_000 - 4 * 15_000);
    assert_eq!(simulation.population.population[1].fitness, 0);
    assert!(simulation.world.foods[0].position() != Point2::new(100_000, 105_000));
    assert_eq!(simulation.world.foods[1].position(), Point2::new(500_000, 500_000));
}

#[test]
fn the_first_animal_eats_all_that_lies_within_its_reach() {
    let config = Config { world_animals: 2, world_foods: 5, ..small_config() };
    let mut rng = StdRng::seed_from_u64(8);
    let mut simulation = Simulation::random_with(&config, &mut rng);
    simulation.world.animals[0].position = Point2::new(100_000, 100_000);
    simulation.world.animals[1].position = Point2::new(800_000, 800_000);
    simulation.world.animals[0].satiation = 2;
    simulation.world.foods[0] = Food { position: Point2::new(100_000, 105_000) };
    simulation.world.foods[1] = Food { position: Point2::new(500_000, 500_000) };
    simulation.world.foods[2] = Food { position: Point2::new(100_000, 100_000) };
    simulation.world.foods[3] = Food { position: Point2::new(110_000, 100_000) };
    simulation.world.foods[4] = Food { position: Point2::new(110_001, 100_000) };
    Simulation::process_collisions(
        &mut simulation.world,
        &mut simulation.population.population,
        &config,
        &mut rng,
    );
    assert_eq!(simulation.world.animals[0].satiation, 5);
    assert_eq!(simulation.population.population[0].fitness, 5_000_000);
    assert_eq!(simulation.world.foods[1].position(), Point2::new(500_000, 500_000));
    assert_eq!(simulation.world.foods[4].position(), Point2::new(110_001, 100_000));
}

#[test]
fn where_no_food_is_within_reach_nothing_is_eaten() {
    let config = Config { world_animals: 3, world_foods: 4, ..small_config() };
    let mut rng = StdRng::seed_from_u64(8);
    let mut simulation = Simulation::random_with(&config, &mut rng);
    for (i, animal) in simulation.world.animals.iter_mut().enumerate() {
        animal.position = Point2::new(100_000 + 200_000 * i as i32, 100_000);
        animal.satiation = 4;
    }
    for (j, food) in simulation.world.foods.iter_mut().enumerate() {
        food.position = Point2::new(100_000 + 200_000 * j as i32, 900_000);
    }
    simulation.population.population[1].fitness = 123;
    let foods: Vec<Point2> = simulation.world.foods.iter().map(|f| f.position()).collect();
    Simulation::process_collisions(
        &mut simulation.world,
        &mut simulation.population.population,
        &config,
        &mut rng,
    );
    assert!(simulation.world.animals.iter().all(|a| a.satiation == 4 && a.stunned == 0));
    assert_eq!(simulation.population.population[1].fitness, 123);
    let after: Vec<Point2> = simulation.world.foods.iter().map(|f| f.position()).collect();
    assert_eq!(after, foods);
}

#[test]
fn training_runs_the_ticks_that_are_left_and_breeds() {
    let config = Config { world_animals: 6, world_foods: 10, sim_generation_length: 9, ..small_config() };
    let mut rng = StdRng::seed_from_u64(4);
    let mut twin_rng = StdRng::seed_from_u64(4);
    let mut simulation = Simulation::random_with(&config, &mut rng);
    let mut twin = Simulation::random_with(&config, &mut twin_rng);
    for _ in 0..4 {
        assert_eq!(simulation.step(&mut rng), None);
        assert_eq!(twin.step(&mut twin_rng), None);
    }
    let stats = simulation.train(&mut rng);
    assert_eq!(stats.generation, 0);
    assert_eq!(stats.ga.max_similarity, 0);
    assert_eq!((simulation.age, simulation.generation), (0, 1));
    assert_eq!(simulation.population.population.len(), 6);
    for animal in simulation.world().animals() {
        assert_eq!((animal.satiation, animal.boosts, animal.stunned), (0, 0, 0));
        assert_eq!(animal.speed, config.sim_speed_max);
    }
    // The same as six more ticks: five within the generation and the one
    // that ends it.
    for _ in 0..5 {
        assert_eq!(twin.step(&mut twin_rng), None);
    }
    assert_eq!(twin.step(&mut twin_rng), Some(stats));
    for (a, b) in simulation.world().animals().iter().zip(twin.world().animals().iter()) {
        assert_eq!(a.position(), b.position());
        assert_eq!(a.rotation(), b.rotation());
    }
    for (a, b) in simulation.population.population.iter().zip(twin.population.population.iter()) {
        assert_eq!(a.nn.layers[0].weights, b.nn.layers[0].weights);
    }
}

#[test]
fn animals_that_meet_are_stunned_together() {
    let config = Config { world_animals: 3, world_foods: 0, ..small_config() };
    let mut rng = StdRng::seed_from_u64(8);
    let mut simulation = Simulation::random_with(&config, &mut rng);
    simulation.world.animals[0].position = Point2::new(500_000, 500_000);
    simulation.world.animals[0].rotation = 0;
    simulation.world.animals[1].position = Point2::new(505_000, 500_000);
    simulation.world.animals[1].rotation = 1_000_000;
    simulation.world.animals[2].position = Point2::new(100_000, 100_000);
    simulation.world.animals[2].rotation = 1_000_000;
    Simulation::process_collisions(
        &mut simulation.world,
        &mut simulation.population.population,
        &config,
        &mut rng,
    );
    // The first sees the second turned a radian to its left and is stunned;
    // the second sees the first turned to its right and is not.
    assert_eq!(simulation.world.animals[0].stunned, 15);
    assert_eq!(simulation.world.animals[0].speed, 0);
    assert_eq!(simulation.world.animals[1].stunned, 0);
    assert_eq!(simulation.world.animals[2].stunned, 0);
}

#[test]
fn breeding_for_low_fitness_turns_the_fitness_round() {
    let mut brains = Simulation::random_with(&small_config(), &mut StdRng::seed_from_u64(1))
        .population
        .population;
    brains[0].fitness = 3_000_000;
    brains[1].fitness = -500_000;
    brains[2].fitness = 0;
    Simulation::reverse_fitness(&mut brains, 5);
    assert_eq!(brains[0].fitness, 2_000_000);
    assert_eq!(brains[1].fitness, 5_500_000);
    assert_eq!(brains[2].fitness, 5_000_000);
    brains[0].fitness = i64::MIN;
    Simulation::reverse_fitness(&mut brains, 0);
    assert_eq!(brains[0].fitness, i64::MAX);
}

#[test]
fn the_statistics_of_a_reversed_generation_are_reversed() {
    let config = Config { ga_reverse: 1, world_animals: 3, world_foods: 0, sim_generation_length: 0, ..small_config() };
    let mut rng = StdRng::seed_from_u64(8);
    let mut simulation = Simulation::random_with(&config, &mut rng);
    simulation.world.animals[0].satiation = 7;
    simulation.world.animals[1].satiation = 2;
    simulation.population.population[0].fitness = 7_000_000;
    simulation.population.population[1].fitness = 2_000_000;
    simulation.population.population[2].fitness = 0;
    assert_eq!(Simulation::greatest_satiation_of(&simulation.world.animals), 7);
    let stats = simulation.evolve(&mut rng);
    assert_eq!(stats.ga.min_fitness, 0);
    assert_eq!(stats.ga.max_fitness, 7_000_000);
    assert_eq!(stats.ga.mean_fitness, 4_000_000);
    check_invariants(&simulation);

    let config = Config { ga_reverse: 0, ..config };
    let mut simulation = Simulation::random_with(&config, &mut rng);
    simulation.population.population[0].fitness = 7_000_000;
    simulation.population.population[1].fitness = 2_000_000;
    let stats = simulation.evolve(&mut rng);
    assert_eq!(stats.ga.mean_fitness, 3_000_000);
}

#[test]
fn a_long_run_stays_in_order() {
    let mut rng = StdRng::seed_from_u64(15);
    let config = Config { world_animals: 25, world_foods: 60, sim_generation_length: 40, ..small_config() };
    let mut simulation = Simulation::random_with(&config, &mut rng);
    let mut eaten = 0;
    for _ in 0..200 {
        simulation.step(&mut rng);
        check_invariants(&simulation);
        eaten += simulation.world().animals().iter().map(|a| a.satiation).sum::<usize>();
    }
    assert!(eaten > 0);
    assert_eq!(simulation.generation, 4);
}
