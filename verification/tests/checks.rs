use evosim::gridworld::{get_angle, GridPoint, Tiles, World};
use evosim::neural_network::{Layer, LayerType, Network};
use rand::rngs::StdRng;
use rand::SeedableRng;

#[test]
fn a_layer_is_in_order_if_its_vectors_fit_its_sizes() {
    assert!(Layer::new(LayerType::Calc, 2, 3, vec![0; 6], vec![0; 3]).is_wf());
    let mut layer = Layer::new(LayerType::Calc, 2, 3, vec![0; 6], vec![0; 3]);
    layer.weights.push(1);
    assert!(!layer.is_wf());
    let mut layer = Layer::new(LayerType::Calc, 2, 3, vec![0; 6], vec![0; 3]);
    layer.biases.pop();
    assert!(!layer.is_wf());
    let mut layer = Layer::new(LayerType::Calc, 0, 0, vec![], vec![]);
    layer.input_size = usize::MAX;
    layer.output_size = usize::MAX;
    assert!(!layer.is_wf());
}

#[test]
fn a_network_is_checked_against_a_shape() {
    let mut rng = StdRng::seed_from_u64(2);
    let network = Network::random(&[4, 3, 2], &mut rng);
    assert!(network.has_shape(&[4, 3, 2]));
    assert!(!network.has_shape(&[4, 3]));
    assert!(!network.has_shape(&[4, 3, 2, 1]));
    assert!(!network.has_shape(&[4, 2, 2]));
    assert!(!network.has_shape(&[]));
    assert!(Network::new(vec![]).has_shape(&[7]));
    let mut broken = Network::random(&[4, 3, 2], &mut rng);
    broken.layers[1].weights.pop();
    assert!(!broken.has_shape(&[4, 3, 2]));
}

#[test]
fn brains_are_checked_against_the_parameters() {
    let mut rng = StdRng::seed_from_u64(2);
    let config = evosim::gridworld_sim::Config { brain_neurons: 3, ..Default::default() };
    let brain = <evosim::gridworld_sim::Brain as evosim::genetic_algorithm::Individual<
        evosim::gridworld_sim::Config,
    >>::random(&config, &mut rng);
    assert!(brain.is_shaped(&config));
    let other = evosim::gridworld_sim::Config { brain_neurons: 4, ..Default::default() };
    assert!(!brain.is_shaped(&other));

    let config = evosim::animal_simulation::Config { brain_neurons: 3, ..Default::default() };
    let mut brain = <evosim::animal_simulation::Brain as evosim::genetic_algorithm::Individual<
        evosim::animal_simulation::Config,
    >>::random(&config, &mut rng);
    assert!(brain.is_shaped(&config));
    brain.speed_accel += 1;
    assert!(!brain.is_shaped(&config));
}

#[test]
fn the_ring_of_walls_is_checked() {
    let mut world: World<usize> = World::default();
    assert!(!world.is_walled());
    world.set_border(Tiles::Wall);
    assert!(world.is_walled());
    for pt in [(0, 0), (63, 63), (0, 63), (63, 0), (17, 0), (0, 17), (63, 40), (40, 63)] {
        let mut broken: World<usize> = World::default();
        broken.set_border(Tiles::Wall);
        broken.set(GridPoint::new(pt.0, pt.1), Tiles::Floor);
        assert!(!broken.is_walled());
    }
    world.set(GridPoint::new(1, 1), Tiles::EnergyLoss);
    assert!(world.is_walled());
}

#[test]
fn a_grid_simulation_is_checked() {
    let config = evosim::gridworld_sim::Config {
        brain_neurons: 3,
        world_creatures: 6,
        world_foods: 10,
        world_lava: 10,
        sim_generation_length: 3,
        ..Default::default()
    };
    let mut rng = StdRng::seed_from_u64(2);
    let make = |rng: &mut StdRng| evosim::gridworld_sim::Simulation::random_with(&config, rng).unwrap();
    let mut simulation = make(&mut rng);
    assert!(simulation.is_wf());
    for _ in 0..10 {
        simulation.step(&mut rng).unwrap();
        assert!(simulation.is_wf());
    }
    let mut broken = make(&mut rng);
    broken.age = 4;
    assert!(!broken.is_wf());
    let mut broken = make(&mut rng);
    broken.world.creatures[2].brain = 3;
    assert!(!broken.is_wf());
    let mut broken = make(&mut rng);
    broken.world.creatures[2].pos = broken.world.creatures[5].pos;
    assert!(!broken.is_wf());
    let mut broken = make(&mut rng);
    broken.world.creatures[2].pos = GridPoint::new(64, 1);
    assert!(!broken.is_wf());
    let mut broken = make(&mut rng);
    broken.world.creatures[0].target_pos = Some(GridPoint::new(1, 1));
    assert!(!broken.is_wf());
    let mut broken = make(&mut rng);
    broken.world.creatures.pop();
    assert!(!broken.is_wf());
    let mut broken = make(&mut rng);
    broken.world.set(GridPoint::new(0, 9), Tiles::Floor);
    assert!(!broken.is_wf());
    let mut broken = make(&mut rng);
    broken.population.population[1].nn.layers.pop();
    assert!(!broken.is_wf());
    let mut broken = make(&mut rng);
    broken.config.ga_mut_chance = 2_000_000;
    assert!(!broken.is_wf());
}

#[test]
fn a_plane_simulation_is_checked() {
    let config = evosim::animal_simulation::Config {
        brain_neurons: 3,
        eye_cells: 2,
        world_animals: 4,
        world_foods: 5,
        sim_generation_length: 3,
        ..Default::default()
    };
    let mut rng = StdRng::seed_from_u64(2);
    let make = |rng: &mut StdRng| evosim::animal_simulation::Simulation::random_with(&config, rng);
    let mut simulation = make(&mut rng);
    assert!(simulation.is_wf());
    for _ in 0..10 {
        simulation.step(&mut rng);
        assert!(simulation.is_wf());
    }
    let mut broken = make(&mut rng);
    broken.age = 4;
    assert!(!broken.is_wf());
    let mut broken = make(&mut rng);
    broken.world.animals[1].position.x = 1_000_000;
    assert!(!broken.is_wf());
    let mut broken = make(&mut rng);
    broken.world.animals[1].rotation = 3_141_593;
    assert!(!broken.is_wf());
    let mut broken = make(&mut rng);
    broken.world.animals[1].speed = 8_001;
    assert!(!broken.is_wf());
    let mut broken = make(&mut rng);
    broken.world.animals[1].eye.cells = 3;
    assert!(!broken.is_wf());
    let mut broken = make(&mut rng);
    broken.world.animals[1].brain = 0;
    assert!(!broken.is_wf());
    let mut broken = make(&mut rng);
    broken.world.foods[4].position.y = -1;
    assert!(!broken.is_wf());
    let mut broken = make(&mut rng);
    broken.world.foods.pop();
    assert!(!broken.is_wf());
    let mut broken = make(&mut rng);
    broken.population.population[3].rotation_accel = 0;
    assert!(!broken.is_wf());
}

#[test]
fn angles_between_tiles() {
    let pos = GridPoint::new(30, 30);
    assert_eq!(pos.angle_to(GridPoint::new(35, 30)), 0);
    assert_eq!(pos.angle_to(GridPoint::new(30, 35)), 1_570_796);
    assert_eq!(pos.angle_to(GridPoint::new(25, 30)), 3_141_593);
    assert_eq!(pos.angle_to(GridPoint::new(30, 25)), -1_570_796);
    assert_eq!(pos.angle_to(GridPoint::new(33, 34)), 930_560);
    assert_eq!(pos.angle_to(pos), 0);
    assert_eq!(get_angle(pos, GridPoint::new(35, 30)), 0);
    assert_eq!(get_angle(pos, GridPoint::new(30, 25)), 6_283_186 - 1_570_796);
    assert_eq!(get_angle(pos, GridPoint::new(25, 25)), 6_283_186 - 2_356_195);
    assert_eq!(get_angle(pos, GridPoint::new(25, 30)), 3_141_593);
}
