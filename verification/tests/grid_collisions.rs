use evosim::gridworld::{Creature, Direction, GridPoint, Tiles, World};
use evosim::gridworld_sim::brain::decide;
use evosim::gridworld_sim::resolution::{
    change_for, count_claimants, key, occupied_points, settle,
};
use evosim::gridworld_sim::{Brain, Config, Outcome, Simulation};
use evosim::neural_network::{Layer, LayerType, Network};

fn brains(count: usize) -> Vec<Brain> {
    (0..count).map(|_| Brain::new(&Config::default(), Network::new(vec![]))).collect()
}

fn world_with(creatures: &[((u16, u16), Option<(u16, u16)>)]) -> World<usize> {
    let mut world: World<usize> = World::default();
    world.set_border(Tiles::Wall);
    for (i, (pos, target)) in creatures.iter().enumerate() {
        let mut creature = Creature::new(GridPoint::new(pos.0, pos.1), i);
        creature.target_pos = target.map(|t| GridPoint::new(t.0, t.1));
        world.creatures.push(creature);
    }
    world
}

#[test]
fn what_each_outcome_brings() {
    assert_eq!(change_for(Outcome::Alone { tile: Tiles::Floor }), 0);
    assert_eq!(change_for(Outcome::Alone { tile: Tiles::EnergyGain }), 5_000_000);
    assert_eq!(change_for(Outcome::Alone { tile: Tiles::EnergyLoss }), -12_500_000);
    assert_eq!(change_for(Outcome::Alone { tile: Tiles::Wall }), -2_500_000);
    assert_eq!(change_for(Outcome::Blocked), -2_000_000);
    assert_eq!(change_for(Outcome::Crowded { tile: Tiles::Floor, claimants: 2 }), -1_000_000);
    assert_eq!(
        change_for(Outcome::Crowded { tile: Tiles::EnergyGain, claimants: 2 }),
        -1_000_000 + 1_666_666
    );
    assert_eq!(
        change_for(Outcome::Crowded { tile: Tiles::EnergyGain, claimants: 4 }),
        -1_000_000 + 1_000_000
    );
    assert_eq!(
        change_for(Outcome::Crowded { tile: Tiles::EnergyLoss, claimants: 2 }),
        -1_000_000 - 4_166_666
    );
    assert_eq!(
        change_for(Outcome::Crowded { tile: Tiles::EnergyLoss, claimants: 3 }),
        -1_000_000 - 3_125_000
    );
    assert_eq!(
        change_for(Outcome::Crowded { tile: Tiles::Wall, claimants: 2 }),
        -1_000_000 - 833_333
    );
    assert_eq!(
        change_for(Outcome::Crowded { tile: Tiles::Wall, claimants: 5 }),
        -1_000_000 - 416_666
    );
    assert_eq!(change_for(Outcome::Crowded { tile: Tiles::Wall, claimants: 0 }), -3_500_000);
    assert_eq!(
        change_for(Outcome::Crowded { tile: Tiles::EnergyGain, claimants: usize::MAX }),
        -1_000_000
    );
}

#[test]
fn the_occupied_points_are_where_creatures_stand() {
    let world = world_with(&[((5, 5), Some((6, 5))), ((7, 5), None), ((7, 5), None)]);
    let occupied = occupied_points(&world);
    assert_eq!(occupied.len(), 2);
    assert!(occupied.contains(&key(GridPoint::new(5, 5))));
    assert!(occupied.contains(&key(GridPoint::new(7, 5))));
    assert!(!occupied.contains(&key(GridPoint::new(6, 5))));
    assert_eq!(key(GridPoint::new(5, 7)), 5 * 65_536 + 7);
    assert!(key(GridPoint::new(5, 7)) != key(GridPoint::new(7, 5)));
    assert_eq!(key(GridPoint::new(65_535, 65_535)), u32::MAX);
}

#[test]
fn a_lone_step_onto_floor_is_kept() {
    let mut world = world_with(&[((5, 5), Some((6, 5)))]);
    let mut brains = brains(1);
    assert_eq!(settle(&world, 0, &occupied_points(&world)), Outcome::Alone { tile: Tiles::Floor });
    let consumed = Simulation::process_collisions(&mut world, &mut brains);
    assert_eq!(consumed, vec![]);
    assert_eq!(world.creatures[0].target_pos, Some(GridPoint::new(6, 5)));
    assert_eq!(world.creatures[0].pos, GridPoint::new(5, 5));
    assert_eq!(brains[0].fitness, 0);
}

#[test]
fn a_lone_step_onto_food_eats_it() {
    let mut world = world_with(&[((5, 5), Some((6, 5))), ((20, 20), None)]);
    world.set(GridPoint::new(6, 5), Tiles::EnergyGain);
    let mut brains = brains(2);
    let consumed = Simulation::process_collisions(&mut world, &mut brains);
    assert_eq!(consumed, vec![GridPoint::new(6, 5)]);
    assert_eq!(world.creatures[0].target_pos, Some(GridPoint::new(6, 5)));
    assert_eq!(brains[0].fitness, 5_000_000);
    assert_eq!(brains[1].fitness, 0);
    assert_eq!(*world.index(GridPoint::new(6, 5)), Tiles::EnergyGain);
}

#[test]
fn a_lone_step_onto_a_hazard_hurts_and_is_kept() {
    let mut world = world_with(&[((5, 5), Some((5, 6)))]);
    world.set(GridPoint::new(5, 6), Tiles::EnergyLoss);
    let mut brains = brains(1);
    let consumed = Simulation::process_collisions(&mut world, &mut brains);
    assert_eq!(consumed, vec![]);
    assert_eq!(world.creatures[0].target_pos, Some(GridPoint::new(5, 6)));
    assert_eq!(brains[0].fitness, -12_500_000);
}

#[test]
fn a_step_into_a_wall_hurts_and_is_dropped() {
    let mut world = world_with(&[((1, 1), Some((0, 1)))]);
    let mut brains = brains(1);
    let consumed = Simulation::process_collisions(&mut world, &mut brains);
    assert_eq!(consumed, vec![]);
    assert_eq!(world.creatures[0].target_pos, None);
    assert_eq!(brains[0].fitness, -2_500_000);
}

#[test]
fn standing_on_a_tile_has_its_effect_too() {
    let mut world = world_with(&[((5, 5), None), ((7, 7), None), ((9, 9), None)]);
    world.set(GridPoint::new(5, 5), Tiles::EnergyLoss);
    world.set(GridPoint::new(7, 7), Tiles::EnergyGain);
    let mut brains = brains(3);
    let consumed = Simulation::process_collisions(&mut world, &mut brains);
    assert_eq!(consumed, vec![GridPoint::new(7, 7)]);
    assert_eq!(brains[0].fitness, -12_500_000);
    assert_eq!(brains[1].fitness, 5_000_000);
    assert_eq!(brains[2].fitness, 0);
    assert!(world.creatures.iter().all(|c| c.target_pos.is_none()));
}

#[test]
fn two_that_want_the_same_tile_bump_and_stay() {
    let mut world = world_with(&[((5, 5), Some((6, 5))), ((7, 5), Some((6, 5))), ((9, 9), None)]);
    let mut brains = brains(3);
    assert_eq!(count_claimants(&world, GridPoint::new(6, 5)), 2);
    assert_eq!(settle(&world, 0, &occupied_points(&world)), Outcome::Crowded { tile: Tiles::Floor, claimants: 2 });
    let consumed = Simulation::process_collisions(&mut world, &mut brains);
    assert_eq!(consumed, vec![]);
    assert_eq!(world.creatures[0].target_pos, None);
    assert_eq!(world.creatures[1].target_pos, None);
    assert_eq!(brains[0].fitness, -1_000_000);
    assert_eq!(brains[1].fitness, -1_000_000);
    assert_eq!(brains[2].fitness, 0);
}

#[test]
fn food_that_several_want_is_shared_and_not_eaten() {
    let mut world = world_with(&[
        ((5, 5), Some((6, 5))),
        ((7, 5), Some((6, 5))),
        ((6, 4), Some((6, 5))),
    ]);
    world.set(GridPoint::new(6, 5), Tiles::EnergyGain);
    let mut brains = brains(3);
    let consumed = Simulation::process_collisions(&mut world, &mut brains);
    assert_eq!(consumed, vec![]);
    for i in 0..3 {
        assert_eq!(world.creatures[i].target_pos, None);
        assert_eq!(brains[i].fitness, -1_000_000 + 1_250_000);
    }
}

#[test]
fn a_hazard_that_several_want_is_shared() {
    let mut world = world_with(&[((5, 5), Some((6, 5))), ((7, 5), Some((6, 5)))]);
    world.set(GridPoint::new(6, 5), Tiles::EnergyLoss);
    let mut brains = brains(2);
    Simulation::process_collisions(&mut world, &mut brains);
    assert_eq!(brains[0].fitness, -5_166_666);
    assert_eq!(brains[1].fitness, -5_166_666);
}

#[test]
fn a_wall_that_several_want_is_shared() {
    let mut world = world_with(&[((1, 1), Some((0, 0))), ((1, 0), None), ((0, 1), Some((0, 0)))]);
    let mut brains = brains(3);
    Simulation::process_collisions(&mut world, &mut brains);
    assert_eq!(brains[0].fitness, -1_833_333);
    assert_eq!(brains[2].fitness, -1_833_333);
    // The one standing on the wall claims it alone.
    assert_eq!(brains[1].fitness, -2_500_000);
}

#[test]
fn stepping_onto_one_that_stays_is_a_crowd_of_two() {
    let mut world = world_with(&[((5, 5), Some((6, 5))), ((6, 5), None)]);
    let mut brains = brains(2);
    Simulation::process_collisions(&mut world, &mut brains);
    assert_eq!(world.creatures[0].target_pos, None);
    assert_eq!(brains[0].fitness, -1_000_000);
    assert_eq!(brains[1].fitness, -1_000_000);
}

#[test]
fn stepping_onto_the_tile_of_one_that_leaves_is_blocked() {
    let mut world = world_with(&[((5, 5), Some((6, 5))), ((6, 5), Some((7, 5)))]);
    let mut brains = brains(2);
    assert_eq!(settle(&world, 0, &occupied_points(&world)), Outcome::Blocked);
    assert_eq!(settle(&world, 1, &occupied_points(&world)), Outcome::Alone { tile: Tiles::Floor });
    Simulation::process_collisions(&mut world, &mut brains);
    assert_eq!(world.creatures[0].target_pos, None);
    assert_eq!(world.creatures[1].target_pos, Some(GridPoint::new(7, 5)));
    assert_eq!(brains[0].fitness, -2_000_000);
    assert_eq!(brains[1].fitness, 0);
}

#[test]
fn being_blocked_spares_the_tile_effect() {
    let mut world = world_with(&[((5, 5), Some((6, 5))), ((6, 5), Some((7, 5)))]);
    world.set(GridPoint::new(6, 5), Tiles::EnergyLoss);
    let mut brains = brains(2);
    let consumed = Simulation::process_collisions(&mut world, &mut brains);
    assert_eq!(consumed, vec![]);
    assert_eq!(brains[0].fitness, -2_000_000);
}

#[test]
fn all_claims_are_settled_from_the_world_as_it_stood() {
    // The first two bump over one tile; the third wants the tile the first
    // stands on and is blocked, whatever became of the first one's step.
    let mut world = world_with(&[
        ((5, 5), Some((6, 5))),
        ((7, 5), Some((6, 5))),
        ((4, 5), Some((5, 5))),
    ]);
    let mut brains = brains(3);
    Simulation::process_collisions(&mut world, &mut brains);
    assert_eq!(brains[0].fitness, -1_000_000);
    assert_eq!(brains[1].fitness, -1_000_000);
    assert_eq!(brains[2].fitness, -2_000_000);
    assert!(world.creatures.iter().all(|c| c.target_pos.is_none()));
}

#[test]
fn eaten_tiles_come_in_the_order_of_the_creatures() {
    let mut world = world_with(&[
        ((9, 9), Some((10, 9))),
        ((5, 5), Some((6, 5))),
        ((20, 20), Some((20, 21))),
    ]);
    world.set(GridPoint::new(6, 5), Tiles::EnergyGain);
    world.set(GridPoint::new(10, 9), Tiles::EnergyGain);
    let mut brains = brains(3);
    let consumed = Simulation::process_collisions(&mut world, &mut brains);
    assert_eq!(consumed, vec![GridPoint::new(10, 9), GridPoint::new(6, 5)]);
}

#[test]
fn fitness_stops_at_the_ends_of_its_range() {
    let mut world = world_with(&[((5, 5), None), ((8, 8), None)]);
    world.set(GridPoint::new(5, 5), Tiles::EnergyLoss);
    world.set(GridPoint::new(8, 8), Tiles::EnergyGain);
    let mut brains = brains(2);
    brains[0].fitness = i64::MIN + 5;
    brains[1].fitness = i64::MAX - 5;
    Simulation::process_collisions(&mut world, &mut brains);
    assert_eq!(brains[0].fitness, i64::MIN);
    assert_eq!(brains[1].fitness, i64::MAX);
}

#[test]
fn a_move_costs_and_ends_the_idleness() {
    let mut world = world_with(&[((5, 5), Some((6, 5))), ((9, 9), None)]);
    let mut brains = brains(2);
    brains[0].time_since_move = 12;
    brains[1].time_since_move = 12;
    let moved = Simulation::process_movements(&mut world, &mut brains);
    assert_eq!(moved, 1);
    assert_eq!(world.creatures[0].pos, GridPoint::new(6, 5));
    assert_eq!(world.creatures[0].target_pos, None);
    assert_eq!(world.creatures[1].pos, GridPoint::new(9, 9));
    assert_eq!(brains[0].fitness, -4_000);
    assert_eq!(brains[0].time_since_move, 0);
    assert_eq!(brains[1].fitness, 0);
    assert_eq!(brains[1].time_since_move, 13);
}

#[test]
fn idleness_costs_from_the_twenty_sixth_tick() {
    let mut world = world_with(&[((5, 5), None)]);
    let mut brains = brains(1);
    for tick in 1..=30 {
        Simulation::process_movements(&mut world, &mut brains);
        assert_eq!(brains[0].time_since_move, tick);
        let paid = if tick > 25 { (tick as i64 - 25) * -15_000 } else { 0 };
        assert_eq!(brains[0].fitness, paid);
    }
    brains[0].time_since_move = u16::MAX;
    brains[0].not_moved();
    assert_eq!(brains[0].time_since_move, u16::MAX);
}

#[test]
fn fitness_is_added_to() {
    let mut brain = Brain::from_network(&Config { start_fitness: 3, ..Config::default() }, Network::new(vec![]));
    assert_eq!(brain.fitness, 3);
    brain.add_fitness(-10);
    assert_eq!(brain.fitness, -7);
    brain.add_fitness(i64::MIN);
    assert_eq!(brain.fitness, i64::MIN);
}

#[test]
fn the_greatest_positive_output_decides() {
    assert_eq!(decide(&vec![0, 0, 0, 0, 0, 0, 0, 0, 0]), None);
    assert_eq!(decide(&vec![-1, -2, -3, -4, -5, -6, -7, -8, -9]), None);
    assert_eq!(decide(&vec![5, 0, 0, 0, 0, 0, 0, 0, 0]), None);
    assert_eq!(decide(&vec![0, 5, 0, 0, 0, 0, 0, 0, 0]), Some(Direction::Up));
    assert_eq!(decide(&vec![0, 0, 0, 0, 0, 0, 0, 0, 1]), Some(Direction::UpLeft));
    assert_eq!(decide(&vec![1, 2, 3, 9, 3, 2, 1, 0, 8]), Some(Direction::Right));
    // The first of several that are as great wins.
    assert_eq!(decide(&vec![4, 7, 7, 0, 7, 0, 0, 0, 0]), Some(Direction::Up));
    assert_eq!(decide(&vec![7, 7, 7, 0, 7, 0, 0, 0, 0]), None);
    // Outputs after the ninth play no part.
    assert_eq!(decide(&vec![0, 0, 1, 0, 0, 0, 0, 0, 0, 99]), Some(Direction::UpRight));
}

#[test]
fn the_topology_is_inputs_two_hidden_layers_and_outputs() {
    let config = Config { brain_neurons: 17, ..Config::default() };
    assert_eq!(Brain::topology(&config), [404, 17, 17, 9]);
}

#[test]
fn a_brain_decides_by_its_network() {
    // One layer from 404 inputs to 9 outputs that copies input 3, which
    // marks floor underfoot, to the output for a step to the right.
    let mut weights = vec![0i32; 404 * 9];
    weights[3 * 9 + 3] = 1_000_000;
    let layer = Layer::new(LayerType::Output, 404, 9, weights, vec![0; 9]);
    let brain = Brain::new(&Config::default(), Network::new(vec![layer]));
    let mut inputs = vec![0i32; 404];
    inputs[3] = 1_000_000;
    let (direction, memory) = brain.process(inputs);
    assert_eq!(direction, Some(Direction::Right));
    assert_eq!(memory.len(), 0);
    let (direction, _) = brain.process(vec![0i32; 404]);
    assert_eq!(direction, None);
}

#[test]
fn creatures_propose_what_their_brains_decide() {
    let mut weights = vec![0i32; 404 * 9];
    weights[3 * 9 + 7] = 1_000_000;
    let layer = Layer::new(LayerType::Output, 404, 9, weights, vec![0; 9]);
    let walker = Brain::new(&Config::default(), Network::new(vec![layer]));
    let sitter = Brain::new(
        &Config::default(),
        Network::new(vec![Layer::new(LayerType::Output, 404, 9, vec![0i32; 404 * 9], vec![0; 9])]),
    );
    let mut world = world_with(&[((5, 5), None), ((9, 9), Some((9, 10))), ((1, 62), None)]);
    let brains = vec![walker, sitter, Brain::new(&Config::default(), Network::new(vec![Layer::new(
        LayerType::Output,
        404,
        9,
        {
            let mut w = vec![0i32; 404 * 9];
            w[3 * 9 + 6] = 1_000_000;
            w
        },
        vec![0; 9],
    )]))];
    Simulation::process_brains(&mut world, &brains);
    // Output 7 is the step in direction 6, to the left.
    assert_eq!(world.creatures[0].target_pos, Some(GridPoint::new(4, 5)));
    assert_eq!(world.creatures[1].target_pos, None);
    // Output 6 is the step in direction 5, down and to the left.
    assert_eq!(world.creatures[2].target_pos, Some(GridPoint::new(0, 63)));
    assert_eq!(world.creatures[0].pos, GridPoint::new(5, 5));
}
