use evosim::gridworld::world::offset_of;
use evosim::gridworld::{Creature, GridError, GridPoint, Tiles, World, GRID_AREA};
use rand::rngs::StdRng;
use rand::SeedableRng;

fn count(world: &World<usize>, tile: Tiles) -> usize {
    world.map.iter().filter(|t| **t == tile).count()
}

#[test]
fn tiles_are_numbered_in_their_order() {
    assert_eq!(Tiles::EnergyGain.index(), 0);
    assert_eq!(Tiles::EnergyLoss.index(), 1);
    assert_eq!(Tiles::Wall.index(), 2);
    assert_eq!(Tiles::Floor.index(), 3);
}

#[test]
fn a_default_world_is_all_floor() {
    let world: World<usize> = World::default();
    assert_eq!(count(&world, Tiles::Floor), GRID_AREA);
    assert!(world.creatures.is_empty());
    let world: World<usize> = World::filled_with(Tiles::EnergyLoss);
    assert_eq!(count(&world, Tiles::EnergyLoss), 4096);
    let world: World<usize> = World::new([Tiles::Wall; GRID_AREA]);
    assert_eq!(*world.index(GridPoint::new(5, 5)), Tiles::Wall);
}

#[test]
fn a_tile_is_stored_column_by_column() {
    assert_eq!(offset_of(GridPoint::new(0, 0)), 0);
    assert_eq!(offset_of(GridPoint::new(0, 5)), 5);
    assert_eq!(offset_of(GridPoint::new(2, 5)), 133);
    assert_eq!(offset_of(GridPoint::new(63, 63)), 4095);
    let mut world: World<usize> = World::default();
    world.set(GridPoint::new(2, 5), Tiles::EnergyGain);
    assert_eq!(world.map[133], Tiles::EnergyGain);
    assert_eq!(*world.index(GridPoint::new(2, 5)), Tiles::EnergyGain);
    assert_eq!(*world.index(GridPoint::new(5, 2)), Tiles::Floor);
    assert_eq!(count(&world, Tiles::EnergyGain), 1);
}

#[test]
fn the_border_is_the_outer_ring() {
    let mut world: World<usize> = World::default();
    world.set_border(Tiles::Wall);
    for x in 0..64u16 {
        for y in 0..64u16 {
            let on_ring = x == 0 || y == 0 || x == 63 || y == 63;
            let expected = if on_ring { Tiles::Wall } else { Tiles::Floor };
            assert_eq!(*world.index(GridPoint::new(x, y)), expected);
        }
    }
    assert_eq!(count(&world, Tiles::Wall), 4 * 63);
}

#[test]
fn a_point_is_free_if_it_is_floor_without_a_creature() {
    let mut world: World<usize> = World::default();
    world.set(GridPoint::new(3, 3), Tiles::EnergyGain);
    world.creatures.push(Creature::new(GridPoint::new(4, 4), 0));
    assert!(world.is_free(GridPoint::new(5, 5)));
    assert!(!world.is_free(GridPoint::new(3, 3)));
    assert!(!world.is_free(GridPoint::new(4, 4)));
    assert!(world.is_occupied(GridPoint::new(4, 4)));
    assert!(!world.is_occupied(GridPoint::new(3, 3)));
}

#[test]
fn a_random_free_point_is_free() {
    let mut world: World<usize> = World::default();
    world.set_border(Tiles::Wall);
    world.creatures.push(Creature::new(GridPoint::new(4, 4), 0));
    let mut rng = StdRng::seed_from_u64(3);
    for _ in 0..200 {
        let pt = world.get_random_free_pt(&mut rng).unwrap();
        assert!(world.is_free(pt));
        assert!(pt.x >= 1 && pt.x <= 62 && pt.y >= 1 && pt.y <= 62);
        assert!(pt != GridPoint::new(4, 4));
    }
}

#[test]
fn the_search_for_a_free_point_gives_up_where_there_is_none() {
    let world: World<usize> = World::filled_with(Tiles::Wall);
    let mut rng = StdRng::seed_from_u64(3);
    assert_eq!(world.get_random_free_pt(&mut rng), None);
    let mut world: World<usize> = World::filled_with(Tiles::Wall);
    assert_eq!(world.spread_random_tile(Tiles::EnergyGain, 1, &mut rng), Err(GridError::NoFreePoint));
    assert_eq!(world.spread_random_tile(Tiles::EnergyGain, 0, &mut rng), Ok(()));
}

#[test]
fn a_single_free_point_is_found() {
    let mut world: World<usize> = World::filled_with(Tiles::Wall);
    world.set(GridPoint::new(17, 40), Tiles::Floor);
    let mut rng = StdRng::seed_from_u64(3);
    assert_eq!(world.get_random_free_pt(&mut rng), Some(GridPoint::new(17, 40)));
}

#[test]
fn spread_tiles_land_on_free_floor() {
    let mut world: World<usize> = World::default();
    world.set_border(Tiles::Wall);
    world.creatures.push(Creature::new(GridPoint::new(4, 4), 0));
    let mut rng = StdRng::seed_from_u64(9);
    assert_eq!(world.spread_random_tile(Tiles::EnergyGain, 128, &mut rng), Ok(()));
    assert_eq!(world.spread_random_tile(Tiles::EnergyLoss, 512, &mut rng), Ok(()));
    assert_eq!(count(&world, Tiles::EnergyGain), 128);
    assert_eq!(count(&world, Tiles::EnergyLoss), 512);
    assert_eq!(count(&world, Tiles::Wall), 252);
    assert_eq!(count(&world, Tiles::Floor), 4096 - 252 - 128 - 512);
    assert_eq!(*world.index(GridPoint::new(4, 4)), Tiles::Floor);
    assert_eq!(world.creatures.len(), 1);
}

#[test]
fn spreading_floor_changes_nothing() {
    let mut world: World<usize> = World::default();
    world.set_border(Tiles::Wall);
    let before = world.map;
    let mut rng = StdRng::seed_from_u64(9);
    assert_eq!(world.spread_random_tile(Tiles::Floor, 10, &mut rng), Ok(()));
    assert!(world.map == before);
}

#[test]
fn creatures_in_range_are_those_near_but_not_here() {
    let mut world: World<usize> = World::default();
    let places = [(10, 10), (12, 10), (10, 13), (14, 10), (10, 10), (7, 7), (6, 10)];
    for (i, (x, y)) in places.iter().enumerate() {
        world.creatures.push(Creature::new(GridPoint::new(*x, *y), i));
    }
    let near = world.get_creatures_in_range(GridPoint::new(10, 10), 3);
    assert_eq!(
        near,
        vec![GridPoint::new(12, 10), GridPoint::new(10, 13), GridPoint::new(7, 7)]
    );
    assert_eq!(world.get_creatures_in_range(GridPoint::new(10, 10), 0), vec![]);
}

#[test]
fn a_new_creature_has_no_target() {
    let creature = Creature::new(GridPoint::new(1, 2), 7usize);
    assert_eq!(creature.pos, GridPoint::new(1, 2));
    assert_eq!(creature.brain, 7);
    assert_eq!(creature.target_pos, None);
    assert_eq!(creature.energy, 0);
    assert_eq!(creature.claimed(), GridPoint::new(1, 2));
    let mut creature = creature;
    creature.target_pos = Some(GridPoint::new(2, 2));
    assert_eq!(creature.claimed(), GridPoint::new(2, 2));
}
