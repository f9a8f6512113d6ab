use evosim::gridworld::grid_pt::wrap_coordinate;
use evosim::gridworld::{eye_cell, get_points_in_range, Direction, GridPoint};
use rand::rngs::StdRng;
use rand::SeedableRng;

#[test]
fn chessboard_distance_is_the_greater_difference() {
    let a = GridPoint::new(3, 10);
    let b = GridPoint::new(7, 4);
    assert_eq!(a.dist(b), 6);
    assert_eq!(b.dist(a), 6);
    assert_eq!(a.dist(a), 0);
    assert_eq!(GridPoint::new(0, 0).dist(GridPoint::new(65535, 1)), 65535);
}

#[test]
fn every_direction_moves_to_its_neighbour() {
    let middle = GridPoint::new(10, 20);
    assert_eq!(middle.move_dir(Direction::Up), GridPoint::new(10, 19));
    assert_eq!(middle.move_dir(Direction::UpRight), GridPoint::new(11, 19));
    assert_eq!(middle.move_dir(Direction::Right), GridPoint::new(11, 20));
    assert_eq!(middle.move_dir(Direction::DownRight), GridPoint::new(11, 21));
    assert_eq!(middle.move_dir(Direction::Down), GridPoint::new(10, 21));
    assert_eq!(middle.move_dir(Direction::DownLeft), GridPoint::new(9, 21));
    assert_eq!(middle.move_dir(Direction::Left), GridPoint::new(9, 20));
    assert_eq!(middle.move_dir(Direction::UpLeft), GridPoint::new(9, 19));
}

#[test]
fn a_step_over_the_edge_comes_in_at_the_other_side() {
    let corner = GridPoint::new(0, 63);
    assert_eq!(corner.move_dir(Direction::Left), GridPoint::new(63, 63));
    assert_eq!(corner.move_dir(Direction::Down), GridPoint::new(0, 0));
    assert_eq!(corner.move_dir(Direction::UpRight), GridPoint::new(1, 62));
    assert_eq!(corner.move_dir(Direction::DownLeft), GridPoint::new(63, 0));
}

#[test]
fn a_step_always_ends_inside_the_grid() {
    for x in [0u16, 1, 31, 62, 63] {
        for y in [0u16, 1, 31, 62, 63] {
            for d in 0u8..8 {
                let pt = GridPoint::new(x, y).move_dir(Direction::from(d));
                assert!(pt.x < 64 && pt.y < 64);
            }
        }
    }
}

#[test]
fn wrapping_keeps_coordinates_in_the_grid() {
    assert_eq!(wrap_coordinate(-1), 63);
    assert_eq!(wrap_coordinate(0), 0);
    assert_eq!(wrap_coordinate(63), 63);
    assert_eq!(wrap_coordinate(64), 0);
    assert_eq!(wrap_coordinate(130), 2);
}

#[test]
fn directions_are_numbered_clockwise_from_up() {
    assert_eq!(Direction::from(0), Direction::Up);
    assert_eq!(Direction::from(1), Direction::UpRight);
    assert_eq!(Direction::from(2), Direction::Right);
    assert_eq!(Direction::from(3), Direction::DownRight);
    assert_eq!(Direction::from(4), Direction::Down);
    assert_eq!(Direction::from(5), Direction::DownLeft);
    assert_eq!(Direction::from(6), Direction::Left);
    assert_eq!(Direction::from(7), Direction::UpLeft);
}

#[test]
fn a_place_in_the_row_of_tiles_becomes_column_and_row() {
    assert_eq!(GridPoint::from(0), GridPoint::new(0, 0));
    assert_eq!(GridPoint::from(63), GridPoint::new(0, 63));
    assert_eq!(GridPoint::from(64), GridPoint::new(1, 0));
    assert_eq!(GridPoint::from(4095), GridPoint::new(63, 63));
    assert_eq!(GridPoint::from(130), GridPoint::new(2, 2));
}

#[test]
fn points_in_range_are_the_neighbours_but_not_the_point_itself() {
    let points = get_points_in_range(GridPoint::new(2, 2), 1);
    assert_eq!(
        points,
        vec![
            GridPoint::new(1, 1),
            GridPoint::new(1, 2),
            GridPoint::new(1, 3),
            GridPoint::new(2, 1),
            GridPoint::new(2, 3),
            GridPoint::new(3, 1),
            GridPoint::new(3, 2),
            GridPoint::new(3, 3),
        ]
    );
    let points = get_points_in_range(GridPoint::new(5, 9), 1);
    assert_eq!(points.len(), 8);
    assert!(!points.contains(&GridPoint::new(5, 9)));
    assert!(points.contains(&GridPoint::new(4, 8)));
}

#[test]
fn points_in_range_stop_at_the_edges() {
    let points = get_points_in_range(GridPoint::new(63, 0), 2);
    assert_eq!(
        points,
        vec![
            GridPoint::new(61, 0),
            GridPoint::new(61, 1),
            GridPoint::new(61, 2),
            GridPoint::new(62, 0),
            GridPoint::new(62, 1),
            GridPoint::new(62, 2),
            GridPoint::new(63, 1),
            GridPoint::new(63, 2),
        ]
    );
    assert_eq!(get_points_in_range(GridPoint::new(5, 9), 0), vec![]);
    assert_eq!(get_points_in_range(GridPoint::new(5, 5), 0), vec![]);
    assert_eq!(get_points_in_range(GridPoint::new(200, 5), 3), vec![]);
    assert_eq!(
        get_points_in_range(GridPoint::new(64, 5), 1),
        vec![GridPoint::new(63, 4), GridPoint::new(63, 5), GridPoint::new(63, 6)]
    );
}

#[test]
fn points_in_range_are_all_within_the_distance() {
    let pos = GridPoint::new(30, 30);
    let points = get_points_in_range(pos, 16);
    assert_eq!(points.len(), 33 * 33 - 1);
    let points = get_points_in_range(GridPoint::new(30, 10), 4);
    assert_eq!(points.len(), 80);
    for range in [0u16, 1, 3, 16, 70] {
        for pos in [GridPoint::new(0, 0), GridPoint::new(7, 7), GridPoint::new(63, 20)] {
            let points = get_points_in_range(pos, range);
            let mut expected = Vec::new();
            for x in 0..64u16 {
                for y in 0..64u16 {
                    let pt = GridPoint::new(x, y);
                    if pt != pos && pos.dist(pt) <= range {
                        expected.push(pt);
                    }
                }
            }
            assert_eq!(points, expected);
        }
    }
}

#[test]
fn random_points_lie_in_the_grid() {
    let mut rng = StdRng::seed_from_u64(7);
    for _ in 0..1000 {
        let pt = GridPoint::rand(&mut rng);
        assert!(pt.x < 64 && pt.y < 64);
    }
}

#[test]
fn the_eye_counts_its_cells_from_the_left_over_the_top() {
    let pos = GridPoint::new(30, 30);
    assert_eq!(eye_cell(pos, GridPoint::new(25, 30)), 0);
    assert_eq!(eye_cell(pos, GridPoint::new(30, 25)), 10);
    assert_eq!(eye_cell(pos, GridPoint::new(35, 30)), 20);
    assert_eq!(eye_cell(pos, GridPoint::new(30, 35)), 30);
    assert_eq!(eye_cell(pos, pos), 0);
}

#[test]
fn the_diagonals_begin_the_second_half_of_each_quarter() {
    let pos = GridPoint::new(30, 30);
    assert_eq!(eye_cell(pos, GridPoint::new(27, 27)), 5);
    assert_eq!(eye_cell(pos, GridPoint::new(33, 27)), 15);
    assert_eq!(eye_cell(pos, GridPoint::new(33, 33)), 25);
    assert_eq!(eye_cell(pos, GridPoint::new(27, 33)), 35);
}

#[test]
fn slopes_fall_into_cells_of_nine_degrees() {
    let pos = GridPoint::new(30, 30);
    // 10 to the left and 1 up: 5.7 degrees.
    assert_eq!(eye_cell(pos, GridPoint::new(20, 29)), 0);
    // 10 to the left and 2 up: 11.3 degrees.
    assert_eq!(eye_cell(pos, GridPoint::new(20, 28)), 1);
    // 10 to the left and 4 up: 21.8 degrees.
    assert_eq!(eye_cell(pos, GridPoint::new(20, 26)), 2);
    // 10 to the left and 6 up: 31.0 degrees.
    assert_eq!(eye_cell(pos, GridPoint::new(20, 24)), 3);
    // 10 to the left and 8 up: 38.7 degrees.
    assert_eq!(eye_cell(pos, GridPoint::new(20, 22)), 4);
    // 8 to the left and 10 up: 51.3 degrees.
    assert_eq!(eye_cell(pos, GridPoint::new(22, 20)), 5);
    // 1 to the left and 10 up: 84.3 degrees.
    assert_eq!(eye_cell(pos, GridPoint::new(29, 20)), 9);
    // 1 to the left and 10 down: 275.7 degrees.
    assert_eq!(eye_cell(pos, GridPoint::new(29, 40)), 30);
    // 10 to the left and 1 down: 354.3 degrees.
    assert_eq!(eye_cell(pos, GridPoint::new(20, 31)), 39);
}
