use evosim::animal_simulation::eye::note_sight;
use evosim::animal_simulation::eye::Sight;
use evosim::animal_simulation::{Config, Eye, Food, Point2, VisibleAnimal};
use rand::rngs::StdRng;
use rand::Rng;
use rand::SeedableRng;

fn food(x: i32, y: i32) -> Food {
    Food { position: Point2::new(x, y) }
}

/// An eye of nine cells over 225 degrees.
fn eye() -> Eye {
    Eye { fov_range: 250_000, fov_angle: 3_926_991, cells: 9 }
}

#[test]
fn an_eye_is_made_from_the_parameters() {
    let eye = Eye::new(&Config::default());
    assert_eq!((eye.fov_range, eye.fov_angle, eye.cells), (250_000, 5_061_455, 9));
    // Nine cells over 290 degrees: what lies behind to the side is seen.
    let position = Point2::new(500_000, 500_000);
    let sight = eye.look(position, 0, Point2::new(400_000, 450_000), 0);
    assert_eq!((sight.seen, sight.cell), (true, 8));
    let sight = eye.look(position, 0, Point2::new(500_000, 600_000), 0);
    assert_eq!((sight.seen, sight.cell), (true, 4));
    assert!(!eye.look(position, 0, Point2::new(500_000, 400_000), 0).seen);
}

#[test]
fn nothing_to_see() {
    let cells = eye().process_vision(Point2::new(500_000, 500_000), 0, &vec![], &vec![]);
    assert_eq!(cells, vec![0; 36]);
}

#[test]
fn food_straight_ahead_falls_in_the_middle_cell() {
    let cells = eye().process_vision(
        Point2::new(500_000, 500_000),
        0,
        &vec![food(500_000, 600_000)],
        &vec![],
    );
    let mut expected = vec![0; 36];
    expected[16] = 10_000_000;
    expected[17] = 1_000_000;
    assert_eq!(cells, expected);
}

#[test]
fn the_cells_run_from_the_right_edge_of_the_view_to_the_left() {
    let position = Point2::new(500_000, 500_000);
    let at = |x: i32, y: i32| {
        let sight = eye().look(position, 0, Point2::new(x, y), 0);
        (sight.seen, sight.cell)
    };
    // To the left of an animal that heads along the second axis.
    assert_eq!(at(400_000, 500_000), (true, 8));
    // To the right.
    assert_eq!(at(600_000, 500_000), (true, 0));
    // Ahead and slightly to either side.
    assert_eq!(at(490_000, 600_000), (true, 4));
    assert_eq!(at(450_000, 600_000), (true, 5));
    assert_eq!(at(550_000, 600_000), (true, 3));
    // Behind and out of view.
    assert_eq!(at(500_000, 400_000).0, false);
    assert_eq!(at(490_000, 400_000).0, false);
}

#[test]
fn the_view_turns_with_the_heading() {
    let position = Point2::new(500_000, 500_000);
    // Heading a quarter turn to the left, toward the falling first axis.
    let sight = eye().look(position, 1_570_796, Point2::new(400_000, 500_000), 0);
    assert_eq!((sight.seen, sight.cell), (true, 4));
    let sight = eye().look(position, 1_570_796, Point2::new(600_000, 500_000), 0);
    assert!(!sight.seen);
    let sight = eye().look(position, -3_141_593, Point2::new(500_000, 400_000), 0);
    assert_eq!((sight.seen, sight.cell), (true, 4));
}

#[test]
fn things_are_seen_closer_than_the_range_only() {
    let position = Point2::new(500_000, 500_000);
    assert!(eye().look(position, 0, Point2::new(500_000, 749_999), 0).seen);
    assert!(!eye().look(position, 0, Point2::new(500_000, 750_000), 0).seen);
    assert!(!eye().look(position, 0, Point2::new(500_000, 900_000), 0).seen);
    // The arena's edges are not joined for seeing.
    assert!(!eye().look(Point2::new(0, 999_999), 0, Point2::new(0, 1), 0).seen);
}

#[test]
fn nothing_is_seen_at_the_eyes_own_place() {
    let position = Point2::new(500_000, 500_000);
    let sight = eye().look(position, 0, position, 1);
    assert!(!sight.seen);
    assert_eq!(sight.strength, 0);
    let me = VisibleAnimal(position, 0, 4_000, 0);
    let cells = eye().process_vision(position, 0, &vec![food(500_000, 500_000)], &vec![me]);
    assert_eq!(cells, vec![0; 36]);
}

#[test]
fn the_strength_is_the_inverse_of_the_distance() {
    let position = Point2::new(500_000, 500_000);
    assert_eq!(eye().look(position, 0, Point2::new(500_000, 600_000), 0).strength, 10_000_000);
    assert_eq!(eye().look(position, 0, Point2::new(500_000, 700_000), 0).strength, 5_000_000);
    assert_eq!(eye().look(position, 0, Point2::new(530_000, 540_000), 0).strength, 20_000_000);
    assert_eq!(eye().look(position, 0, Point2::new(500_000, 500_001), 0).strength, i32::MAX);
    assert_eq!(eye().look(position, 0, Point2::new(500_000, 500_465), 0).strength, i32::MAX);
    assert_eq!(eye().look(position, 0, Point2::new(500_000, 500_466), 0).strength, 2_145_922_746);
}

#[test]
fn food_and_animals_are_kept_apart_and_counted() {
    let position = Point2::new(500_000, 500_000);
    let foods = vec![food(500_000, 600_000), food(500_000, 550_000), food(400_000, 500_000)];
    let animals = vec![
        VisibleAnimal(Point2::new(500_000, 700_000), 0, 4_000, 0),
        VisibleAnimal(position, 0, 4_000, 0),
        VisibleAnimal(Point2::new(600_000, 500_000), 0, 4_000, 0),
        VisibleAnimal(Point2::new(500_000, 100_000), 0, 4_000, 0),
    ];
    let cells = eye().process_vision(position, 0, &foods, &animals);
    let mut expected = vec![0; 36];
    expected[16] = 20_000_000;
    expected[17] = 2_000_000;
    expected[18] = 5_000_000;
    expected[19] = 1_000_000;
    expected[32] = 10_000_000;
    expected[33] = 1_000_000;
    expected[2] = 10_000_000;
    expected[3] = 1_000_000;
    assert_eq!(cells, expected);
    assert!(cells.iter().all(|v| *v >= 0));
}

#[test]
fn an_eye_of_one_cell_sees_all_in_it() {
    let eye = Eye { fov_range: 500_000, fov_angle: 6_283_186, cells: 1 };
    let position = Point2::new(500_000, 500_000);
    let foods = vec![food(500_000, 600_000), food(500_000, 400_000), food(600_000, 500_000)];
    let cells = eye.process_vision(position, 777, &foods, &vec![]);
    assert_eq!(cells, vec![10_000_000, 3_000_000, 0, 0]);
}

#[test]
fn a_sight_raises_strength_and_count_of_its_slots() {
    let mut cells = vec![0i32; 8];
    note_sight(&mut cells, 2, &Sight { seen: true, cell: 1, kind: 1, strength: 7 });
    assert_eq!(cells, vec![0, 0, 0, 0, 0, 0, 7, 1_000_000]);
    note_sight(&mut cells, 2, &Sight { seen: true, cell: 1, kind: 1, strength: 5 });
    assert_eq!(cells, vec![0, 0, 0, 0, 0, 0, 7, 2_000_000]);
    note_sight(&mut cells, 2, &Sight { seen: false, cell: 0, kind: 0, strength: 9 });
    assert_eq!(cells, vec![0, 0, 0, 0, 0, 0, 7, 2_000_000]);
    note_sight(&mut cells, 2, &Sight { seen: true, cell: 0, kind: 0, strength: 9 });
    assert_eq!(cells, vec![9, 1_000_000, 0, 0, 0, 0, 7, 2_000_000]);
}

#[test]
fn the_cell_is_the_true_angle_in_steps_of_the_cell_width_or_next_to_it() {
    let eye = eye();
    let mut rng = StdRng::seed_from_u64(1);
    let mut seen = 0;
    let mut off = 0;
    for _ in 0..20_000 {
        let position = Point2::new(rng.gen_range(0..1_000_000), rng.gen_range(0..1_000_000));
        let target = Point2::new(
            position.x + rng.gen_range(-200_000..200_000),
            position.y + rng.gen_range(-200_000..200_000),
        );
        let heading = rng.gen_range(-3_141_593..3_141_593);
        let sight = eye.look(position, heading, target, 0);
        let dx = (target.x - position.x) as f64 / 1e6;
        let dy = (target.y - position.y) as f64 / 1e6;
        let distance = (dx * dx + dy * dy).sqrt();
        if distance == 0.0 || distance > 0.24 {
            continue;
        }
        let mut angle = (-dx).atan2(dy) - heading as f64 / 1e6;
        while angle < -std::f64::consts::PI {
            angle += 2.0 * std::f64::consts::PI;
        }
        while angle >= std::f64::consts::PI {
            angle -= 2.0 * std::f64::consts::PI;
        }
        let half = 3.926991 / 2.0;
        if angle.abs() > half - 0.01 {
            continue;
        }
        assert!(sight.seen);
        seen += 1;
        let cell = (((angle + half) / 3.926991) * 9.0).floor() as i64;
        assert!((sight.cell as i64 - cell).abs() <= 1);
        if sight.cell as i64 != cell {
            off += 1;
        }
        let strength = sight.strength as f64 / 1e6;
        assert!((strength - 1.0 / distance).abs() <= 1.0 / distance * 0.001 + 0.001);
    }
    assert!(seen > 5_000);
    assert!(off * 50 < seen);
}
