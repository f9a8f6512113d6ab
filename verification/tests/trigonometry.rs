use evosim::trig::{
    arc_tangent2, cosine, normalize, sine, whole_root, EIGHTH_TURN, FULL_TURN, HALF_TURN,
    QUARTER_TURN,
};

#[test]
fn the_turns_fit_together() {
    assert_eq!(HALF_TURN, 3_141_593);
    assert_eq!(FULL_TURN, 2 * HALF_TURN);
    assert_eq!(QUARTER_TURN, HALF_TURN / 2);
    assert_eq!(EIGHTH_TURN, QUARTER_TURN / 2);
}

#[test]
fn angles_are_brought_into_half_a_turn_either_way() {
    assert_eq!(normalize(0), 0);
    assert_eq!(normalize(3_141_592), 3_141_592);
    assert_eq!(normalize(3_141_593), -3_141_593);
    assert_eq!(normalize(-3_141_593), -3_141_593);
    assert_eq!(normalize(-3_141_594), 3_141_592);
    assert_eq!(normalize(6_283_186), 0);
    assert_eq!(normalize(6_283_187), 1);
    assert_eq!(normalize(-6_283_186 * 5 + 7), 7);
    assert!(normalize(i64::MAX) >= -HALF_TURN && normalize(i64::MAX) < HALF_TURN);
    assert!(normalize(i64::MIN) >= -HALF_TURN && normalize(i64::MIN) < HALF_TURN);
}

#[test]
fn the_sine_at_known_angles() {
    assert_eq!(sine(0), 0);
    assert_eq!(sine(523_599), 500_000);
    assert_eq!(sine(785_398), 705_882);
    assert_eq!(sine(1_570_796), 999_999);
    assert_eq!(sine(3_141_593), 0);
    assert_eq!(sine(-523_599), -500_000);
    assert_eq!(sine(-1_570_796), -999_999);
    assert_eq!(sine(1_000_000), 840_218);
    assert_eq!(sine(-2_000_000), -908_385);
}

#[test]
fn the_cosine_at_known_angles() {
    assert_eq!(cosine(0), 999_999);
    assert_eq!(cosine(523_599), 864_865);
    assert_eq!(cosine(1_570_796), 1);
    assert_eq!(cosine(3_141_593), -999_999);
    assert_eq!(cosine(-1_570_796), 0);
    assert_eq!(cosine(1_000_000), 540_002);
    assert_eq!(cosine(-2_000_000), -416_785);
}

#[test]
fn the_sine_is_near_the_true_sine() {
    let mut angle = -HALF_TURN;
    while angle <= HALF_TURN {
        let got = sine(angle) as f64 / 1e6;
        let want = (angle as f64 / 1e6).sin();
        assert!((got - want).abs() < 0.002, "angle {}", angle);
        let got = cosine(angle) as f64 / 1e6;
        let want = (angle as f64 / 1e6).cos();
        assert!((got - want).abs() < 0.002, "angle {}", angle);
        angle += 997;
    }
}

#[test]
fn the_arc_tangent_at_known_directions() {
    assert_eq!(arc_tangent2(0, 0), 0);
    assert_eq!(arc_tangent2(0, 1), 0);
    assert_eq!(arc_tangent2(1, 1), 785_398);
    assert_eq!(arc_tangent2(1, 0), 1_570_796);
    assert_eq!(arc_tangent2(1, -1), 2_356_195);
    assert_eq!(arc_tangent2(0, -1), 3_141_593);
    assert_eq!(arc_tangent2(-1, -1), -2_356_195);
    assert_eq!(arc_tangent2(-1, 0), -1_570_796);
    assert_eq!(arc_tangent2(-1, 1), -785_398);
    assert_eq!(arc_tangent2(1, 2), 460_949);
    assert_eq!(arc_tangent2(3, 4), 640_236);
    assert_eq!(arc_tangent2(-5, 12), -393_602);
    assert_eq!(arc_tangent2(1, 1000), 1_058);
    assert_eq!(arc_tangent2(1 << 32, 1 << 32), 785_398);
    assert_eq!(arc_tangent2(-(1 << 32), 0), -1_570_796);
}

#[test]
fn the_arc_tangent_is_near_the_true_one() {
    for across in -50i64..=50 {
        for along in -50i64..=50 {
            if across == 0 && along == 0 {
                continue;
            }
            let got = arc_tangent2(across, along) as f64 / 1e6;
            let want = (across as f64).atan2(along as f64);
            assert!((got - want).abs() < 0.004, "direction {} {}", along, across);
        }
    }
}

#[test]
fn the_whole_root() {
    assert_eq!(whole_root(0), 0);
    assert_eq!(whole_root(1), 1);
    assert_eq!(whole_root(3), 1);
    assert_eq!(whole_root(4), 2);
    assert_eq!(whole_root(99), 9);
    assert_eq!(whole_root(100), 10);
    assert_eq!(whole_root(10_000_000_000), 100_000);
    assert_eq!(whole_root(9_999_999_999), 99_999);
    assert_eq!(whole_root(u64::MAX), 4_294_967_295);
    for value in 0..2000u64 {
        let root = whole_root(value);
        assert!(root * root <= value && value < (root + 1) * (root + 1));
    }
}
