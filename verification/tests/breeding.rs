use evosim::genetic_algorithm::breeding::{
    cross_layers_with, cross_values, crossover, crossover_with, draw_network_offsets,
    draw_offsets, draw_picks, mutate_layer_with, mutate_with, offset_drawn, offset_for,
    shift_values, LayerOffsets, LayerPicks,
};
use evosim::neural_network::{Layer, LayerType, Network};
use rand::rngs::StdRng;
use rand::SeedableRng;

fn first_parent() -> Network {
    Network::new(vec![
        Layer::new(LayerType::Input, 2, 2, vec![1, 2, 3, 4], vec![5, 6]),
        Layer::new(LayerType::Output, 2, 1, vec![7, 8], vec![9]),
    ])
}

fn second_parent() -> Network {
    Network::new(vec![
        Layer::new(LayerType::Calc, 2, 2, vec![-1, -2, -3, -4], vec![-5, -6]),
        Layer::new(LayerType::Calc, 2, 1, vec![-7, -8], vec![-9]),
    ])
}

fn picks_of(value: bool) -> Vec<LayerPicks> {
    vec![
        LayerPicks { weights: vec![value; 4], biases: vec![value; 2] },
        LayerPicks { weights: vec![value; 2], biases: vec![value; 1] },
    ]
}

#[test]
fn values_are_taken_by_their_picks() {
    let child = cross_values(&vec![1, 2, 3, 4], &vec![-1, -2, -3, -4], &vec![true, false, false, true]);
    assert_eq!(child, vec![1, -2, -3, 4]);
    assert_eq!(cross_values(&vec![], &vec![], &vec![]), vec![]);
}

#[test]
fn a_crossed_layer_keeps_the_first_parents_tag_and_sizes() {
    let a = Layer::new(LayerType::Input, 1, 2, vec![10, 20], vec![30, 40]);
    let b = Layer::new(LayerType::Output, 1, 2, vec![-10, -20], vec![-30, -40]);
    let picks = LayerPicks { weights: vec![false, true], biases: vec![true, false] };
    let child = cross_layers_with(&a, &b, &picks);
    assert_eq!(child.layer_type, LayerType::Input);
    assert_eq!((child.input_size, child.output_size), (1, 2));
    assert_eq!(child.weights, vec![-10, 20]);
    assert_eq!(child.biases, vec![30, -40]);
}

#[test]
fn a_child_of_first_picks_only_is_the_first_parent() {
    let a = first_parent();
    let b = second_parent();
    let child = crossover_with(&a, &b, &picks_of(true));
    assert_eq!(child.layers.len(), 2);
    for (made, model) in child.layers.iter().zip(a.layers.iter()) {
        assert_eq!(made.layer_type, model.layer_type);
        assert_eq!(made.input_size, model.input_size);
        assert_eq!(made.output_size, model.output_size);
        assert_eq!(made.weights, model.weights);
        assert_eq!(made.biases, model.biases);
    }
}

#[test]
fn a_child_of_second_picks_only_has_the_second_parents_values() {
    let a = first_parent();
    let b = second_parent();
    let child = crossover_with(&a, &b, &picks_of(false));
    for (made, model) in child.layers.iter().zip(b.layers.iter()) {
        assert_eq!(made.weights, model.weights);
        assert_eq!(made.biases, model.biases);
    }
    assert_eq!(child.layers[0].layer_type, LayerType::Input);
    assert_eq!(child.layers[1].layer_type, LayerType::Output);
}

#[test]
fn a_drawn_crossover_takes_every_value_from_a_parent() {
    let a = first_parent();
    let b = second_parent();
    let mut rng = StdRng::seed_from_u64(3);
    let mut from_first = 0;
    let mut from_second = 0;
    for _ in 0..50 {
        let child = crossover(&a, &b, &mut rng);
        for k in 0..2 {
            for i in 0..child.layers[k].weights.len() {
                let w = child.layers[k].weights[i];
                assert!(w == a.layers[k].weights[i] || w == b.layers[k].weights[i]);
                if w == a.layers[k].weights[i] {
                    from_first += 1;
                } else {
                    from_second += 1;
                }
            }
            for i in 0..child.layers[k].biases.len() {
                let v = child.layers[k].biases[i];
                assert!(v == a.layers[k].biases[i] || v == b.layers[k].biases[i]);
            }
        }
    }
    assert!(from_first > 100 && from_second > 100);
}

#[test]
fn picks_are_drawn_in_the_number_asked_for() {
    let mut rng = StdRng::seed_from_u64(3);
    let picks = draw_picks(1000, &mut rng);
    assert_eq!(picks.len(), 1000);
    let firsts = picks.iter().filter(|p| **p).count();
    assert!(firsts > 400 && firsts < 600);
}

#[test]
fn an_offset_is_a_fraction_of_the_coefficient() {
    assert_eq!(offset_for(false, 300_000, 500_000), 150_000);
    assert_eq!(offset_for(true, 300_000, 500_000), -150_000);
    assert_eq!(offset_for(false, 300_000, 0), 0);
    assert_eq!(offset_for(true, 300_000, 999_999), -299_999);
    assert_eq!(offset_for(false, 0, 999_999), 0);
    assert_eq!(offset_for(false, 3, 500_000), 1);
    assert_eq!(offset_for(true, 3, 500_000), -1);
}

#[test]
fn a_value_that_is_not_hit_gets_no_offset() {
    assert_eq!(offset_drawn(None, 300_000), 0);
    assert_eq!(offset_drawn(Some((false, 500_000)), 300_000), 150_000);
    assert_eq!(offset_drawn(Some((true, 500_000)), 300_000), -150_000);
    assert_eq!(offset_drawn(Some((true, 0)), 300_000), 0);
    assert_eq!(offset_drawn(Some((false, 999_999)), 0), 0);
}

#[test]
fn values_are_shifted_by_their_offsets() {
    assert_eq!(shift_values(&vec![10, -10, 0], &vec![1, 2, -3]), vec![11, -8, -3]);
    assert_eq!(shift_values(&vec![i32::MAX, i32::MIN], &vec![1, -1]), vec![i32::MAX, i32::MIN]);
}

#[test]
fn a_mutated_layer_keeps_tag_and_sizes() {
    let layer = Layer::new(LayerType::Output, 2, 1, vec![100, 200], vec![300]);
    let offsets = LayerOffsets { weights: vec![-1, 1], biases: vec![0] };
    let mutant = mutate_layer_with(&layer, &offsets);
    assert_eq!(mutant.layer_type, LayerType::Output);
    assert_eq!((mutant.input_size, mutant.output_size), (2, 1));
    assert_eq!(mutant.weights, vec![99, 201]);
    assert_eq!(mutant.biases, vec![300]);
}

#[test]
fn a_network_is_mutated_by_the_given_offsets() {
    let network = first_parent();
    let offsets = vec![
        LayerOffsets { weights: vec![10, 0, -10, 0], biases: vec![0, 1] },
        LayerOffsets { weights: vec![0, 0], biases: vec![-9] },
    ];
    let mutant = mutate_with(&network, &offsets);
    assert_eq!(mutant.layers[0].weights, vec![11, 2, -7, 4]);
    assert_eq!(mutant.layers[0].biases, vec![5, 7]);
    assert_eq!(mutant.layers[1].weights, vec![7, 8]);
    assert_eq!(mutant.layers[1].biases, vec![0]);
}

#[test]
fn drawn_offsets_stay_within_the_coefficient() {
    let mut rng = StdRng::seed_from_u64(21);
    let offsets = draw_offsets(10_000, 500_000, 300_000, &mut rng);
    assert_eq!(offsets.len(), 10_000);
    assert!(offsets.iter().all(|o| (-300_000..=300_000).contains(o)));
    let moved = offsets.iter().filter(|o| **o != 0).count();
    assert!(moved > 4_000 && moved < 6_000);
    assert!(offsets.iter().any(|o| *o < 0));
    assert!(offsets.iter().any(|o| *o > 0));
}

#[test]
fn without_a_chance_nothing_is_mutated() {
    let mut rng = StdRng::seed_from_u64(21);
    assert!(draw_offsets(1000, 0, 300_000, &mut rng).iter().all(|o| *o == 0));
    let network = first_parent();
    let offsets = draw_network_offsets(&network, 0, 300_000, &mut rng);
    let mutant = mutate_with(&network, &offsets);
    for (made, model) in mutant.layers.iter().zip(network.layers.iter()) {
        assert_eq!(made.weights, model.weights);
        assert_eq!(made.biases, model.biases);
    }
}

#[test]
fn with_every_chance_everything_may_move_but_no_further_than_the_coefficient() {
    let mut rng = StdRng::seed_from_u64(8);
    let mut layers = Vec::new();
    layers.push(Layer::random(LayerType::Input, 20, 20, &mut rng));
    layers.push(Layer::random(LayerType::Output, 20, 5, &mut rng));
    let network = Network::new(layers);
    let offsets = draw_network_offsets(&network, 1_000_000, 300_000, &mut rng);
    assert_eq!(offsets.len(), 2);
    assert_eq!((offsets[0].weights.len(), offsets[0].biases.len()), (400, 20));
    assert_eq!((offsets[1].weights.len(), offsets[1].biases.len()), (100, 5));
    let mutant = mutate_with(&network, &offsets);
    let mut moved = 0;
    for (made, model) in mutant.layers.iter().zip(network.layers.iter()) {
        assert_eq!(made.layer_type, model.layer_type);
        assert_eq!(made.weights.len(), model.weights.len());
        for (after, before) in made.weights.iter().zip(model.weights.iter()) {
            assert!((after - before).abs() <= 300_000);
            if after != before {
                moved += 1;
            }
        }
        for (after, before) in made.biases.iter().zip(model.biases.iter()) {
            assert!((after - before).abs() <= 300_000);
        }
    }
    assert!(moved > 400);
}
