use evosim::neural_network::{Layer, LayerType, Network};
use rand::rngs::StdRng;
use rand::SeedableRng;

#[test]
fn a_layer_multiplies_adds_and_cuts_off_below_zero() {
    let layer = Layer::new(
        LayerType::Calc,
        2,
        2,
        vec![1_000_000, -1_000_000, 500_000, 2_000_000],
        vec![100_000, -200_000],
    );
    assert_eq!(layer.forward(vec![500_000, 1_500_000]), vec![1_350_000, 2_300_000]);
    assert_eq!(layer.forward(vec![-500_000, -1_500_000]), vec![0, 0]);
    assert_eq!(layer.forward(vec![0, 0]), vec![100_000, 0]);
}

#[test]
fn products_are_rounded_toward_negative_infinity() {
    let layer = Layer::new(LayerType::Calc, 1, 1, vec![333_333], vec![2]);
    assert_eq!(layer.forward(vec![-1]), vec![1]);
    assert_eq!(layer.forward(vec![1]), vec![2]);
    assert_eq!(layer.forward(vec![3]), vec![2]);
    assert_eq!(layer.forward(vec![4]), vec![3]);
}

#[test]
fn outputs_stop_at_the_largest_value() {
    let layer = Layer::new(LayerType::Calc, 2, 1, vec![i32::MAX, i32::MAX], vec![i32::MAX]);
    assert_eq!(layer.forward(vec![i32::MAX, i32::MAX]), vec![i32::MAX]);
    let layer = Layer::new(LayerType::Calc, 2, 1, vec![i32::MIN, i32::MIN], vec![i32::MIN]);
    assert_eq!(layer.forward(vec![i32::MAX, i32::MAX]), vec![0]);
}

#[test]
fn a_layer_without_inputs_gives_its_biases() {
    let layer = Layer::new(LayerType::Input, 0, 3, vec![], vec![5, -5, 0]);
    assert_eq!(layer.forward(vec![]), vec![5, 0, 0]);
}

#[test]
fn a_network_applies_its_layers_in_turn() {
    let first = Layer::new(
        LayerType::Input,
        2,
        2,
        vec![1_000_000, -1_000_000, 500_000, 2_000_000],
        vec![100_000, -200_000],
    );
    let second = Layer::new(LayerType::Output, 2, 1, vec![2_000_000, -1_000_000], vec![0]);
    let network = Network::new(vec![first, second]);
    // The first layer gives 1.35 and 2.3; the second 2 * 1.35 - 2.3 = 0.4.
    assert_eq!(network.forward(vec![500_000, 1_500_000]), vec![400_000]);
}

#[test]
fn a_network_without_layers_hands_its_inputs_back() {
    let network = Network::new(vec![]);
    assert_eq!(network.forward(vec![3, -4, 5]), vec![3, -4, 5]);
}

#[test]
fn a_random_network_has_the_shape_asked_for() {
    let mut rng = StdRng::seed_from_u64(11);
    let network = Network::random(&[4, 7, 3, 2], &mut rng);
    assert_eq!(network.layers.len(), 3);
    let sizes: Vec<(usize, usize)> =
        network.layers.iter().map(|l| (l.input_size, l.output_size)).collect();
    assert_eq!(sizes, vec![(4, 7), (7, 3), (3, 2)]);
    assert_eq!(network.layers[0].layer_type, LayerType::Input);
    assert_eq!(network.layers[1].layer_type, LayerType::Calc);
    assert_eq!(network.layers[2].layer_type, LayerType::Output);
    for layer in &network.layers {
        assert_eq!(layer.weights.len(), layer.input_size * layer.output_size);
        assert_eq!(layer.biases.len(), layer.output_size);
        assert!(layer.weights.iter().all(|w| (-1_000_000..=1_000_000).contains(w)));
        assert!(layer.biases.iter().all(|b| (-1_000_000..=1_000_000).contains(b)));
    }
    assert_eq!(network.forward(vec![0, 0, 0, 0]).len(), 2);
}

#[test]
fn a_network_of_one_layer_is_tagged_as_output() {
    let mut rng = StdRng::seed_from_u64(11);
    let network = Network::random(&[3, 2], &mut rng);
    assert_eq!(network.layers.len(), 1);
    assert_eq!(network.layers[0].layer_type, LayerType::Output);
}

#[test]
fn random_weights_are_not_all_the_same() {
    let mut rng = StdRng::seed_from_u64(5);
    let layer = Layer::random(LayerType::Calc, 10, 10, &mut rng);
    let first = layer.weights[0];
    assert!(layer.weights.iter().any(|w| *w != first));
    assert!(layer.weights.iter().any(|w| *w < 0));
    assert!(layer.weights.iter().any(|w| *w > 0));
}

#[test]
fn the_same_seed_gives_the_same_network() {
    let mut a = StdRng::seed_from_u64(99);
    let mut b = StdRng::seed_from_u64(99);
    let first = Network::random(&[5, 4, 3], &mut a);
    let second = Network::random(&[5, 4, 3], &mut b);
    for (x, y) in first.layers.iter().zip(second.layers.iter()) {
        assert_eq!(x.weights, y.weights);
        assert_eq!(x.biases, y.biases);
    }
}
