//! Crossover and mutation of networks.
//!
//! Each operation comes twice: once taking the random choices as arguments,
//! with an exact result, and once drawing them.

use rand::rngs::StdRng;
use vstd::prelude::*;

use crate::fixed::{clamp_i32, floor_div, mul_i32, saturate_i32, SCALE};
use crate::neural_network::layer::Layer;
use crate::neural_network::network::{joined, Network};
use crate::rng::{chance, coin, unit_fraction};

verus! {

/// The choices of one crossover of two layers: for every weight and every
/// bias, whether it comes from the first parent.
pub struct LayerPicks {
    pub weights: Vec<bool>,
    pub biases: Vec<bool>,
}

/// What one mutation adds to every weight and every bias of a layer.
pub struct LayerOffsets {
    pub weights: Vec<i32>,
    pub biases: Vec<i32>,
}

/// Value by value, the first parent's where the pick is true and the second
/// parent's where it is false.
pub open spec fn crossed(first: Seq<i32>, second: Seq<i32>, picks: Seq<bool>) -> Seq<i32> {
    Seq::new(
        first.len(),
        |i: int|
            if picks[i] {
                first[i]
            } else {
                second[i]
            },
    )
}

/// Value by value, the sum of value and offset, saturated to 32 bits.
pub open spec fn shifted(values: Seq<i32>, offsets: Seq<i32>) -> Seq<i32> {
    Seq::new(values.len(), |i: int| clamp_i32(values[i] + offsets[i]) as i32)
}

/// The offset of one mutated value: `coeff` times a fraction of `[0, 1)`,
/// rounded down, with the sign drawn.
pub open spec fn mutation_offset(negative: bool, coeff: int, fraction: int) -> int {
    if negative {
        -((coeff * fraction) / (SCALE as int))
    } else {
        (coeff * fraction) / (SCALE as int)
    }
}

/// No value of `after` is further than `coeff` from the value of `before`
/// at the same place.
pub open spec fn within(before: Seq<i32>, after: Seq<i32>, coeff: int) -> bool {
    &&& after.len() == before.len()
    &&& forall|i: int| 0 <= i < before.len() ==> -coeff <= #[trigger] after[i] - before[i] <= coeff
}

/// Every value of `child` is the value of one of the parents at the same
/// place.
pub open spec fn inherited(child: Seq<i32>, first: Seq<i32>, second: Seq<i32>) -> bool {
    &&& child.len() == first.len()
    &&& forall|i: int|
        0 <= i < child.len() ==> #[trigger] child[i] == first[i] || child[i] == second[i]
}

/// Two layers have the same sizes.
pub open spec fn same_layer_shape(a: &Layer, b: &Layer) -> bool {
    a.input_size == b.input_size && a.output_size == b.output_size
}

/// Two networks have as many layers, of the same sizes.
pub open spec fn same_shape(a: &Network, b: &Network) -> bool {
    &&& a.layers@.len() == b.layers@.len()
    &&& forall|k: int|
        0 <= k < a.layers@.len() ==> same_layer_shape(&#[trigger] a.layers@[k], &b.layers@[k])
}

/// `picks` hold one choice for every weight and bias of `network`.
pub open spec fn picks_fit(picks: Seq<LayerPicks>, network: &Network) -> bool {
    &&& picks.len() == network.layers@.len()
    &&& forall|k: int|
        0 <= k < picks.len() ==> {
            &&& (#[trigger] picks[k]).weights@.len() == network.layers@[k].weights@.len()
            &&& picks[k].biases@.len() == network.layers@[k].biases@.len()
        }
}

/// `offsets` hold one offset for every weight and bias of `network`.
pub open spec fn offsets_fit(offsets: Seq<LayerOffsets>, network: &Network) -> bool {
    &&& offsets.len() == network.layers@.len()
    &&& forall|k: int|
        0 <= k < offsets.len() ==> {
            &&& (#[trigger] offsets[k]).weights@.len() == network.layers@[k].weights@.len()
            &&& offsets[k].biases@.len() == network.layers@[k].biases@.len()
        }
}

/// `child` is the crossover of the two parents under `picks`: tags and sizes
/// are the first parent's, and every weight and bias is chosen by its pick.
pub open spec fn is_crossover(
    child: &Network,
    first: &Network,
    second: &Network,
    picks: Seq<LayerPicks>,
) -> bool {
    &&& child.layers@.len() == first.layers@.len()
    &&& forall|k: int|
        0 <= k < child.layers@.len() ==> {
            &&& (#[trigger] child.layers@[k]).layer_type == first.layers@[k].layer_type
            &&& same_layer_shape(&child.layers@[k], &first.layers@[k])
            &&& child.layers@[k].weights@ == crossed(
                first.layers@[k].weights@,
                second.layers@[k].weights@,
                picks[k].weights@,
            )
            &&& child.layers@[k].biases@ == crossed(
                first.layers@[k].biases@,
                second.layers@[k].biases@,
                picks[k].biases@,
            )
        }
}

/// `mutant` is `network` with `offsets` added: tags and sizes are kept, and
/// every weight and bias is shifted by its offset.
pub open spec fn is_mutation(mutant: &Network, network: &Network, offsets: Seq<LayerOffsets>) -> bool {
    &&& mutant.layers@.len() == network.layers@.len()
    &&& forall|k: int|
        0 <= k < mutant.layers@.len() ==> {
            &&& (#[trigger] mutant.layers@[k]).layer_type == network.layers@[k].layer_type
            &&& same_layer_shape(&mutant.layers@[k], &network.layers@[k])
            &&& mutant.layers@[k].weights@ == shifted(
                network.layers@[k].weights@,
                offsets[k].weights@,
            )
            &&& mutant.layers@[k].biases@ == shifted(
                network.layers@[k].biases@,
                offsets[k].biases@,
            )
        }
}

/// Every weight and bias of `child` is that of one of the parents at the
/// same place; tags and sizes are the first parent's.
pub open spec fn inherits(child: &Network, first: &Network, second: &Network) -> bool {
    &&& child.layers@.len() == first.layers@.len()
    &&& forall|k: int|
        0 <= k < child.layers@.len() ==> {
            &&& (#[trigger] child.layers@[k]).layer_type == first.layers@[k].layer_type
            &&& same_layer_shape(&child.layers@[k], &first.layers@[k])
            &&& inherited(
                child.layers@[k].weights@,
                first.layers@[k].weights@,
                second.layers@[k].weights@,
            )
            &&& inherited(
                child.layers@[k].biases@,
                first.layers@[k].biases@,
                second.layers@[k].biases@,
            )
        }
}

/// No weight or bias of `mutant` is further than `coeff` from that of
/// `network` at the same place; tags and sizes are kept.
pub open spec fn stays_within(mutant: &Network, network: &Network, coeff: int) -> bool {
    &&& mutant.layers@.len() == network.layers@.len()
    &&& forall|k: int|
        0 <= k < mutant.layers@.len() ==> {
            &&& (#[trigger] mutant.layers@[k]).layer_type == network.layers@[k].layer_type
            &&& same_layer_shape(&mutant.layers@[k], &network.layers@[k])
            &&& within(network.layers@[k].weights@, mutant.layers@[k].weights@, coeff)
            &&& within(network.layers@[k].biases@, mutant.layers@[k].biases@, coeff)
        }
}

/// Crosses two vectors by the given picks.
pub fn cross_values(first: &Vec<i32>, second: &Vec<i32>, picks: &Vec<bool>) -> (child: Vec<i32>)
    requires
        first@.len() == second@.len(),
        first@.len() == picks@.len(),
    ensures
        child@ == crossed(first@, second@, picks@),
{
    let mut child: Vec<i32> = Vec::new();
    let mut i: usize = 0;
    while i < first.len()
        invariant
            first@.len() == second@.len(),
            first@.len() == picks@.len(),
            i <= first@.len(),
            child@.len() == i,
            forall|m: int| 0 <= m < i ==> child@[m] == crossed(first@, second@, picks@)[m],
        decreases first@.len() - i,
    {
        let value: i32 = if picks[i] {
            first[i]
        } else {
            second[i]
        };
        child.push(value);
        i = i + 1;
    }
    assert(child@ =~= crossed(first@, second@, picks@));
    child
}

/// Adds to every value its offset, saturating.
pub fn shift_values(values: &Vec<i32>, offsets: &Vec<i32>) -> (moved: Vec<i32>)
    requires
        values@.len() == offsets@.len(),
    ensures
        moved@ == shifted(values@, offsets@),
{
    let mut moved: Vec<i32> = Vec::new();
    let mut i: usize = 0;
    while i < values.len()
        invariant
            values@.len() == offsets@.len(),
            i <= values@.len(),
            moved@.len() == i,
            forall|m: int| 0 <= m < i ==> moved@[m] == shifted(values@, offsets@)[m],
        decreases values@.len() - i,
    {
        let value: i32 = saturate_i32(values[i] as i128 + offsets[i] as i128);
        moved.push(value);
        i = i + 1;
    }
    assert(moved@ =~= shifted(values@, offsets@));
    moved
}

/// The offset of one mutated value.
pub fn offset_for(negative: bool, coeff: i32, fraction: i32) -> (offset: i32)
    requires
        0 <= coeff,
        0 <= fraction < SCALE,
    ensures
        offset == mutation_offset(negative, coeff as int, fraction as int),
        -coeff <= offset <= coeff,
{
    let product: i64 = mul_i32(coeff, fraction);
    proof {
        lemma_fraction_of(coeff as int, fraction as int);
    }
    let magnitude: i128 = floor_div(product as i128, SCALE as i128);
    if negative {
        (-magnitude) as i32
    } else {
        magnitude as i32
    }
}

/// A fraction of `[0, 1)` of a non-negative value lies between zero and the
/// value.
pub proof fn lemma_fraction_of(coeff: int, fraction: int)
    requires
        0 <= coeff,
        0 <= fraction < SCALE,
    ensures
        0 <= (coeff * fraction) / (SCALE as int) <= coeff,
{
    let s = SCALE as int;
    let p = coeff * fraction;
    assert(0 <= p <= coeff * s) by (nonlinear_arith)
        requires
            0 <= coeff,
            0 <= fraction < s,
            p == coeff * fraction,
    ;
    vstd::arithmetic::div_mod::lemma_fundamental_div_mod(p, s);
    vstd::arithmetic::div_mod::lemma_mod_bound(p, s);
    let q = p / s;
    assert(0 <= q <= coeff) by (nonlinear_arith)
        requires
            s > 0,
            0 <= p <= coeff * s,
            p == s * q + p % s,
            0 <= p % s < s,
    ;
}

/// `count` fair choices.
pub fn draw_picks(count: usize, rng: &mut StdRng) -> (picks: Vec<bool>)
    ensures
        picks@.len() == count,
{
    let mut picks: Vec<bool> = Vec::new();
    let mut i: usize = 0;
    while i < count
        invariant
            i <= count,
            picks@.len() == i,
        decreases count - i,
    {
        picks.push(coin(rng));
        i = i + 1;
    }
    picks
}

/// The offset of one value once the draws are made: zero where the value
/// was not hit; where it was hit, the fraction of `coeff` with the sign
/// that were drawn for it.
pub open spec fn drawn_offset(hit: Option<(bool, i32)>, coeff: int) -> int {
    match hit {
        Some((negative, fraction)) => mutation_offset(negative, coeff, fraction as int),
        None => 0,
    }
}

/// The offset of one value once the draws are made.
pub fn offset_drawn(hit: Option<(bool, i32)>, coeff: i32) -> (offset: i32)
    requires
        0 <= coeff,
        hit matches Some((_, fraction)) ==> 0 <= fraction < SCALE,
    ensures
        offset == drawn_offset(hit, coeff as int),
        -coeff <= offset <= coeff,
{
    match hit {
        Some((negative, fraction)) => offset_for(negative, coeff, fraction),
        None => 0,
    }
}

/// `count` offsets: each value is hit with a probability of `mut_chance`
/// millionths, in which case a sign and a fraction of `coeff` are drawn
/// for it.
pub fn draw_offsets(count: usize, mut_chance: u32, coeff: i32, rng: &mut StdRng) -> (offsets:
    Vec<i32>)
    requires
        mut_chance <= SCALE,
        0 <= coeff,
    ensures
        offsets@.len() == count,
        forall|i: int| 0 <= i < count ==> -coeff <= #[trigger] offsets@[i] <= coeff,
        mut_chance == 0 ==> forall|i: int| 0 <= i < count ==> #[trigger] offsets@[i] == 0,
{
    let mut offsets: Vec<i32> = Vec::new();
    let mut i: usize = 0;
    while i < count
        invariant
            mut_chance <= SCALE,
            0 <= coeff,
            i <= count,
            offsets@.len() == i,
            forall|m: int| 0 <= m < i ==> -coeff <= #[trigger] offsets@[m] <= coeff,
            mut_chance == 0 ==> forall|m: int| 0 <= m < i ==> #[trigger] offsets@[m] == 0,
        decreases count - i,
    {
        let hit: Option<(bool, i32)> = if chance(rng, mut_chance) {
            let negative = coin(rng);
            let fraction = unit_fraction(rng);
            Some((negative, fraction))
        } else {
            None
        };
        offsets.push(offset_drawn(hit, coeff));
        i = i + 1;
    }
    offsets
}

/// Crosses two layers of the same sizes by the given picks.
pub fn cross_layers_with(first: &Layer, second: &Layer, picks: &LayerPicks) -> (child: Layer)
    requires
        first.wf(),
        second.wf(),
        same_layer_shape(first, second),
        picks.weights@.len() == first.weights@.len(),
        picks.biases@.len() == first.biases@.len(),
    ensures
        child.wf(),
        child.layer_type == first.layer_type,
        same_layer_shape(&child, first),
        child.weights@ == crossed(first.weights@, second.weights@, picks.weights@),
        child.biases@ == crossed(first.biases@, second.biases@, picks.biases@),
{
    let weights = cross_values(&first.weights, &second.weights, &picks.weights);
    let biases = cross_values(&first.biases, &second.biases, &picks.biases);
    Layer::new(first.layer_type, first.input_size, first.output_size, weights, biases)
}

/// Shifts the weights and biases of a layer by the given offsets.
pub fn mutate_layer_with(layer: &Layer, offsets: &LayerOffsets) -> (mutant: Layer)
    requires
        layer.wf(),
        offsets.weights@.len() == layer.weights@.len(),
        offsets.biases@.len() == layer.biases@.len(),
    ensures
        mutant.wf(),
        mutant.layer_type == layer.layer_type,
        same_layer_shape(&mutant, layer),
        mutant.weights@ == shifted(layer.weights@, offsets.weights@),
        mutant.biases@ == shifted(layer.biases@, offsets.biases@),
{
    let weights = shift_values(&layer.weights, &offsets.weights);
    let biases = shift_values(&layer.biases, &offsets.biases);
    Layer::new(layer.layer_type, layer.input_size, layer.output_size, weights, biases)
}

/// The crossover of two networks of the same shape under the given picks.
pub fn crossover_with(first: &Network, second: &Network, picks: &Vec<LayerPicks>) -> (child:
    Network)
    requires
        first.wf(),
        second.wf(),
        same_shape(first, second),
        picks_fit(picks@, first),
    ensures
        child.wf(),
        is_crossover(&child, first, second, picks@),
{
    let mut layers: Vec<Layer> = Vec::new();
    let mut k: usize = 0;
    while k < first.layers.len()
        invariant
            first.wf(),
            second.wf(),
            same_shape(first, second),
            picks_fit(picks@, first),
            k <= first.layers@.len(),
            layers@.len() == k,
            forall|m: int|
                0 <= m < k ==> {
                    &&& (#[trigger] layers@[m]).wf()
                    &&& layers@[m].layer_type == first.layers@[m].layer_type
                    &&& same_layer_shape(&layers@[m], &first.layers@[m])
                    &&& layers@[m].weights@ == crossed(
                        first.layers@[m].weights@,
                        second.layers@[m].weights@,
                        picks@[m].weights@,
                    )
                    &&& layers@[m].biases@ == crossed(
                        first.layers@[m].biases@,
                        second.layers@[m].biases@,
                        picks@[m].biases@,
                    )
                },
        decreases first.layers@.len() - k,
    {
        assert(first.layers@[k as int].wf());
        assert(second.layers@[k as int].wf());
        assert(same_layer_shape(&first.layers@[k as int], &second.layers@[k as int]));
        assert(picks@[k as int].weights@.len() == first.layers@[k as int].weights@.len());
        let layer = cross_layers_with(&first.layers[k], &second.layers[k], &picks[k]);
        layers.push(layer);
        k = k + 1;
    }
    let child = Network::new(layers);
    proof {
        lemma_shape_keeps_wf(first, &child);
    }
    child
}

/// `network` with the given offsets added to its weights and biases.
pub fn mutate_with(network: &Network, offsets: &Vec<LayerOffsets>) -> (mutant: Network)
    requires
        network.wf(),
        offsets_fit(offsets@, network),
    ensures
        mutant.wf(),
        is_mutation(&mutant, network, offsets@),
{
    let mut layers: Vec<Layer> = Vec::new();
    let mut k: usize = 0;
    while k < network.layers.len()
        invariant
            network.wf(),
            offsets_fit(offsets@, network),
            k <= network.layers@.len(),
            layers@.len() == k,
            forall|m: int|
                0 <= m < k ==> {
                    &&& (#[trigger] layers@[m]).wf()
                    &&& layers@[m].layer_type == network.layers@[m].layer_type
                    &&& same_layer_shape(&layers@[m], &network.layers@[m])
                    &&& layers@[m].weights@ == shifted(
                        network.layers@[m].weights@,
                        offsets@[m].weights@,
                    )
                    &&& layers@[m].biases@ == shifted(
                        network.layers@[m].biases@,
                        offsets@[m].biases@,
                    )
                },
        decreases network.layers@.len() - k,
    {
        assert(network.layers@[k as int].wf());
        assert(offsets@[k as int].weights@.len() == network.layers@[k as int].weights@.len());
        let layer = mutate_layer_with(&network.layers[k], &offsets[k]);
        layers.push(layer);
        k = k + 1;
    }
    let mutant = Network::new(layers);
    proof {
        lemma_shape_keeps_wf(network, &mutant);
    }
    mutant
}

/// One fair choice for every weight and bias of `network`, drawn layer by
/// layer, weights before biases.
pub fn draw_network_picks(network: &Network, rng: &mut StdRng) -> (picks: Vec<LayerPicks>)
    ensures
        picks_fit(picks@, network),
{
    let mut picks: Vec<LayerPicks> = Vec::new();
    let mut k: usize = 0;
    while k < network.layers.len()
        invariant
            k <= network.layers@.len(),
            picks@.len() == k,
            forall|m: int|
                0 <= m < k ==> {
                    &&& (#[trigger] picks@[m]).weights@.len() == network.layers@[m].weights@.len()
                    &&& picks@[m].biases@.len() == network.layers@[m].biases@.len()
                },
        decreases network.layers@.len() - k,
    {
        let weights = draw_picks(network.layers[k].weights.len(), rng);
        let biases = draw_picks(network.layers[k].biases.len(), rng);
        picks.push(LayerPicks { weights, biases });
        k = k + 1;
    }
    picks
}

/// One offset for every weight and bias of `network`, drawn layer by layer,
/// weights before biases.
pub fn draw_network_offsets(
    network: &Network,
    mut_chance: u32,
    coeff: i32,
    rng: &mut StdRng,
) -> (offsets: Vec<LayerOffsets>)
    requires
        mut_chance <= SCALE,
        0 <= coeff,
    ensures
        offsets_fit(offsets@, network),
        forall|k: int, i: int|
            0 <= k < offsets@.len() && 0 <= i < offsets@[k].weights@.len() ==> -coeff
                <= #[trigger] offsets@[k].weights@[i] <= coeff,
        forall|k: int, i: int|
            0 <= k < offsets@.len() && 0 <= i < offsets@[k].biases@.len() ==> -coeff
                <= #[trigger] offsets@[k].biases@[i] <= coeff,
        mut_chance == 0 ==> forall|k: int, i: int|
            0 <= k < offsets@.len() && 0 <= i < offsets@[k].weights@.len()
                ==> #[trigger] offsets@[k].weights@[i] == 0,
        mut_chance == 0 ==> forall|k: int, i: int|
            0 <= k < offsets@.len() && 0 <= i < offsets@[k].biases@.len()
                ==> #[trigger] offsets@[k].biases@[i] == 0,
{
    let mut offsets: Vec<LayerOffsets> = Vec::new();
    let mut k: usize = 0;
    while k < network.layers.len()
        invariant
            mut_chance <= SCALE,
            0 <= coeff,
            k <= network.layers@.len(),
            offsets@.len() == k,
            forall|m: int|
                0 <= m < k ==> {
                    &&& (#[trigger] offsets@[m]).weights@.len()
                        == network.layers@[m].weights@.len()
                    &&& offsets@[m].biases@.len() == network.layers@[m].biases@.len()
                },
            forall|m: int, i: int|
                0 <= m < k && 0 <= i < offsets@[m].weights@.len() ==> -coeff
                    <= #[trigger] offsets@[m].weights@[i] <= coeff,
            forall|m: int, i: int|
                0 <= m < k && 0 <= i < offsets@[m].biases@.len() ==> -coeff
                    <= #[trigger] offsets@[m].biases@[i] <= coeff,
            mut_chance == 0 ==> forall|m: int, i: int|
                0 <= m < k && 0 <= i < offsets@[m].weights@.len()
                    ==> #[trigger] offsets@[m].weights@[i] == 0,
            mut_chance == 0 ==> forall|m: int, i: int|
                0 <= m < k && 0 <= i < offsets@[m].biases@.len()
                    ==> #[trigger] offsets@[m].biases@[i] == 0,
        decreases network.layers@.len() - k,
    {
        let weights = draw_offsets(network.layers[k].weights.len(), mut_chance, coeff, rng);
        let biases = draw_offsets(network.layers[k].biases.len(), mut_chance, coeff, rng);
        offsets.push(LayerOffsets { weights, biases });
        k = k + 1;
    }
    offsets
}

/// Crossover: every weight and every bias of the child is, by a fair choice
/// of its own, that of one of the two parents.
pub fn crossover(first: &Network, second: &Network, rng: &mut StdRng) -> (child: Network)
    requires
        first.wf(),
        second.wf(),
        same_shape(first, second),
    ensures
        child.wf(),
        inherits(&child, first, second),
{
    let picks = draw_network_picks(first, rng);
    let child = crossover_with(first, second, &picks);
    proof {
        lemma_crossover_inherits(&child, first, second, picks@);
    }
    child
}

/// A network whose layers have the sizes of a well-formed network's layers,
/// and vectors of the matching lengths, is well formed.
pub proof fn lemma_shape_keeps_wf(model: &Network, other: &Network)
    requires
        model.wf(),
        other.layers@.len() == model.layers@.len(),
        forall|k: int|
            0 <= k < other.layers@.len() ==> (#[trigger] other.layers@[k]).wf() && same_layer_shape(
                &other.layers@[k],
                &model.layers@[k],
            ),
    ensures
        other.wf(),
{
    assert forall|k: int| 0 <= k < other.layers@.len() - 1 implies #[trigger] joined(
        other.layers@,
        k,
    ) by {
        assert(joined(model.layers@, k));
        assert(other.layers@[k].wf());
        assert(other.layers@[k + 1].wf());
    }
}

/// A crossover takes every weight and bias from one of the parents.
pub proof fn lemma_crossover_inherits(
    child: &Network,
    first: &Network,
    second: &Network,
    picks: Seq<LayerPicks>,
)
    requires
        is_crossover(child, first, second, picks),
    ensures
        inherits(child, first, second),
{
    assert forall|k: int| 0 <= k < child.layers@.len() implies {
        &&& (#[trigger] child.layers@[k]).layer_type == first.layers@[k].layer_type
        &&& same_layer_shape(&child.layers@[k], &first.layers@[k])
        &&& inherited(
            child.layers@[k].weights@,
            first.layers@[k].weights@,
            second.layers@[k].weights@,
        )
        &&& inherited(
            child.layers@[k].biases@,
            first.layers@[k].biases@,
            second.layers@[k].biases@,
        )
    } by {
        let layer = child.layers@[k];
        assert(layer.weights@ == crossed(
            first.layers@[k].weights@,
            second.layers@[k].weights@,
            picks[k].weights@,
        ));
    }
}

/// Where every pick chooses the first parent, the child has the first
/// parent's weights and biases, layer by layer.
pub proof fn lemma_crossover_all_first(
    child: &Network,
    first: &Network,
    second: &Network,
    picks: Seq<LayerPicks>,
)
    requires
        is_crossover(child, first, second, picks),
        picks_fit(picks, first),
        forall|k: int, i: int|
            0 <= k < picks.len() && 0 <= i < picks[k].weights@.len() ==> #[trigger] picks[k].weights@[i],
        forall|k: int, i: int|
            0 <= k < picks.len() && 0 <= i < picks[k].biases@.len() ==> #[trigger] picks[k].biases@[i],
    ensures
        child.layers@.len() == first.layers@.len(),
        forall|k: int|
            0 <= k < child.layers@.len() ==> {
                &&& (#[trigger] child.layers@[k]).layer_type == first.layers@[k].layer_type
                &&& same_layer_shape(&child.layers@[k], &first.layers@[k])
                &&& child.layers@[k].weights@ == first.layers@[k].weights@
                &&& child.layers@[k].biases@ == first.layers@[k].biases@
            },
{
    assert forall|k: int| 0 <= k < child.layers@.len() implies {
        &&& (#[trigger] child.layers@[k]).layer_type == first.layers@[k].layer_type
        &&& same_layer_shape(&child.layers@[k], &first.layers@[k])
        &&& child.layers@[k].weights@ == first.layers@[k].weights@
        &&& child.layers@[k].biases@ == first.layers@[k].biases@
    } by {
        let layer = child.layers@[k];
        let pick = picks[k];
        assert(pick.weights@.len() == first.layers@[k].weights@.len());
        assert forall|i: int| 0 <= i < first.layers@[k].weights@.len() implies crossed(
            first.layers@[k].weights@,
            second.layers@[k].weights@,
            pick.weights@,
        )[i] == first.layers@[k].weights@[i] by {
            assert(picks[k].weights@[i]);
        }
        assert(layer.weights@ =~= first.layers@[k].weights@);
        assert forall|i: int| 0 <= i < first.layers@[k].biases@.len() implies crossed(
            first.layers@[k].biases@,
            second.layers@[k].biases@,
            pick.biases@,
        )[i] == first.layers@[k].biases@[i] by {
            assert(picks[k].biases@[i]);
        }
        assert(layer.biases@ =~= first.layers@[k].biases@);
    }
}

/// Where no offset is greater than `coeff` in absolute value, no weight or
/// bias of the mutant is further than `coeff` from where it was.
pub proof fn lemma_mutation_bounded(
    mutant: &Network,
    network: &Network,
    offsets: Seq<LayerOffsets>,
    coeff: int,
)
    requires
        is_mutation(mutant, network, offsets),
        offsets_fit(offsets, network),
        forall|k: int, i: int|
            0 <= k < offsets.len() && 0 <= i < offsets[k].weights@.len() ==> -coeff
                <= #[trigger] offsets[k].weights@[i] <= coeff,
        forall|k: int, i: int|
            0 <= k < offsets.len() && 0 <= i < offsets[k].biases@.len() ==> -coeff
                <= #[trigger] offsets[k].biases@[i] <= coeff,
    ensures
        stays_within(mutant, network, coeff),
{
    assert forall|k: int| 0 <= k < mutant.layers@.len() implies {
        &&& (#[trigger] mutant.layers@[k]).layer_type == network.layers@[k].layer_type
        &&& same_layer_shape(&mutant.layers@[k], &network.layers@[k])
        &&& within(network.layers@[k].weights@, mutant.layers@[k].weights@, coeff)
        &&& within(network.layers@[k].biases@, mutant.layers@[k].biases@, coeff)
    } by {
        let layer = mutant.layers@[k];
        let offset = offsets[k];
        assert(offset.weights@.len() == network.layers@[k].weights@.len());
        assert forall|i: int| 0 <= i < network.layers@[k].weights@.len() implies -coeff
            <= #[trigger] layer.weights@[i] - network.layers@[k].weights@[i] <= coeff by {
            assert(-coeff <= offsets[k].weights@[i] <= coeff);
        }
        assert forall|i: int| 0 <= i < network.layers@[k].biases@.len() implies -coeff
            <= #[trigger] layer.biases@[i] - network.layers@[k].biases@[i] <= coeff by {
            assert(-coeff <= offsets[k].biases@[i] <= coeff);
        }
    }
}

/// Networks of one topology have the same shape.
pub proof fn lemma_same_topology(a: &Network, b: &Network, topology: Seq<usize>)
    requires
        a.has_topology(topology),
        b.has_topology(topology),
    ensures
        same_shape(a, b),
{
    assert forall|k: int| 0 <= k < a.layers@.len() implies same_layer_shape(
        &#[trigger] a.layers@[k],
        &b.layers@[k],
    ) by {
        assert(a.layers@[k].wf());
        assert(b.layers@[k].wf());
    }
}

/// A well-formed network with the layer sizes of one of a given topology has
/// that topology.
pub proof fn lemma_shape_has_topology(model: &Network, other: &Network, topology: Seq<usize>)
    requires
        model.has_topology(topology),
        other.wf(),
        same_shape(model, other),
    ensures
        other.has_topology(topology),
{
    assert forall|k: int| 0 <= k < other.layers@.len() implies {
        &&& (#[trigger] other.layers@[k]).wf()
        &&& other.layers@[k].input_size == topology[k]
        &&& other.layers@[k].output_size == topology[k + 1]
    } by {
        assert(model.layers@[k].wf());
        assert(same_layer_shape(&model.layers@[k], &other.layers@[k]));
    }
}

/// A mutant has the shape of what it was made from.
pub proof fn lemma_within_same_shape(mutant: &Network, network: &Network, coeff: int)
    requires
        stays_within(mutant, network, coeff),
    ensures
        same_shape(network, mutant),
{
    assert forall|k: int| 0 <= k < network.layers@.len() implies same_layer_shape(
        &#[trigger] network.layers@[k],
        &mutant.layers@[k],
    ) by {
        assert(same_layer_shape(&mutant.layers@[k], &network.layers@[k]));
    }
}

/// A child has the shape of its first parent.
pub proof fn lemma_inherits_same_shape(child: &Network, first: &Network, second: &Network)
    requires
        inherits(child, first, second),
    ensures
        same_shape(first, child),
{
    assert forall|k: int| 0 <= k < first.layers@.len() implies same_layer_shape(
        &#[trigger] first.layers@[k],
        &child.layers@[k],
    ) by {
        assert(same_layer_shape(&child.layers@[k], &first.layers@[k]));
    }
}

} // verus!
