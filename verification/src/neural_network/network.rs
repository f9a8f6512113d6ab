use rand::rngs::StdRng;
use vstd::prelude::*;

use crate::fixed::SCALE;
use crate::neural_network::layer::{Layer, LayerType};

verus! {

/// Layers applied one after the other.
#[derive(Clone, Debug)]
pub struct Network {
    pub layers: Vec<Layer>,
}

/// What the first `n` of `layers`, applied in turn, make of `inputs`.
pub open spec fn outputs_through(layers: Seq<Layer>, inputs: Seq<i32>, n: int) -> Seq<i32>
    decreases n,
{
    if n <= 0 {
        inputs
    } else {
        layers[n - 1].outputs(outputs_through(layers, inputs, n - 1))
    }
}

/// `layers` go from `topology[0]` inputs through the widths that follow:
/// layer `k` takes `topology[k]` values and gives `topology[k + 1]`.
pub open spec fn layers_follow(layers: Seq<Layer>, topology: Seq<usize>) -> bool {
    &&& layers.len() + 1 == topology.len()
    &&& forall|k: int|
        0 <= k < layers.len() ==> {
            &&& (#[trigger] layers[k]).wf()
            &&& layers[k].input_size == topology[k]
            &&& layers[k].output_size == topology[k + 1]
        }
}

/// Every weight and bias of the layer lies in `[-1, 1]`.
pub open spec fn within_unit(layer: &Layer) -> bool {
    &&& forall|i: int|
        0 <= i < layer.weights@.len() ==> -SCALE <= #[trigger] layer.weights@[i] <= SCALE
    &&& forall|i: int|
        0 <= i < layer.biases@.len() ==> -SCALE <= #[trigger] layer.biases@[i] <= SCALE
}

/// Layer `k + 1` takes as many values as layer `k` gives.
pub open spec fn joined(layers: Seq<Layer>, k: int) -> bool {
    layers[k].output_size == layers[k + 1].input_size
}

impl Network {
    /// Every layer is well formed and takes as many values as the one before
    /// it gives.
    pub open spec fn wf(&self) -> bool {
        &&& forall|k: int| 0 <= k < self.layers@.len() ==> (#[trigger] self.layers@[k]).wf()
        &&& forall|k: int| 0 <= k < self.layers@.len() - 1 ==> #[trigger] joined(self.layers@, k)
    }

    /// How many values the network takes; for a network without layers, any
    /// number.
    pub open spec fn accepts(&self, len: nat) -> bool {
        self.layers@.len() > 0 ==> self.layers@[0].input_size == len
    }

    /// The network's shape is `topology`.
    pub open spec fn has_topology(&self, topology: Seq<usize>) -> bool {
        layers_follow(self.layers@, topology)
    }

    /// What the network makes of `inputs`.
    pub open spec fn outputs(&self, inputs: Seq<i32>) -> Seq<i32> {
        outputs_through(self.layers@, inputs, self.layers@.len() as int)
    }

    /// Whether the network is well formed and of the given shape.
    pub fn has_shape(&self, topology: &[usize]) -> (ok: bool)
        ensures
            ok == (self.wf() && self.has_topology(topology@)),
    {
        if topology.len() == 0 || self.layers.len() != topology.len() - 1 {
            return false;
        }
        let mut k: usize = 0;
        while k < self.layers.len()
            invariant
                self.layers@.len() + 1 == topology@.len(),
                k <= self.layers@.len(),
                forall|m: int|
                    0 <= m < k ==> {
                        &&& (#[trigger] self.layers@[m]).wf()
                        &&& self.layers@[m].input_size == topology@[m]
                        &&& self.layers@[m].output_size == topology@[m + 1]
                    },
            decreases self.layers@.len() - k,
        {
            if !(self.layers[k].is_wf() && self.layers[k].input_size == topology[k]
                && self.layers[k].output_size == topology[k + 1]) {
                return false;
            }
            k = k + 1;
        }
        proof {
            assert forall|m: int| 0 <= m < self.layers@.len() - 1 implies #[trigger] joined(
                self.layers@,
                m,
            ) by {
                assert(self.layers@[m].wf());
                assert(self.layers@[m + 1].wf());
            }
        }
        true
    }

    pub fn new(layers: Vec<Layer>) -> (network: Self)
        ensures
            network.layers@ == layers@,
    {
        Self { layers }
    }

    /// A network of the given shape with weights and biases drawn evenly from
    /// `[-1, 1]`. The first layer is tagged as input and the last as output;
    /// where one layer is both, it is tagged as output.
    pub fn random(topology: &[usize], rng: &mut StdRng) -> (network: Self)
        requires
            topology@.len() >= 2,
            forall|k: int|
                0 <= k < topology@.len() - 1 ==> #[trigger] topology@[k] * topology@[k + 1]
                    <= usize::MAX,
        ensures
            network.wf(),
            network.has_topology(topology@),
            forall|k: int|
                0 <= k < network.layers@.len() ==> within_unit(&#[trigger] network.layers@[k]),
            forall|k: int|
                0 <= k < network.layers@.len() ==> (#[trigger] network.layers@[k]).layer_type == (
                if k == network.layers@.len() - 1 {
                    LayerType::Output
                } else if k == 0 {
                    LayerType::Input
                } else {
                    LayerType::Calc
                }),
    {
        let count: usize = topology.len() - 1;
        let mut layers: Vec<Layer> = Vec::new();
        let mut k: usize = 0;
        while k < count
            invariant
                count + 1 == topology@.len(),
                k <= count,
                layers@.len() == k,
                forall|m: int|
                    0 <= m < topology@.len() - 1 ==> #[trigger] topology@[m] * topology@[m + 1]
                        <= usize::MAX,
                forall|m: int|
                    0 <= m < k ==> {
                        &&& (#[trigger] layers@[m]).wf()
                        &&& layers@[m].input_size == topology@[m]
                        &&& layers@[m].output_size == topology@[m + 1]
                        &&& layers@[m].layer_type == (if m == count - 1 {
                            LayerType::Output
                        } else if m == 0 {
                            LayerType::Input
                        } else {
                            LayerType::Calc
                        })
                        &&& within_unit(&layers@[m])
                    },
            decreases count - k,
        {
            let layer_type = if k == count - 1 {
                LayerType::Output
            } else if k == 0 {
                LayerType::Input
            } else {
                LayerType::Calc
            };
            assert(topology@[k as int] * topology@[k + 1] <= usize::MAX);
            let layer = Layer::random(layer_type, topology[k], topology[k + 1], rng);
            layers.push(layer);
            k = k + 1;
        }
        let network = Self { layers };
        assert forall|m: int| 0 <= m < network.layers@.len() - 1 implies #[trigger] joined(
            network.layers@,
            m,
        ) by {
            assert(network.layers@[m].wf());
            assert(network.layers@[m + 1].wf());
        }
        network
    }

    /// Applies every layer in turn.
    pub fn forward(&self, inputs: Vec<i32>) -> (out: Vec<i32>)
        requires
            self.wf(),
            self.accepts(inputs@.len()),
        ensures
            out@ == self.outputs(inputs@),
    {
        let ghost given = inputs@;
        let mut current = inputs;
        let mut k: usize = 0;
        while k < self.layers.len()
            invariant
                self.wf(),
                k <= self.layers@.len(),
                current@ == outputs_through(self.layers@, given, k as int),
                k < self.layers@.len() ==> current@.len() == self.layers@[k as int].input_size,
            decreases self.layers@.len() - k,
        {
            assert(self.layers@[k as int].wf());
            assert(k + 1 < self.layers@.len() ==> joined(self.layers@, k as int));
            current = self.layers[k].forward(current);
            k = k + 1;
        }
        current
    }
}

} // verus!
