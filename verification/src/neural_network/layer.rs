use rand::rngs::StdRng;
use vstd::prelude::*;

use crate::fixed::{clamp_i32, floor_div, mul_i32, saturate_i32, SCALE};
use crate::rng::uniform_between;

verus! {

/// Where a layer stands in its network. The tag changes nothing in what the
/// layer computes.
#[derive(Copy, Clone, Debug, PartialEq, Eq, Structural)]
pub enum LayerType {
    Input,
    Calc,
    Output,
}

/// One dense layer: a weight for every pair of input and output, and a bias
/// for every output. The weight from input `i` to output `j` is stored at
/// `i * output_size + j`.
#[derive(Clone, Debug)]
pub struct Layer {
    pub layer_type: LayerType,
    pub input_size: usize,
    pub output_size: usize,
    pub weights: Vec<i32>,
    pub biases: Vec<i32>,
}

/// Zero for a negative value, the value itself otherwise.
pub open spec fn relu(x: int) -> int {
    if x < 0 {
        0
    } else {
        x
    }
}

/// The place of the weight from input `i` to output `j` lies inside the
/// weight vector.
pub proof fn lemma_weight_index(i: int, j: int, input_size: int, output_size: int)
    requires
        0 <= i < input_size,
        0 <= j < output_size,
    ensures
        0 <= i * output_size + j < input_size * output_size,
{
    assert(i * output_size + j < input_size * output_size) by (nonlinear_arith)
        requires
            0 <= i < input_size,
            0 <= j < output_size,
    ;
    assert(0 <= i * output_size) by (nonlinear_arith)
        requires
            0 <= i,
            0 <= output_size,
    ;
}

impl Layer {
    /// The vectors have the lengths that the two sizes ask for.
    pub open spec fn wf(&self) -> bool {
        &&& self.weights@.len() == self.input_size * self.output_size
        &&& self.biases@.len() == self.output_size
    }

    /// The weight from input `i` to output `j`.
    pub open spec fn weight(&self, i: int, j: int) -> int {
        self.weights@[i * self.output_size + j] as int
    }

    /// The first `n` inputs, each times its weight toward output `j`, summed.
    pub open spec fn weighted_sum(&self, inputs: Seq<i32>, j: int, n: int) -> int
        decreases n,
    {
        if n <= 0 {
            0
        } else {
            self.weighted_sum(inputs, j, n - 1) + inputs[n - 1] * self.weight(n - 1, j)
        }
    }

    /// Output `j`: the weighted sum of all inputs, brought back to the
    /// fixed-point unit, plus the bias; negative values become zero and the
    /// result saturates at the largest 32-bit value.
    pub open spec fn neuron(&self, inputs: Seq<i32>, j: int) -> int {
        clamp_i32(
            relu(
                self.weighted_sum(inputs, j, self.input_size as int) / (SCALE as int)
                    + self.biases@[j],
            ),
        )
    }

    /// What the layer makes of `inputs`.
    pub open spec fn outputs(&self, inputs: Seq<i32>) -> Seq<i32> {
        Seq::new(self.output_size as nat, |j: int| self.neuron(inputs, j) as i32)
    }

    /// Whether the vectors have the lengths that the two sizes ask for.
    pub fn is_wf(&self) -> (ok: bool)
        ensures
            ok == self.wf(),
    {
        let held: usize = self.weights.len();
        match self.input_size.checked_mul(self.output_size) {
            Some(count) => held == count && self.biases.len() == self.output_size,
            None => false,
        }
    }

    pub fn new(
        layer_type: LayerType,
        input_size: usize,
        output_size: usize,
        weights: Vec<i32>,
        biases: Vec<i32>,
    ) -> (layer: Self)
        requires
            weights@.len() == input_size * output_size,
            biases@.len() == output_size,
        ensures
            layer.wf(),
            layer.layer_type == layer_type,
            layer.input_size == input_size,
            layer.output_size == output_size,
            layer.weights@ == weights@,
            layer.biases@ == biases@,
    {
        Self { layer_type, input_size, output_size, weights, biases }
    }

    /// A layer whose weights and biases are drawn evenly from `[-1, 1]`.
    pub fn random(
        layer_type: LayerType,
        input_size: usize,
        output_size: usize,
        rng: &mut StdRng,
    ) -> (layer: Self)
        requires
            input_size * output_size <= usize::MAX,
        ensures
            layer.wf(),
            layer.layer_type == layer_type,
            layer.input_size == input_size,
            layer.output_size == output_size,
            forall|k: int|
                0 <= k < layer.weights@.len() ==> -SCALE <= #[trigger] layer.weights@[k] <= SCALE,
            forall|k: int|
                0 <= k < layer.biases@.len() ==> -SCALE <= #[trigger] layer.biases@[k] <= SCALE,
    {
        let count: usize = input_size * output_size;
        let weights = draw_unit_values(count, rng);
        let biases = draw_unit_values(output_size, rng);
        Self { layer_type, input_size, output_size, weights, biases }
    }

    /// Applies the layer: every output is `relu(inputs · weights + bias)`.
    pub fn forward(&self, inputs: Vec<i32>) -> (out: Vec<i32>)
        requires
            self.wf(),
            inputs@.len() == self.input_size,
        ensures
            out@ == self.outputs(inputs@),
    {
        let mut out: Vec<i32> = Vec::new();
        let mut j: usize = 0;
        let total: usize = self.weights.len();
        while j < self.output_size
            invariant
                self.wf(),
                total == self.input_size * self.output_size,
                inputs@.len() == self.input_size,
                j <= self.output_size,
                out@.len() == j,
                forall|k: int| 0 <= k < j ==> out@[k] == self.neuron(inputs@, k),
            decreases self.output_size - j,
        {
            let mut sum: i128 = 0;
            let mut i: usize = 0;
            while i < self.input_size
                invariant
                    self.wf(),
                    total == self.input_size * self.output_size,
                    inputs@.len() == self.input_size,
                    j < self.output_size,
                    i <= self.input_size,
                    sum == self.weighted_sum(inputs@, j as int, i as int),
                    -(i as int) * 0x4000_0000_0000_0000 <= sum <= (i as int)
                        * 0x4000_0000_0000_0000,
                decreases self.input_size - i,
            {
                proof {
                    lemma_weight_index(
                        i as int,
                        j as int,
                        self.input_size as int,
                        self.output_size as int,
                    );
                    assert((i as int) * 0x4000_0000_0000_0000 + 0x4000_0000_0000_0000
                        <= 0x1_0000_0000_0000_0000 * 0x4000_0000_0000_0000) by (nonlinear_arith)
                        requires
                            0 <= i as int,
                            (i as int) < 0x1_0000_0000_0000_0000,
                    ;
                    assert(0 <= i * self.output_size) by (nonlinear_arith)
                        requires
                            0 <= i,
                            0 <= self.output_size,
                    ;
                }
                let product: i64 = mul_i32(inputs[i], self.weights[i * self.output_size + j]);
                assert(-(i as int) * 0x4000_0000_0000_0000 - 0x4000_0000_0000_0000 == -((i + 1)
                    as int) * 0x4000_0000_0000_0000) by (nonlinear_arith);
                assert((i as int) * 0x4000_0000_0000_0000 + 0x4000_0000_0000_0000 == ((i + 1)
                    as int) * 0x4000_0000_0000_0000) by (nonlinear_arith);
                sum = sum + product as i128;
                i = i + 1;
            }
            proof {
                assert((i as int) * 0x4000_0000_0000_0000 <= 0x1_0000_0000_0000_0000
                    * 0x4000_0000_0000_0000) by (nonlinear_arith)
                    requires
                        0 <= i as int,
                        (i as int) < 0x1_0000_0000_0000_0000,
                ;
            }
            let scaled: i128 = floor_div(sum, SCALE as i128);
            let biased: i128 = scaled + self.biases[j] as i128;
            let value: i32 = if biased < 0 {
                0
            } else {
                saturate_i32(biased)
            };
            out.push(value);
            j = j + 1;
        }
        assert(out@ =~= self.outputs(inputs@));
        out
    }
}

/// `count` values drawn evenly from `[-1, 1]`.
pub fn draw_unit_values(count: usize, rng: &mut StdRng) -> (values: Vec<i32>)
    ensures
        values@.len() == count,
        forall|k: int| 0 <= k < values@.len() ==> -SCALE <= #[trigger] values@[k] <= SCALE,
{
    let mut values: Vec<i32> = Vec::new();
    let mut k: usize = 0;
    while k < count
        invariant
            k <= count,
            values@.len() == k,
            forall|m: int| 0 <= m < values@.len() ==> -SCALE <= #[trigger] values@[m] <= SCALE,
        decreases count - k,
    {
        let value: i32 = uniform_between(rng, -SCALE, SCALE) as i32;
        values.push(value);
        k = k + 1;
    }
    values
}

} // verus!
