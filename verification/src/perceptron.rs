//! A single-neuron binary classifier with the online perceptron rule.
use vstd::prelude::*;
use crate::fixed::{dot_prefix, floor_div_rem, inner_product, raws, saturate, Fixed, ONE};

verus! {

/// The smaller of two lengths.
pub open spec fn shorter(a: nat, b: nat) -> int {
    if a <= b {
        a as int
    } else {
        b as int
    }
}

/// The weighted sum of the inputs plus the bias, in units of
/// `1 / (ONE * ONE)`. Where weights and inputs differ in length, the
/// entries without a partner are left out.
pub open spec fn weighted_sum(weights: Seq<int>, bias: int, inputs: Seq<int>) -> int {
    dot_prefix(weights, inputs, shorter(weights.len(), inputs.len())) + bias * ONE
}

/// The class predicted: 1 where the weighted sum is 0 or more, else 0.
pub open spec fn predicted(weights: Seq<int>, bias: int, inputs: Seq<int>) -> int {
    if weighted_sum(weights, bias, inputs) >= 0 {
        1
    } else {
        0
    }
}

/// The weights after one update with the given error: each weight with a
/// partner among the inputs moves by `rate * error * input`, rounded down
/// and saturated; the others stay.
pub open spec fn updated_weights(weights: Seq<int>, inputs: Seq<int>, rate: int, error: int) -> Seq<
    int,
> {
    Seq::new(
        weights.len(),
        |i: int|
            if i < inputs.len() {
                saturate(weights[i] + (rate * error * inputs[i]) / (ONE as int))
            } else {
                weights[i]
            },
    )
}

/// A perceptron: one weight per input, a bias and a learning rate.
#[derive(Debug)]
pub struct Perceptron {
    weights: Vec<Fixed>,
    bias: Fixed,
    learning_rate: Fixed,
}

impl Perceptron {
    /// The weights as raw values.
    pub closed spec fn weight_values(&self) -> Seq<int> {
        raws(self.weights@)
    }

    /// The bias as a raw value.
    pub closed spec fn bias_value(&self) -> int {
        self.bias.raw as int
    }

    /// The learning rate as a raw value.
    pub closed spec fn rate(&self) -> int {
        self.learning_rate.raw as int
    }

    /// A perceptron for `input_size` inputs, with all weights and the bias 0.
    pub fn new(input_size: usize, learning_rate: Fixed) -> (p: Self)
        ensures
            p.weight_values() == Seq::new(input_size as nat, |i: int| 0int),
            p.bias_value() == 0,
            p.rate() == learning_rate.raw,
    {
        let mut weights: Vec<Fixed> = Vec::new();
        let mut i: usize = 0;
        while i < input_size
            invariant
                0 <= i <= input_size,
                weights@.len() == i,
                forall|t: int| 0 <= t < i ==> (#[trigger] weights@[t]).raw == 0,
            decreases input_size - i,
        {
            weights.push(Fixed { raw: 0 });
            i = i + 1;
        }
        let p = Perceptron { weights, bias: Fixed { raw: 0 }, learning_rate };
        assert(p.weight_values() =~= Seq::new(input_size as nat, |i: int| 0int));
        p
    }

    /// The weights.
    pub fn weights(&self) -> (w: &Vec<Fixed>)
        ensures
            raws(w@) == self.weight_values(),
    {
        &self.weights
    }

    /// The bias.
    pub fn bias(&self) -> (b: Fixed)
        ensures
            b.raw == self.bias_value(),
    {
        self.bias
    }

    /// The class of `inputs`: 1 where the weighted sum of the inputs plus
    /// the bias is 0 or more, else 0.
    pub fn predict(&self, inputs: &[Fixed]) -> (class: i32)
        ensures
            class == predicted(self.weight_values(), self.bias_value(), raws(inputs@)),
    {
        let n: usize = if self.weights.len() <= inputs.len() {
            self.weights.len()
        } else {
            inputs.len()
        };
        let s: i128 = inner_product(self.weights.as_slice(), inputs, n);
        let total: i128 = s + self.bias.raw as i128 * ONE as i128;
        if total >= 0 {
            1
        } else {
            0
        }
    }

    /// One step of learning: with `error = target - predict(inputs)`, each
    /// weight moves by `learning_rate * error * input` and the bias by
    /// `learning_rate * error`.
    pub fn train(&mut self, inputs: &[Fixed], target: i32)
        requires
            target == 0 || target == 1,
        ensures
            ({
                let error = target - predicted(
                    old(self).weight_values(),
                    old(self).bias_value(),
                    raws(inputs@),
                );
                &&& final(self).weight_values() == updated_weights(
                    old(self).weight_values(),
                    raws(inputs@),
                    old(self).rate(),
                    error,
                )
                &&& final(self).bias_value() == saturate(
                    old(self).bias_value() + old(self).rate() * error,
                )
                &&& final(self).rate() == old(self).rate()
            }),
    {
        let prediction: i32 = self.predict(inputs);
        let error: i128 = (target - prediction) as i128;
        let rate: i128 = self.learning_rate.raw as i128;
        assert(-0x8000_0000 <= rate * error <= 0x8000_0000) by (nonlinear_arith)
            requires
                -0x8000_0000 <= rate <= 0x7fff_ffff,
                -1 <= error <= 1,
        ;
        let step: i128 = rate * error;
        let ghost before = self.weight_values();
        let n: usize = if self.weights.len() <= inputs.len() {
            self.weights.len()
        } else {
            inputs.len()
        };
        let mut i: usize = 0;
        while i < n
            invariant
                0 <= i <= n,
                n <= inputs@.len(),
                n == shorter(before.len(), inputs@.len()),
                self.weights@.len() == before.len(),
                self.bias == old(self).bias,
                self.learning_rate == old(self).learning_rate,
                step == old(self).rate() * error,
                -0x8000_0000 <= step <= 0x8000_0000,
                -1 <= error <= 1,
                forall|t: int|
                    0 <= t < i ==> (#[trigger] self.weights@[t]).raw == saturate(
                        before[t] + (step * inputs@[t].raw) / (ONE as int),
                    ),
                forall|t: int| i <= t < before.len() ==> (#[trigger] self.weights@[t]).raw == before[t],
            decreases n - i,
        {
            let x: i128 = inputs[i].raw as i128;
            assert(-0x4000_0000_0000_0000 <= step * x <= 0x4000_0000_0000_0000) by (nonlinear_arith)
                requires
                    -0x8000_0000 <= step <= 0x8000_0000,
                    -0x8000_0000 <= x <= 0x7fff_ffff,
            ;
            let (d, _m) = floor_div_rem(step * x, ONE as i128);
            proof {
                vstd::arithmetic::div_mod::lemma_fundamental_div_mod(step * x, ONE as int);
                vstd::arithmetic::div_mod::lemma_mod_bound(step * x, ONE as int);
            }
            let w: Fixed = Fixed::saturating(self.weights[i].raw as i128 + d);
            self.weights.set(i, w);
            i = i + 1;
        }
        self.bias = Fixed::saturating(self.bias.raw as i128 + step);
        assert(self.weight_values() =~= updated_weights(
            before,
            raws(inputs@),
            old(self).rate(),
            error as int,
        ));
    }
}

} // verus!
