//! Pipelines of layers, and the builder that assembles them.
use vstd::prelude::*;
use crate::activation::ActivationType;
use crate::error::NeuralError;
use crate::fixed::{raws, Fixed};
use crate::layer::{
    all_within, all_zero, has_shape, lemma_transform_width, AnyLayer, DenseLayer, InputLayer,
    Layer, LayerType, OutputLayer, WEIGHT_BOUND,
};

verus! {

/// Each layer but the last gives vectors of the length that the next takes.
pub open spec fn chained(layers: Seq<AnyLayer>) -> bool {
    forall|i: int|
        0 <= i < layers.len() - 1 ==> (#[trigger] layers[i]).output_width() == layers[i
            + 1].input_width()
}

/// The result of sending `x` through the layers in order: the output of the
/// last layer, or the refusal of the first layer that `x`, or what became of
/// it, does not fit.
pub open spec fn run(layers: Seq<AnyLayer>, x: Seq<int>) -> Result<Seq<int>, NeuralError>
    decreases layers.len(),
{
    if layers.len() == 0 {
        Ok(x)
    } else if x.len() != layers[0].input_width() {
        Err(
            NeuralError::ShapeMismatch {
                expected: layers[0].input_width() as usize,
                found: x.len() as usize,
            },
        )
    } else {
        run(layers.skip(1), layers[0].transform(x))
    }
}

/// The layer is a dense or an output layer (as `output` says) that takes
/// `input_size` entries and gives `output_size`, with the given activation,
/// weights from -0.5 (included) to 0.5 (excluded) and biases 0.
pub open spec fn fresh_affine_layer(
    layer: AnyLayer,
    output: bool,
    input_size: nat,
    output_size: usize,
    activation: ActivationType,
) -> bool {
    match layer {
        AnyLayer::Dense(l) => {
            &&& !output
            &&& l.activation == activation
            &&& l.affine.input_width() == input_size
            &&& fresh_weights(l.affine.weight_matrix(), input_size, output_size as nat)
            &&& fresh_biases(l.affine.bias_vector(), output_size as nat)
        },
        AnyLayer::Output(l) => {
            &&& output
            &&& l.activation == activation
            &&& l.affine.input_width() == input_size
            &&& fresh_weights(l.affine.weight_matrix(), input_size, output_size as nat)
            &&& fresh_biases(l.affine.bias_vector(), output_size as nat)
        },
        AnyLayer::Input(_) => false,
    }
}

/// The matrix has `output_size` rows of `input_size` weights, each from -0.5
/// (included) to 0.5 (excluded).
pub open spec fn fresh_weights(m: Seq<Seq<int>>, input_size: nat, output_size: nat) -> bool {
    has_shape(m, output_size, input_size) && all_within(m, -WEIGHT_BOUND, WEIGHT_BOUND as int)
}

/// The vector has `output_size` entries, all 0.
pub open spec fn fresh_biases(v: Seq<int>, output_size: nat) -> bool {
    v.len() == output_size && all_zero(v)
}

/// Collects layers in order. Each dense or output layer takes vectors of the
/// length that the layer before it gives.
#[derive(Debug)]
pub struct SequentialBuilder {
    layers: Vec<AnyLayer>,
}

/// An ordered pipeline of layers.
#[derive(Debug)]
pub struct Sequential {
    layers: Vec<AnyLayer>,
}

impl SequentialBuilder {
    /// The layers collected so far, in order.
    pub closed spec fn layers(&self) -> Seq<AnyLayer> {
        self.layers@
    }

    /// A builder without layers.
    pub fn new() -> (b: Self)
        ensures
            b.layers().len() == 0,
    {
        SequentialBuilder { layers: Vec::new() }
    }

    /// The number of layers collected so far.
    pub fn len(&self) -> (n: usize)
        ensures
            n == self.layers().len(),
    {
        self.layers.len()
    }

    /// Appends the given layer, whatever it takes and gives.
    pub fn add_layer(self, layer: AnyLayer) -> (b: Self)
        ensures
            b.layers() == self.layers().push(layer),
            chained(self.layers()) && (self.layers().len() > 0
                ==> self.layers().last().output_width() == layer.input_width()) ==> chained(
                b.layers(),
            ),
    {
        let mut layers = self.layers;
        layers.push(layer);
        SequentialBuilder { layers }
    }

    /// Appends a dense layer of `neurons` entries with fresh weights. It
    /// takes vectors of the length that the layer before it gives, so there
    /// must be a layer before it.
    pub fn add_dense(self, neurons: usize, activation: ActivationType) -> (b: Self)
        requires
            self.layers().len() > 0,
        ensures
            b.layers().len() == self.layers().len() + 1,
            b.layers().drop_last() == self.layers(),
            fresh_affine_layer(
                b.layers().last(),
                false,
                self.layers().last().output_width(),
                neurons,
                activation,
            ),
            chained(self.layers()) ==> chained(b.layers()),
    {
        let width: usize = self.layers[self.layers.len() - 1].output_size();
        let layer = DenseLayer::new(width, neurons, activation);
        let b = self.add_layer(AnyLayer::Dense(layer));
        assert(b.layers().drop_last() =~= self.layers());
        b
    }

    /// Appends an input layer of `size` entries.
    pub fn add_input(self, size: usize, activation: ActivationType) -> (b: Self)
        ensures
            b.layers() == self.layers().push(AnyLayer::Input(InputLayer { size, activation })),
            chained(self.layers()) && (self.layers().len() > 0
                ==> self.layers().last().output_width() == size) ==> chained(b.layers()),
    {
        self.add_layer(AnyLayer::Input(InputLayer::new(size, size, activation)))
    }

    /// Appends an output layer of `size` entries with fresh weights. It
    /// takes vectors of the length that the layer before it gives, so there
    /// must be a layer before it.
    pub fn add_output(self, size: usize, activation: ActivationType) -> (b: Self)
        requires
            self.layers().len() > 0,
        ensures
            b.layers().len() == self.layers().len() + 1,
            b.layers().drop_last() == self.layers(),
            fresh_affine_layer(
                b.layers().last(),
                true,
                self.layers().last().output_width(),
                size,
                activation,
            ),
            chained(self.layers()) ==> chained(b.layers()),
    {
        let width: usize = self.layers[self.layers.len() - 1].output_size();
        let layer = OutputLayer::new(width, size, activation);
        let b = self.add_layer(AnyLayer::Output(layer));
        assert(b.layers().drop_last() =~= self.layers());
        b
    }

    /// Appends the layer that `layer_type` describes. A dense or an output
    /// layer needs a layer before it.
    pub fn add(self, layer_type: LayerType) -> (b: Self)
        requires
            layer_type is Input || self.layers().len() > 0,
        ensures
            b.layers().len() == self.layers().len() + 1,
            b.layers().drop_last() == self.layers(),
            match layer_type {
                LayerType::Input(size, activation) => b.layers().last() == AnyLayer::Input(
                    InputLayer { size, activation },
                ),
                LayerType::Dense(neurons, activation) => fresh_affine_layer(
                    b.layers().last(),
                    false,
                    self.layers().last().output_width(),
                    neurons,
                    activation,
                ),
                LayerType::Output(size, activation) => fresh_affine_layer(
                    b.layers().last(),
                    true,
                    self.layers().last().output_width(),
                    size,
                    activation,
                ),
            },
            chained(self.layers()) && (self.layers().len() > 0
                ==> self.layers().last().output_width() == b.layers().last().input_width())
                ==> chained(b.layers()),
    {
        match layer_type {
            LayerType::Dense(neurons, activation) => self.add_dense(neurons, activation),
            LayerType::Input(size, activation) => {
                let b = self.add_input(size, activation);
                assert(b.layers().drop_last() =~= self.layers());
                b
            },
            LayerType::Output(size, activation) => self.add_output(size, activation),
        }
    }

    /// The pipeline of the layers collected, in their order.
    pub fn build(self) -> (s: Sequential)
        ensures
            s.layers() == self.layers(),
    {
        Sequential { layers: self.layers }
    }
}

impl Sequential {
    /// The layers of the pipeline, in order.
    pub closed spec fn layers(&self) -> Seq<AnyLayer> {
        self.layers@
    }

    /// The number of layers.
    pub fn len(&self) -> (n: usize)
        ensures
            n == self.layers().len(),
    {
        self.layers.len()
    }

    /// The descriptions of the layers, in order.
    pub fn layer_types(&self) -> (types: Vec<LayerType>)
        ensures
            types@.len() == self.layers().len(),
            forall|i: int| 0 <= i < types@.len() ==> types@[i] == self.layers()[i].layer_type(),
    {
        let mut types: Vec<LayerType> = Vec::new();
        let mut i: usize = 0;
        while i < self.layers.len()
            invariant
                0 <= i <= self.layers@.len(),
                types@.len() == i,
                forall|t: int| 0 <= t < i ==> types@[t] == self.layers@[t].layer_type(),
            decreases self.layers@.len() - i,
        {
            types.push(self.layers[i].get_type());
            i = i + 1;
        }
        types
    }

    /// Sends `input` through every layer in order and returns what the last
    /// layer gives. A layer that is handed a vector of another length than
    /// it takes refuses it, and the refusal is returned.
    pub fn forward(&self, input: Vec<Fixed>) -> (r: Result<Vec<Fixed>, NeuralError>)
        ensures
            match r {
                Ok(y) => run(self.layers(), raws(input@)) == Ok::<Seq<int>, NeuralError>(raws(y@)),
                Err(e) => run(self.layers(), raws(input@)) == Err::<Seq<int>, NeuralError>(e),
            },
    {
        let mut current: Vec<Fixed> = input;
        let mut i: usize = 0;
        assert(self.layers@.skip(0) =~= self.layers@);
        while i < self.layers.len()
            invariant
                0 <= i <= self.layers@.len(),
                run(self.layers@, raws(input@)) == run(self.layers@.skip(i as int), raws(current@)),
            decreases self.layers@.len() - i,
        {
            proof {
                assert(self.layers@.skip(i as int)[0] == self.layers@[i as int]);
                assert(self.layers@.skip(i as int).skip(1) =~= self.layers@.skip(i + 1));
            }
            match self.layers[i].forward(current.as_slice()) {
                Ok(next) => {
                    current = next;
                },
                Err(e) => {
                    return Err(e);
                },
            }
            i = i + 1;
        }
        Ok(current)
    }
}

/// A chained pipeline accepts every input of the length that its first layer
/// takes, and gives a vector of the length that its last layer gives.
pub proof fn lemma_chained_run(layers: Seq<AnyLayer>, x: Seq<int>)
    requires
        chained(layers),
        layers.len() > 0,
        x.len() == layers[0].input_width(),
    ensures
        run(layers, x) is Ok,
        run(layers, x).unwrap().len() == layers.last().output_width(),
    decreases layers.len(),
{
    lemma_transform_width(layers[0], x);
    let rest = layers.skip(1);
    if rest.len() > 0 {
        assert(rest[0] == layers[1]);
        assert forall|i: int| 0 <= i < rest.len() - 1 implies (#[trigger] rest[i]).output_width()
            == rest[i + 1].input_width() by {
            assert(rest[i] == layers[i + 1]);
            assert(rest[i + 1] == layers[i + 2]);
        }
        lemma_chained_run(rest, layers[0].transform(x));
        assert(rest.last() == layers.last());
    }
}

/// An input that the first layer does not take is refused by the pipeline,
/// whatever follows.
pub proof fn lemma_run_refuses(layers: Seq<AnyLayer>, x: Seq<int>)
    requires
        layers.len() > 0,
        x.len() != layers[0].input_width(),
    ensures
        run(layers, x) == Err::<Seq<int>, NeuralError>(
            NeuralError::ShapeMismatch {
                expected: layers[0].input_width() as usize,
                found: x.len() as usize,
            },
        ),
{
}

} // verus!
