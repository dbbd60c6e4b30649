//! Layers: an optional affine map followed by an activation.
use vstd::prelude::*;
use crate::activation::{lemma_activation_keeps_length, Activation, ActivationType};
use crate::error::NeuralError;
use crate::fixed::{dot_prefix, floor_div_rem, inner_product, raws, saturate, Fixed, ONE};
use crate::random::random_in;

verus! {

/// Fresh weights are drawn from `-WEIGHT_BOUND` (included) to `WEIGHT_BOUND`
/// (excluded): from -0.5 to 0.5.
pub const WEIGHT_BOUND: i32 = 5_000_000;

/// Describes a layer: its variant, its output width and its activation.
#[derive(Debug, Clone, Copy, PartialEq, Eq, Structural)]
pub enum LayerType {
    Input(usize, ActivationType),
    Output(usize, ActivationType),
    Dense(usize, ActivationType),
}

/// The inner product of a row of weights with an input of the same length,
/// in units of `1 / (ONE * ONE)`.
pub open spec fn dot(w: Seq<int>, x: Seq<int>) -> int {
    dot_prefix(w, x, w.len() as int)
}

/// The affine map `weights * x + biases`: entry `i` is the inner product of
/// row `i` with `x`, rounded down to raw units, plus bias `i`, saturated.
pub open spec fn affine(weights: Seq<Seq<int>>, biases: Seq<int>, x: Seq<int>) -> Seq<int> {
    Seq::new(biases.len(), |i: int| saturate(dot(weights[i], x) / (ONE as int) + biases[i]))
}

/// The raw values of the rows of a matrix.
pub open spec fn matrix_raws(m: Seq<Vec<Fixed>>) -> Seq<Seq<int>> {
    Seq::new(m.len(), |i: int| raws(m[i]@))
}

/// Every entry of the matrix is at least `low` and below `high`.
pub open spec fn all_within(m: Seq<Seq<int>>, low: int, high: int) -> bool {
    forall|i: int, j: int| 0 <= i < m.len() && 0 <= j < m[i].len() ==> low <= #[trigger] m[i][j] < high
}

/// Every entry of the vector is 0.
pub open spec fn all_zero(v: Seq<int>) -> bool {
    forall|i: int| 0 <= i < v.len() ==> v[i] == 0
}

/// The matrix has `rows` rows of `cols` entries each.
pub open spec fn has_shape(m: Seq<Seq<int>>, rows: nat, cols: nat) -> bool {
    &&& m.len() == rows
    &&& forall|i: int| 0 <= i < m.len() ==> (#[trigger] m[i]).len() == cols
}

/// A weight matrix with one bias per row. The matrix is rectangular:
/// every row has `input_width` entries.
#[derive(Debug)]
pub struct Affine {
    rows: Vec<Vec<Fixed>>,
    biases: Vec<Fixed>,
    inputs: usize,
}

impl Affine {
    #[verifier::type_invariant]
    spec fn well_formed(self) -> bool {
        &&& self.rows@.len() == self.biases@.len()
        &&& forall|i: int| 0 <= i < self.rows@.len() ==> (#[trigger] self.rows@[i])@.len() == self.inputs
    }

    /// The weights, row by row, as raw values.
    pub closed spec fn weight_matrix(&self) -> Seq<Seq<int>> {
        matrix_raws(self.rows@)
    }

    /// The biases as raw values.
    pub closed spec fn bias_vector(&self) -> Seq<int> {
        raws(self.biases@)
    }

    /// The length of the vectors that the map takes.
    pub closed spec fn input_width(&self) -> nat {
        self.inputs as nat
    }

    /// The length of the vectors that the map gives.
    pub open spec fn output_width(&self) -> nat {
        self.bias_vector().len()
    }

    /// The map with the given rows of weights and biases, if there is one
    /// bias per row and every row has `input_size` entries.
    pub fn from_parts(weights: Vec<Vec<Fixed>>, biases: Vec<Fixed>, input_size: usize) -> (r:
        Option<Affine>)
        ensures
            r is Some <==> biases@.len() == weights@.len() && has_shape(
                matrix_raws(weights@),
                weights@.len(),
                input_size as nat,
            ),
            r is Some ==> {
                &&& r.unwrap().weight_matrix() == matrix_raws(weights@)
                &&& r.unwrap().bias_vector() == raws(biases@)
                &&& r.unwrap().input_width() == input_size
            },
    {
        if weights.len() != biases.len() {
            return None;
        }
        let mut i: usize = 0;
        while i < weights.len()
            invariant
                0 <= i <= weights@.len(),
                forall|t: int| 0 <= t < i ==> (#[trigger] weights@[t])@.len() == input_size,
            decreases weights@.len() - i,
        {
            if weights[i].len() != input_size {
                assert(matrix_raws(weights@)[i as int].len() != input_size);
                return None;
            }
            i = i + 1;
        }
        assert forall|t: int| 0 <= t < weights@.len() implies (#[trigger] matrix_raws(
            weights@,
        )[t]).len() == input_size by {
            assert(weights@[t]@.len() == input_size);
        }
        Some(Affine { rows: weights, biases, inputs: input_size })
    }

    /// A map from `input_size` to `output_size` entries with weights drawn
    /// at random from -0.5 (included) to 0.5 (excluded) and all biases 0.
    pub fn random(input_size: usize, output_size: usize) -> (r: Affine)
        ensures
            r.input_width() == input_size,
            r.output_width() == output_size,
            has_shape(r.weight_matrix(), output_size as nat, input_size as nat),
            all_within(r.weight_matrix(), -WEIGHT_BOUND, WEIGHT_BOUND as int),
            all_zero(r.bias_vector()),
    {
        let mut rng = rand::rng();
        let mut rows: Vec<Vec<Fixed>> = Vec::new();
        let mut biases: Vec<Fixed> = Vec::new();
        let mut i: usize = 0;
        while i < output_size
            invariant
                0 <= i <= output_size,
                rows@.len() == i,
                biases@.len() == i,
                forall|t: int| 0 <= t < i ==> (#[trigger] rows@[t])@.len() == input_size,
                forall|t: int, c: int|
                    0 <= t < i && 0 <= c < input_size ==> -WEIGHT_BOUND <= (#[trigger] rows@[t]@[c]).raw
                        < WEIGHT_BOUND,
                forall|t: int| 0 <= t < i ==> (#[trigger] biases@[t]).raw == 0,
            decreases output_size - i,
        {
            let mut row: Vec<Fixed> = Vec::new();
            let mut j: usize = 0;
            while j < input_size
                invariant
                    0 <= j <= input_size,
                    row@.len() == j,
                    forall|c: int| 0 <= c < j ==> -WEIGHT_BOUND <= (#[trigger] row@[c]).raw < WEIGHT_BOUND,
                decreases input_size - j,
            {
                let v: i32 = random_in(&mut rng, -WEIGHT_BOUND, WEIGHT_BOUND);
                row.push(Fixed { raw: v });
                j = j + 1;
            }
            rows.push(row);
            biases.push(Fixed { raw: 0 });
            i = i + 1;
        }
        let r = Affine { rows, biases, inputs: input_size };
        assert forall|t: int, c: int|
            0 <= t < r.weight_matrix().len() && 0 <= c < r.weight_matrix()[t].len() implies -WEIGHT_BOUND
            <= #[trigger] r.weight_matrix()[t][c] < WEIGHT_BOUND by {
            assert(r.weight_matrix()[t][c] == r.rows@[t]@[c].raw);
        }
        assert forall|t: int| 0 <= t < r.weight_matrix().len() implies (#[trigger] r.weight_matrix()[t]).len()
            == input_size by {
            assert(r.rows@[t]@.len() == input_size);
        }
        r
    }

    /// The rows of weights.
    pub fn weights(&self) -> (w: &Vec<Vec<Fixed>>)
        ensures
            matrix_raws(w@) == self.weight_matrix(),
            has_shape(self.weight_matrix(), self.output_width(), self.input_width()),
    {
        proof {
            use_type_invariant(self);
            assert forall|t: int| 0 <= t < self.weight_matrix().len() implies (
            #[trigger] self.weight_matrix()[t]).len() == self.input_width() by {
                assert(self.rows@[t]@.len() == self.inputs);
            }
        }
        &self.rows
    }

    /// The biases.
    pub fn biases(&self) -> (b: &Vec<Fixed>)
        ensures
            raws(b@) == self.bias_vector(),
    {
        &self.biases
    }

    /// The length of the vectors that the map takes.
    pub fn input_size(&self) -> (n: usize)
        ensures
            n == self.input_width(),
    {
        self.inputs
    }

    /// The length of the vectors that the map gives.
    pub fn output_size(&self) -> (n: usize)
        ensures
            n == self.output_width(),
    {
        self.biases.len()
    }

    /// `weights * x + biases` for an input of the map's input width.
    pub fn apply(&self, x: &[Fixed]) -> (y: Vec<Fixed>)
        requires
            x@.len() == self.input_width(),
        ensures
            y@.len() == self.output_width(),
            raws(y@) == affine(self.weight_matrix(), self.bias_vector(), raws(x@)),
    {
        proof {
            use_type_invariant(self);
        }
        let mut y: Vec<Fixed> = Vec::new();
        let mut i: usize = 0;
        while i < self.biases.len()
            invariant
                0 <= i <= self.biases@.len(),
                self.rows@.len() == self.biases@.len(),
                forall|t: int| 0 <= t < self.rows@.len() ==> (#[trigger] self.rows@[t])@.len() == self.inputs,
                x@.len() == self.inputs,
                y@.len() == i,
                forall|t: int|
                    0 <= t < i ==> (#[trigger] y@[t]).raw == saturate(
                        dot(raws(self.rows@[t]@), raws(x@)) / (ONE as int) + self.biases@[t].raw,
                    ),
            decreases self.biases@.len() - i,
        {
            let row: &Vec<Fixed> = &self.rows[i];
            let s: i128 = inner_product(row.as_slice(), x, row.len());
            let (q, _m) = floor_div_rem(s, ONE as i128);
            proof {
                vstd::arithmetic::div_mod::lemma_fundamental_div_mod(s as int, ONE as int);
                vstd::arithmetic::div_mod::lemma_mod_bound(s as int, ONE as int);
            }
            y.push(Fixed::saturating(q + self.biases[i].raw as i128));
            i = i + 1;
        }
        assert(raws(y@) =~= affine(self.weight_matrix(), self.bias_vector(), raws(x@)));
        y
    }
}

/// A step of a pipeline: it takes a vector of one fixed length and gives a
/// vector of another.
pub trait Layer {
    /// The length of the vectors that the layer takes.
    spec fn input_width(&self) -> nat;

    /// The length of the vectors that the layer gives.
    spec fn output_width(&self) -> nat;

    /// The raw values of the layer's output, from those of its input.
    spec fn transform(&self, x: Seq<int>) -> Seq<int>;

    /// The description of the layer.
    spec fn layer_type(&self) -> LayerType;

    /// Transforms an input of the layer's input width. An input of any
    /// other length is refused with `ShapeMismatch`.
    fn forward(&self, input: &[Fixed]) -> (r: Result<Vec<Fixed>, NeuralError>)
        ensures
            match r {
                Ok(y) => {
                    &&& input@.len() == self.input_width()
                    &&& y@.len() == self.output_width()
                    &&& raws(y@) == self.transform(raws(input@))
                },
                Err(e) => {
                    &&& input@.len() != self.input_width()
                    &&& e == (NeuralError::ShapeMismatch {
                        expected: self.input_width() as usize,
                        found: input@.len() as usize,
                    })
                },
            },
    ;

    /// The length of the vectors that the layer gives.
    fn output_size(&self) -> (n: usize)
        ensures
            n == self.output_width(),
    ;

    /// The description of the layer.
    fn get_type(&self) -> (t: LayerType)
        ensures
            t == self.layer_type(),
    ;
}

/// The first layer of a pipeline: it applies its activation to an input of
/// `size` entries, and nothing else.
#[derive(Debug, Clone, Copy)]
pub struct InputLayer {
    pub size: usize,
    pub activation: ActivationType,
}

/// A fully connected layer: an affine map, then an activation.
#[derive(Debug)]
pub struct DenseLayer {
    pub affine: Affine,
    pub activation: ActivationType,
}

/// The last layer of a pipeline. It computes what a dense layer computes.
#[derive(Debug)]
pub struct OutputLayer {
    pub affine: Affine,
    pub activation: ActivationType,
}

impl InputLayer {
    /// An input layer of `size` entries. The two sizes must agree: an input
    /// layer gives as many entries as it takes.
    pub fn new(size: usize, output_size: usize, activation: ActivationType) -> (layer: Self)
        requires
            size == output_size,
        ensures
            layer.size == size,
            layer.activation == activation,
    {
        InputLayer { size, activation }
    }
}

impl Layer for InputLayer {
    open spec fn input_width(&self) -> nat {
        self.size as nat
    }

    open spec fn output_width(&self) -> nat {
        self.size as nat
    }

    open spec fn transform(&self, x: Seq<int>) -> Seq<int> {
        self.activation.activated(x)
    }

    open spec fn layer_type(&self) -> LayerType {
        LayerType::Input(self.size, self.activation)
    }

    fn forward(&self, input: &[Fixed]) -> (r: Result<Vec<Fixed>, NeuralError>) {
        if input.len() != self.size {
            return Err(NeuralError::ShapeMismatch { expected: self.size, found: input.len() });
        }
        Ok(self.activation.activate(input))
    }

    fn output_size(&self) -> (n: usize) {
        self.size
    }

    fn get_type(&self) -> (t: LayerType) {
        LayerType::Input(self.size, self.activation)
    }
}

impl DenseLayer {
    /// A dense layer from `input_size` to `output_size` entries, with
    /// weights drawn at random from -0.5 (included) to 0.5 (excluded) and
    /// all biases 0.
    pub fn new(input_size: usize, output_size: usize, activation: ActivationType) -> (layer: Self)
        ensures
            layer.input_width() == input_size,
            layer.output_width() == output_size,
            layer.activation == activation,
            has_shape(layer.affine.weight_matrix(), output_size as nat, input_size as nat),
            all_within(layer.affine.weight_matrix(), -WEIGHT_BOUND, WEIGHT_BOUND as int),
            all_zero(layer.affine.bias_vector()),
    {
        DenseLayer { affine: Affine::random(input_size, output_size), activation }
    }
}

impl Layer for DenseLayer {
    open spec fn input_width(&self) -> nat {
        self.affine.input_width()
    }

    open spec fn output_width(&self) -> nat {
        self.affine.output_width()
    }

    open spec fn transform(&self, x: Seq<int>) -> Seq<int> {
        self.activation.activated(
            affine(self.affine.weight_matrix(), self.affine.bias_vector(), x),
        )
    }

    open spec fn layer_type(&self) -> LayerType {
        LayerType::Dense(self.affine.output_width() as usize, self.activation)
    }

    fn forward(&self, input: &[Fixed]) -> (r: Result<Vec<Fixed>, NeuralError>) {
        let expected: usize = self.affine.input_size();
        if input.len() != expected {
            return Err(NeuralError::ShapeMismatch { expected, found: input.len() });
        }
        let z: Vec<Fixed> = self.affine.apply(input);
        Ok(self.activation.activate(z.as_slice()))
    }

    fn output_size(&self) -> (n: usize) {
        self.affine.output_size()
    }

    fn get_type(&self) -> (t: LayerType) {
        LayerType::Dense(self.affine.output_size(), self.activation)
    }
}

impl OutputLayer {
    /// An output layer from `input_size` to `output_size` entries, with
    /// weights drawn at random from -0.5 (included) to 0.5 (excluded) and
    /// all biases 0.
    pub fn new(input_size: usize, output_size: usize, activation: ActivationType) -> (layer: Self)
        ensures
            layer.input_width() == input_size,
            layer.output_width() == output_size,
            layer.activation == activation,
            has_shape(layer.affine.weight_matrix(), output_size as nat, input_size as nat),
            all_within(layer.affine.weight_matrix(), -WEIGHT_BOUND, WEIGHT_BOUND as int),
            all_zero(layer.affine.bias_vector()),
    {
        OutputLayer { affine: Affine::random(input_size, output_size), activation }
    }
}

impl Layer for OutputLayer {
    open spec fn input_width(&self) -> nat {
        self.affine.input_width()
    }

    open spec fn output_width(&self) -> nat {
        self.affine.output_width()
    }

    open spec fn transform(&self, x: Seq<int>) -> Seq<int> {
        self.activation.activated(
            affine(self.affine.weight_matrix(), self.affine.bias_vector(), x),
        )
    }

    open spec fn layer_type(&self) -> LayerType {
        LayerType::Output(self.affine.output_width() as usize, self.activation)
    }

    fn forward(&self, input: &[Fixed]) -> (r: Result<Vec<Fixed>, NeuralError>) {
        let expected: usize = self.affine.input_size();
        if input.len() != expected {
            return Err(NeuralError::ShapeMismatch { expected, found: input.len() });
        }
        let z: Vec<Fixed> = self.affine.apply(input);
        Ok(self.activation.activate(z.as_slice()))
    }

    fn output_size(&self) -> (n: usize) {
        self.affine.output_size()
    }

    fn get_type(&self) -> (t: LayerType) {
        LayerType::Output(self.affine.output_size(), self.activation)
    }
}

/// A layer of any of the three variants.
#[derive(Debug)]
pub enum AnyLayer {
    Input(InputLayer),
    Dense(DenseLayer),
    Output(OutputLayer),
}

impl Layer for AnyLayer {
    open spec fn input_width(&self) -> nat {
        match self {
            AnyLayer::Input(l) => l.input_width(),
            AnyLayer::Dense(l) => l.input_width(),
            AnyLayer::Output(l) => l.input_width(),
        }
    }

    open spec fn output_width(&self) -> nat {
        match self {
            AnyLayer::Input(l) => l.output_width(),
            AnyLayer::Dense(l) => l.output_width(),
            AnyLayer::Output(l) => l.output_width(),
        }
    }

    open spec fn transform(&self, x: Seq<int>) -> Seq<int> {
        match self {
            AnyLayer::Input(l) => l.transform(x),
            AnyLayer::Dense(l) => l.transform(x),
            AnyLayer::Output(l) => l.transform(x),
        }
    }

    open spec fn layer_type(&self) -> LayerType {
        match self {
            AnyLayer::Input(l) => l.layer_type(),
            AnyLayer::Dense(l) => l.layer_type(),
            AnyLayer::Output(l) => l.layer_type(),
        }
    }

    fn forward(&self, input: &[Fixed]) -> (r: Result<Vec<Fixed>, NeuralError>) {
        match self {
            AnyLayer::Input(l) => l.forward(input),
            AnyLayer::Dense(l) => l.forward(input),
            AnyLayer::Output(l) => l.forward(input),
        }
    }

    fn output_size(&self) -> (n: usize) {
        match self {
            AnyLayer::Input(l) => l.output_size(),
            AnyLayer::Dense(l) => l.output_size(),
            AnyLayer::Output(l) => l.output_size(),
        }
    }

    fn get_type(&self) -> (t: LayerType) {
        match self {
            AnyLayer::Input(l) => l.get_type(),
            AnyLayer::Dense(l) => l.get_type(),
            AnyLayer::Output(l) => l.get_type(),
        }
    }
}

/// A layer gives a vector of its output width for every input of its input
/// width.
pub proof fn lemma_transform_width(layer: AnyLayer, x: Seq<int>)
    requires
        x.len() == layer.input_width(),
    ensures
        layer.transform(x).len() == layer.output_width(),
{
    match layer {
        AnyLayer::Input(l) => {
            lemma_activation_keeps_length(l.activation, x);
        },
        AnyLayer::Dense(l) => {
            lemma_activation_keeps_length(
                l.activation,
                affine(l.affine.weight_matrix(), l.affine.bias_vector(), x),
            );
        },
        AnyLayer::Output(l) => {
            lemma_activation_keeps_length(
                l.activation,
                affine(l.affine.weight_matrix(), l.affine.bias_vector(), x),
            );
        },
    }
}

} // verus!
