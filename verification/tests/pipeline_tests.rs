use rust_neural::activation::ActivationType;
use rust_neural::builder::SequentialBuilder;
use rust_neural::error::NeuralError;
use rust_neural::fixed::{Fixed, ONE};
use rust_neural::layer::{Affine, AnyLayer, DenseLayer, LayerType, OutputLayer};

fn fxs(raws: &[i32]) -> Vec<Fixed> {
    raws.iter().map(|r| Fixed { raw: *r }).collect()
}

fn raws(v: &[Fixed]) -> Vec<i32> {
    v.iter().map(|f| f.raw).collect()
}

fn map_of(weights: &[&[i32]], biases: &[i32], input_size: usize) -> Affine {
    let rows: Vec<Vec<Fixed>> = weights.iter().map(|r| fxs(r)).collect();
    Affine::from_parts(rows, fxs(biases), input_size).unwrap()
}

#[test]
fn three_layer_pipeline_gives_a_distribution() {
    let nn = SequentialBuilder::new()
        .add(LayerType::Input(3, ActivationType::Sigmoid))
        .add(LayerType::Dense(5, ActivationType::ReLU))
        .add(LayerType::Output(2, ActivationType::Softmax))
        .build();
    assert_eq!(nn.len(), 3);
    let output = nn.forward(fxs(&[5_000_000, 2_000_000, 1_000_000])).unwrap();
    assert_eq!(output.len(), 2);
    for v in &output {
        assert!(v.raw >= 0 && v.raw <= ONE);
    }
    let sum = output[0].raw as i64 + output[1].raw as i64;
    assert!(sum <= ONE as i64 && sum > ONE as i64 - 2);
    let as_number = sum as f64 / 1e7;
    assert!((as_number - 1.0).abs() < 1e-6);
    let again = nn.forward(fxs(&[5_000_000, 2_000_000, 1_000_000])).unwrap();
    assert_eq!(raws(&again), raws(&output));
}

#[test]
fn pipeline_with_given_weights_exact_values() {
    let hidden = DenseLayer {
        affine: map_of(
            &[&[5_000_000, -2_500_000], &[ONE, 2 * ONE]],
            &[1_000_000, -2_000_000],
            2,
        ),
        activation: ActivationType::Sigmoid,
    };
    let last = OutputLayer {
        affine: map_of(
            &[&[ONE, -ONE], &[-5_000_000, 5_000_000], &[0, 3 * ONE]],
            &[0, 2_500_000, -ONE],
            2,
        ),
        activation: ActivationType::Softmax,
    };
    let nn = SequentialBuilder::new()
        .add_input(2, ActivationType::ReLU)
        .add_layer(AnyLayer::Dense(hidden))
        .add_layer(AnyLayer::Output(last))
        .build();
    let y = nn.forward(fxs(&[-3_000_000, 7_000_000])).unwrap();
    assert_eq!(raws(&y), vec![1_266_889, 2_502_933, 6_230_177]);
}

#[test]
fn builder_derives_widths_from_the_layer_before() {
    let nn = SequentialBuilder::new()
        .add_input(4, ActivationType::ReLU)
        .add_dense(6, ActivationType::Sigmoid)
        .add_dense(3, ActivationType::ReLU)
        .add_output(2, ActivationType::Softmax)
        .build();
    assert_eq!(
        nn.layer_types(),
        vec![
            LayerType::Input(4, ActivationType::ReLU),
            LayerType::Dense(6, ActivationType::Sigmoid),
            LayerType::Dense(3, ActivationType::ReLU),
            LayerType::Output(2, ActivationType::Softmax),
        ]
    );
    assert_eq!(nn.forward(fxs(&[1, 2, 3, 4])).unwrap().len(), 2);
    assert_eq!(
        nn.forward(fxs(&[1, 2, 3])),
        Err(NeuralError::ShapeMismatch { expected: 4, found: 3 })
    );
    assert_eq!(
        nn.forward(fxs(&[1, 2, 3, 4, 5])),
        Err(NeuralError::ShapeMismatch { expected: 4, found: 5 })
    );
}

#[test]
fn builder_starts_empty_and_counts_its_layers() {
    let b = SequentialBuilder::new();
    assert_eq!(b.len(), 0);
    let b = b.add_input(3, ActivationType::Sigmoid);
    assert_eq!(b.len(), 1);
    let b = b.add_dense(2, ActivationType::ReLU);
    assert_eq!(b.len(), 2);
    let b = b.add(LayerType::Output(1, ActivationType::Softmax));
    assert_eq!(b.len(), 3);
    assert_eq!(b.build().len(), 3);
}

#[test]
fn mismatched_neighbours_are_refused_at_the_layer_that_does_not_fit() {
    let nn = SequentialBuilder::new()
        .add_input(3, ActivationType::Sigmoid)
        .add_dense(5, ActivationType::ReLU)
        .add_input(4, ActivationType::ReLU)
        .add_output(2, ActivationType::Softmax)
        .build();
    assert_eq!(
        nn.forward(fxs(&[1, 2, 3])),
        Err(NeuralError::ShapeMismatch { expected: 4, found: 5 })
    );
    assert_eq!(
        nn.forward(fxs(&[1, 2])),
        Err(NeuralError::ShapeMismatch { expected: 3, found: 2 })
    );
}

#[test]
fn empty_pipeline_returns_its_input() {
    let nn = SequentialBuilder::new().build();
    assert_eq!(nn.len(), 0);
    assert_eq!(raws(&nn.forward(fxs(&[3, -4, 5])).unwrap()), vec![3, -4, 5]);
    assert_eq!(nn.forward(vec![]).unwrap().len(), 0);
}

#[test]
fn add_builds_the_layer_that_is_described() {
    let nn = SequentialBuilder::new()
        .add(LayerType::Input(2, ActivationType::ReLU))
        .add(LayerType::Dense(3, ActivationType::Sigmoid))
        .add(LayerType::Output(4, ActivationType::Softmax))
        .build();
    assert_eq!(
        nn.layer_types(),
        vec![
            LayerType::Input(2, ActivationType::ReLU),
            LayerType::Dense(3, ActivationType::Sigmoid),
            LayerType::Output(4, ActivationType::Softmax),
        ]
    );
    assert_eq!(nn.forward(fxs(&[ONE, -ONE])).unwrap().len(), 4);
}
