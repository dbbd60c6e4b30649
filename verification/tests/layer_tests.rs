use rust_neural::activation::ActivationType;
use rust_neural::error::NeuralError;
use rust_neural::fixed::{Fixed, ONE};
use rust_neural::layer::{
    Affine, AnyLayer, DenseLayer, InputLayer, Layer, LayerType, OutputLayer, WEIGHT_BOUND,
};

fn fxs(raws: &[i32]) -> Vec<Fixed> {
    raws.iter().map(|r| Fixed { raw: *r }).collect()
}

fn raws(v: &[Fixed]) -> Vec<i32> {
    v.iter().map(|f| f.raw).collect()
}

fn map_of(weights: &[&[i32]], biases: &[i32], input_size: usize) -> Affine {
    let rows: Vec<Vec<Fixed>> = weights.iter().map(|r| fxs(r)).collect();
    Affine::from_parts(rows, fxs(biases), input_size).unwrap()
}

#[test]
fn dense_layer_checks_the_shape_of_its_input() {
    let layer = DenseLayer::new(3, 5, ActivationType::ReLU);
    assert_eq!(layer.output_size(), 5);
    let out = layer.forward(&fxs(&[5_000_000, 2_000_000, 1_000_000])).unwrap();
    assert_eq!(out.len(), 5);
    assert_eq!(
        layer.forward(&fxs(&[1, 2])),
        Err(NeuralError::ShapeMismatch { expected: 3, found: 2 })
    );
    assert_eq!(
        layer.forward(&fxs(&[1, 2, 3, 4])),
        Err(NeuralError::ShapeMismatch { expected: 3, found: 4 })
    );
    assert_eq!(layer.forward(&[]), Err(NeuralError::ShapeMismatch { expected: 3, found: 0 }));
}

#[test]
fn fresh_layers_have_small_weights_and_no_bias() {
    let layer = DenseLayer::new(40, 30, ActivationType::Sigmoid);
    assert_eq!(layer.affine.input_size(), 40);
    assert_eq!(layer.affine.output_size(), 30);
    assert_eq!(layer.affine.weights().len(), 30);
    let mut least = i32::MAX;
    let mut most = i32::MIN;
    for row in layer.affine.weights() {
        assert_eq!(row.len(), 40);
        for w in row {
            assert!(w.raw >= -WEIGHT_BOUND && w.raw < WEIGHT_BOUND);
            least = least.min(w.raw);
            most = most.max(w.raw);
        }
    }
    assert!(least < most);
    assert!(least < 0 && most > 0);
    assert_eq!(raws(layer.affine.biases()), vec![0; 30]);
    let out = OutputLayer::new(7, 2, ActivationType::Softmax);
    assert_eq!(out.affine.weights().len(), 2);
    assert_eq!(out.affine.weights()[1].len(), 7);
    assert_eq!(raws(out.affine.biases()), vec![0, 0]);
}

#[test]
fn layers_without_entries() {
    let none_in = DenseLayer::new(0, 3, ActivationType::ReLU);
    assert_eq!(raws(&none_in.forward(&[]).unwrap()), vec![0, 0, 0]);
    let none_out = DenseLayer::new(3, 0, ActivationType::Softmax);
    assert_eq!(none_out.affine.input_size(), 3);
    assert_eq!(none_out.forward(&fxs(&[1, 2, 3])).unwrap().len(), 0);
    assert_eq!(
        none_out.forward(&[]),
        Err(NeuralError::ShapeMismatch { expected: 3, found: 0 })
    );
}

#[test]
fn affine_map_exact_values() {
    let map = map_of(&[&[5_000_000, -2_500_000], &[ONE, 2 * ONE]], &[1_000_000, -2_000_000], 2);
    assert_eq!(raws(&map.apply(&fxs(&[3_000_000, 7_000_000]))), vec![750_000, 15_000_000]);
}

#[test]
fn affine_map_rounds_down_and_saturates() {
    assert_eq!(raws(&map_of(&[&[1]], &[0], 1).apply(&fxs(&[1]))), vec![0]);
    assert_eq!(raws(&map_of(&[&[-1]], &[0], 1).apply(&fxs(&[1]))), vec![-1]);
    let big = 2_000_000_000;
    assert_eq!(raws(&map_of(&[&[big]], &[0], 1).apply(&fxs(&[big]))), vec![i32::MAX]);
    assert_eq!(raws(&map_of(&[&[-big]], &[5], 1).apply(&fxs(&[big]))), vec![i32::MIN]);
    assert_eq!(raws(&map_of(&[&[0]], &[i32::MIN], 1).apply(&fxs(&[big]))), vec![i32::MIN]);
}

#[test]
fn affine_map_refuses_ragged_parts() {
    assert!(Affine::from_parts(vec![fxs(&[1, 2]), fxs(&[3])], fxs(&[0, 0]), 2).is_none());
    assert!(Affine::from_parts(vec![fxs(&[1, 2])], fxs(&[0, 0]), 2).is_none());
    assert!(Affine::from_parts(vec![fxs(&[1, 2])], fxs(&[0]), 3).is_none());
    assert!(Affine::from_parts(vec![], fxs(&[0]), 0).is_none());
    let empty = Affine::from_parts(vec![], vec![], 4).unwrap();
    assert_eq!(empty.input_size(), 4);
    assert_eq!(empty.output_size(), 0);
    let kept = Affine::from_parts(vec![fxs(&[1, 2]), fxs(&[3, 4])], fxs(&[5, 6]), 2).unwrap();
    assert_eq!(raws(&kept.weights()[0]), vec![1, 2]);
    assert_eq!(raws(&kept.weights()[1]), vec![3, 4]);
    assert_eq!(raws(kept.biases()), vec![5, 6]);
}

#[test]
fn dense_layer_applies_its_activation() {
    let layer = DenseLayer {
        affine: map_of(
            &[&[5_000_000, -2_500_000], &[ONE, 2 * ONE]],
            &[1_000_000, -20_000_000],
            2,
        ),
        activation: ActivationType::ReLU,
    };
    let y = layer.forward(&fxs(&[3_000_000, 7_000_000])).unwrap();
    assert_eq!(raws(&y), vec![750_000, 0]);
    assert_eq!(layer.get_type(), LayerType::Dense(2, ActivationType::ReLU));
    let out = OutputLayer {
        affine: map_of(&[&[ONE, 0], &[0, ONE]], &[0, 0], 2),
        activation: ActivationType::Softmax,
    };
    let y = out.forward(&fxs(&[0, 0])).unwrap();
    assert_eq!(raws(&y), vec![5_000_000, 5_000_000]);
    assert_eq!(out.get_type(), LayerType::Output(2, ActivationType::Softmax));
    assert_eq!(out.output_size(), 2);
}

#[test]
fn input_layer_applies_its_activation_only() {
    let layer = InputLayer::new(3, 3, ActivationType::Sigmoid);
    assert_eq!(layer.size, 3);
    assert_eq!(layer.output_size(), 3);
    assert_eq!(layer.get_type(), LayerType::Input(3, ActivationType::Sigmoid));
    let y = layer.forward(&fxs(&[5_000_000, 2_000_000, 1_000_000])).unwrap();
    assert_eq!(raws(&y), vec![6_224_593, 5_498_340, 5_249_791]);
    assert_eq!(
        layer.forward(&fxs(&[1, 2, 3, 4])),
        Err(NeuralError::ShapeMismatch { expected: 3, found: 4 })
    );
    assert_eq!(
        layer.forward(&fxs(&[1, 2])),
        Err(NeuralError::ShapeMismatch { expected: 3, found: 2 })
    );
}

#[test]
fn any_layer_behaves_as_the_layer_inside() {
    let input = AnyLayer::Input(InputLayer::new(2, 2, ActivationType::ReLU));
    assert_eq!(input.output_size(), 2);
    assert_eq!(input.get_type(), LayerType::Input(2, ActivationType::ReLU));
    assert_eq!(raws(&input.forward(&fxs(&[-4, 4])).unwrap()), vec![0, 4]);
    let dense = AnyLayer::Dense(DenseLayer {
        affine: map_of(&[&[ONE, ONE]], &[1], 2),
        activation: ActivationType::ReLU,
    });
    assert_eq!(dense.output_size(), 1);
    assert_eq!(dense.get_type(), LayerType::Dense(1, ActivationType::ReLU));
    assert_eq!(raws(&dense.forward(&fxs(&[10, 20])).unwrap()), vec![31]);
    assert_eq!(
        dense.forward(&fxs(&[10])),
        Err(NeuralError::ShapeMismatch { expected: 2, found: 1 })
    );
    let output = AnyLayer::Output(OutputLayer::new(1, 4, ActivationType::Softmax));
    assert_eq!(output.output_size(), 4);
    assert_eq!(output.get_type(), LayerType::Output(4, ActivationType::Softmax));
}
