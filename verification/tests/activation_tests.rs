use rust_neural::activation::{
    leaky_relu, leaky_relu_derivative, relu, relu_derivative, sigmoid, sigmoid_derivative,
    softmax, tanh, tanh_derivative, Activation, ActivationType, ReLU, Sigmoid, Softmax, LEAK,
};
use rust_neural::error::NeuralError;
use rust_neural::fixed::{Fixed, ONE};

fn fx(raw: i32) -> Fixed {
    Fixed { raw }
}

fn fxs(raws: &[i32]) -> Vec<Fixed> {
    raws.iter().map(|r| Fixed { raw: *r }).collect()
}

fn raws(v: &[Fixed]) -> Vec<i32> {
    v.iter().map(|f| f.raw).collect()
}

#[test]
fn relu_is_max_with_zero() {
    assert_eq!(relu(fx(25_000_000)).raw, 25_000_000);
    assert_eq!(relu(fx(1)).raw, 1);
    assert_eq!(relu(fx(0)).raw, 0);
    assert_eq!(relu(fx(-1)).raw, 0);
    assert_eq!(relu(fx(i32::MIN)).raw, 0);
    assert_eq!(relu(fx(i32::MAX)).raw, i32::MAX);
}

#[test]
fn relu_derivative_is_zero_at_zero() {
    assert_eq!(relu_derivative(fx(0)).raw, 0);
    assert_eq!(relu_derivative(fx(1)).raw, ONE);
    assert_eq!(relu_derivative(fx(-1)).raw, 0);
    assert_eq!(relu_derivative(fx(i32::MAX)).raw, ONE);
}

#[test]
fn sigmoid_exact_values() {
    assert_eq!(sigmoid(fx(0)).raw, 5_000_000);
    assert_eq!(sigmoid(fx(10_000_000)).raw, 7_310_586);
    assert_eq!(sigmoid(fx(-10_000_000)).raw, 2_689_414);
    assert_eq!(sigmoid(fx(50_000_000)).raw, 9_933_071);
    assert_eq!(sigmoid(fx(-50_000_000)).raw, 66_928);
}

#[test]
fn sigmoid_reaches_its_bounds_only_far_out() {
    assert_eq!(sigmoid(fx(161_180_956)).raw, ONE - 1);
    assert_eq!(sigmoid(fx(161_180_957)).raw, ONE);
    assert_eq!(sigmoid(fx(i32::MAX)).raw, ONE);
    assert_eq!(sigmoid(fx(-161_180_955)).raw, 1);
    assert_eq!(sigmoid(fx(-161_180_956)).raw, 0);
    assert_eq!(sigmoid(fx(i32::MIN)).raw, 0);
}

#[test]
fn sigmoid_is_close_to_the_real_function() {
    let mut x: i32 = -200_000_000;
    while x <= 200_000_000 {
        let got = sigmoid(fx(x)).raw as f64;
        let want = 1e7 / (1.0 + (-(x as f64) / 1e7).exp());
        assert!((got - want).abs() <= 2.0, "x = {}: {} vs {}", x, got, want);
        assert!(got >= 0.0 && got <= 1e7);
        x += 77_773;
    }
}

#[test]
fn sigmoid_derivative_exact_values() {
    assert_eq!(sigmoid_derivative(fx(0)).raw, 2_500_000);
    assert_eq!(sigmoid_derivative(fx(10_000_000)).raw, 1_966_119);
    assert_eq!(sigmoid_derivative(fx(-50_000_000)).raw, 66_480);
    assert_eq!(sigmoid_derivative(fx(i32::MAX)).raw, 0);
}

#[test]
fn sigmoid_derivative_is_s_times_one_minus_s() {
    for x in [-60_000_000, -12_345_678, -1, 0, 1, 3_333_333, 47_000_000] {
        let s = sigmoid(fx(x)).raw as i64;
        let want = s * (ONE as i64 - s) / ONE as i64;
        assert_eq!(sigmoid_derivative(fx(x)).raw as i64, want);
    }
}

#[test]
fn tanh_exact_values() {
    assert_eq!(tanh(fx(0)).raw, 0);
    assert_eq!(tanh(fx(10_000_000)).raw, 7_615_941);
    assert_eq!(tanh(fx(-10_000_000)).raw, -7_615_941);
    assert_eq!(tanh(fx(5_000_000)).raw, 4_621_171);
    assert_eq!(tanh(fx(50_000_000)).raw, 9_999_092);
    assert_eq!(tanh(fx(i32::MAX)).raw, ONE - 1);
    assert_eq!(tanh(fx(i32::MIN)).raw, 1 - ONE);
}

#[test]
fn tanh_is_odd_and_close_to_the_real_function() {
    let mut x: i32 = 0;
    while x <= 120_000_000 {
        let up = tanh(fx(x)).raw;
        let down = tanh(fx(-x)).raw;
        assert_eq!(up, -down);
        let want = ((x as f64) / 1e7).tanh() * 1e7;
        assert!((up as f64 - want).abs() <= 3.0, "x = {}: {} vs {}", x, up, want);
        x += 54_321;
    }
}

#[test]
fn tanh_derivative_exact_values() {
    assert_eq!(tanh_derivative(fx(0)).raw, ONE);
    assert_eq!(tanh_derivative(fx(10_000_000)).raw, 4_199_745);
    assert_eq!(tanh_derivative(fx(-10_000_000)).raw, 4_199_745);
    assert_eq!(tanh_derivative(fx(i32::MAX)).raw, 2);
}

#[test]
fn leaky_relu_scales_what_is_not_positive() {
    assert_eq!(leaky_relu(fx(12_345)).raw, 12_345);
    assert_eq!(leaky_relu(fx(0)).raw, 0);
    assert_eq!(leaky_relu(fx(-ONE)).raw, -100_000);
    assert_eq!(leaky_relu(fx(-1)).raw, -1);
    assert_eq!(leaky_relu(fx(-150)).raw, -2);
    assert_eq!(leaky_relu(fx(-200)).raw, -2);
    assert_eq!(leaky_relu(fx(i32::MIN)).raw, -21_474_837);
}

#[test]
fn leaky_relu_derivative_is_one_or_the_leak() {
    assert_eq!(LEAK, 100_000);
    assert_eq!(leaky_relu_derivative(fx(1)).raw, ONE);
    assert_eq!(leaky_relu_derivative(fx(0)).raw, LEAK);
    assert_eq!(leaky_relu_derivative(fx(-7)).raw, LEAK);
}

#[test]
fn softmax_exact_values() {
    let y = softmax(&fxs(&[ONE, 2 * ONE, 3 * ONE]));
    assert_eq!(raws(&y), vec![900_305, 2_447_284, 6_652_410]);
    let y = softmax(&fxs(&[-3 * ONE, 0, 5 * ONE, 5 * ONE]));
    assert_eq!(raws(&y), vec![1_671, 33_570, 4_982_379, 4_982_379]);
}

#[test]
fn softmax_edge_cases() {
    assert_eq!(softmax(&[]).len(), 0);
    assert_eq!(raws(&softmax(&fxs(&[7]))), vec![ONE]);
    assert_eq!(raws(&softmax(&fxs(&[0, 0]))), vec![5_000_000, 5_000_000]);
    assert_eq!(raws(&softmax(&fxs(&[i32::MAX, i32::MIN]))), vec![ONE, 0]);
    assert_eq!(raws(&softmax(&fxs(&[i32::MIN, i32::MIN]))), vec![5_000_000, 5_000_000]);
}

#[test]
fn softmax_is_a_distribution() {
    let inputs: Vec<Vec<i32>> = vec![
        vec![1, 2, 3],
        vec![-40_000_000, 12_000_000, 0, 7_000_000, 7_000_001],
        vec![i32::MAX, 0, i32::MIN],
        vec![5; 1000],
        vec![123_456_789, 123_456_780, 100_000_000],
    ];
    for x in inputs {
        let y = softmax(&fxs(&x));
        assert_eq!(y.len(), x.len());
        let mut sum: i64 = 0;
        for v in &y {
            assert!(v.raw >= 0 && v.raw <= ONE);
            sum += v.raw as i64;
        }
        assert!(sum <= ONE as i64);
        assert!(sum > ONE as i64 - x.len() as i64);
    }
}

#[test]
fn softmax_is_shift_invariant() {
    let x = [-12_000_000, 0, 3_500_000, 40_000_001];
    let base = raws(&softmax(&fxs(&x)));
    for c in [-2_000_000_000, -1, 1, 999, 77_000_000, 2_000_000_000] {
        let moved: Vec<i32> = x.iter().map(|v| v + c).collect();
        assert_eq!(raws(&softmax(&fxs(&moved))), base);
    }
}

#[test]
fn softmax_is_close_to_the_real_function() {
    let x = [5_000_000, -20_000_000, 13_000_000, 12_999_999, 0];
    let y = softmax(&fxs(&x));
    let exps: Vec<f64> = x.iter().map(|v| ((*v as f64) / 1e7).exp()).collect();
    let total: f64 = exps.iter().sum();
    for i in 0..x.len() {
        let want = exps[i] / total * 1e7;
        assert!((y[i].raw as f64 - want).abs() <= 2.0);
    }
}

#[test]
fn relu_on_vectors() {
    let x = fxs(&[-5, 0, 5, i32::MIN, i32::MAX]);
    assert_eq!(raws(&ReLU.activate(&x)), vec![0, 0, 5, 0, i32::MAX]);
    let d = ReLU.derivative(&x).unwrap();
    assert_eq!(raws(&d), vec![0, 0, ONE, 0, ONE]);
    assert_eq!(ReLU.get_type(), ActivationType::ReLU);
    assert_eq!(ReLU.activate(&[]).len(), 0);
}

#[test]
fn sigmoid_on_vectors() {
    let x = fxs(&[5_000_000, 2_000_000, 1_000_000]);
    assert_eq!(raws(&Sigmoid.activate(&x)), vec![6_224_593, 5_498_340, 5_249_791]);
    let d = Sigmoid.derivative(&x).unwrap();
    assert_eq!(raws(&d), vec![2_350_037, 2_475_165, 2_493_760]);
    assert_eq!(Sigmoid.get_type(), ActivationType::Sigmoid);
}

#[test]
fn softmax_on_vectors_has_no_derivative() {
    let x = fxs(&[ONE, 2 * ONE, 3 * ONE]);
    assert_eq!(raws(&Softmax.activate(&x)), vec![900_305, 2_447_284, 6_652_410]);
    assert_eq!(Softmax.derivative(&x), Err(NeuralError::UnsupportedOperation));
    assert_eq!(Softmax.derivative(&[]), Err(NeuralError::UnsupportedOperation));
    assert_eq!(Softmax.get_type(), ActivationType::Softmax);
}

#[test]
fn activation_type_dispatches() {
    let x = fxs(&[-ONE, 0, ONE]);
    for kind in [ActivationType::ReLU, ActivationType::Sigmoid, ActivationType::Softmax] {
        assert_eq!(kind.get_type(), kind);
        assert_eq!(kind.activate(&x).len(), 3);
    }
    assert_eq!(raws(&ActivationType::ReLU.activate(&x)), raws(&ReLU.activate(&x)));
    assert_eq!(raws(&ActivationType::Sigmoid.activate(&x)), raws(&Sigmoid.activate(&x)));
    assert_eq!(raws(&ActivationType::Softmax.activate(&x)), raws(&Softmax.activate(&x)));
    assert_eq!(
        raws(&ActivationType::ReLU.derivative(&x).unwrap()),
        raws(&ReLU.derivative(&x).unwrap())
    );
    assert_eq!(
        raws(&ActivationType::Sigmoid.derivative(&x).unwrap()),
        raws(&Sigmoid.derivative(&x).unwrap())
    );
    assert_eq!(ActivationType::Softmax.derivative(&x), Err(NeuralError::UnsupportedOperation));
}
