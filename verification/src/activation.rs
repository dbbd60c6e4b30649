//! Activation functions: on single numbers, and on whole vectors.
use vstd::prelude::*;
use vstd::arithmetic::div_mod::{
    lemma_div_is_ordered, lemma_div_is_ordered_by_denominator, lemma_div_pos_is_pos,
    lemma_fundamental_div_mod, lemma_mod_bound,
};
use vstd::arithmetic::mul::lemma_mul_inequality;
use crate::error::NeuralError;
use crate::exp::{
    exp, exp_spec, lemma_exp_at_least_one, lemma_exp_monotone, lemma_exp_range,
    lemma_exp_thresholds, EXP_MAX,
    EXP_UNIT_FROM,
};
use crate::fixed::{floor_div_rem, raws, Fixed, ONE};

verus! {

/// The slope of the leaky rectifier for arguments that are not positive: 0.01.
pub const LEAK: i32 = 100_000;

/// `max(0, x)`.
pub open spec fn relu_spec(x: int) -> int {
    if x > 0 {
        x
    } else {
        0
    }
}

/// 1 for a positive argument, 0 otherwise (also at 0).
pub open spec fn relu_derivative_spec(x: int) -> int {
    if x > 0 {
        ONE as int
    } else {
        0
    }
}

/// `1 / (1 + e^(-x))`, rounded down.
pub open spec fn sigmoid_spec(x: int) -> int {
    (ONE * ONE) / (ONE + exp_spec(-x))
}

/// `s * (1 - s)` for `s = sigmoid(x)`, rounded down.
pub open spec fn sigmoid_derivative_spec(x: int) -> int {
    let s = sigmoid_spec(x);
    (s * (ONE - s)) / (ONE as int)
}

/// `(e^(2x) - 1) / (e^(2x) + 1)` for `x >= 0`, rounded down.
pub open spec fn tanh_magnitude(x: int) -> int {
    ((exp_spec(2 * x) - ONE) * ONE) / (exp_spec(2 * x) + ONE)
}

/// The hyperbolic tangent, rounded towards zero: an odd function.
pub open spec fn tanh_spec(x: int) -> int {
    if x >= 0 {
        tanh_magnitude(x)
    } else {
        -tanh_magnitude(-x)
    }
}

/// `1 - t * t` for `t = tanh(x)`, the square rounded down.
pub open spec fn tanh_derivative_spec(x: int) -> int {
    let t = tanh_spec(x);
    ONE - (t * t) / (ONE as int)
}

/// `x` for a positive argument, `0.01 * x` rounded down otherwise.
pub open spec fn leaky_relu_spec(x: int) -> int {
    if x > 0 {
        x
    } else {
        (LEAK * x) / (ONE as int)
    }
}

/// 1 for a positive argument, 0.01 otherwise.
pub open spec fn leaky_relu_derivative_spec(x: int) -> int {
    if x > 0 {
        ONE as int
    } else {
        LEAK as int
    }
}

/// The sigmoid lies between 0 and 1, both included.
pub proof fn lemma_sigmoid_range(x: int)
    ensures
        0 <= sigmoid_spec(x) <= ONE,
{
    lemma_exp_range(-x);
    let d = ONE + exp_spec(-x);
    lemma_div_pos_is_pos(ONE * ONE, d);
    lemma_div_is_ordered_by_denominator(ONE * ONE, ONE as int, d);
}

/// The magnitude of the hyperbolic tangent is at least 0 and below 1.
pub proof fn lemma_tanh_magnitude_range(x: int)
    requires
        x >= 0,
    ensures
        0 <= tanh_magnitude(x) < ONE,
{
    lemma_exp_range(2 * x);
    lemma_exp_at_least_one(2 * x);
    let e = exp_spec(2 * x);
    let n = (e - ONE) * ONE;
    let d = e + ONE;
    assert(0 <= n < d * ONE) by (nonlinear_arith)
        requires
            n == (e - ONE) * ONE,
            d == e + ONE,
            e >= ONE,
    ;
    lemma_div_pos_is_pos(n, d);
    lemma_fundamental_div_mod(n, d);
    lemma_mod_bound(n, d);
    assert(n / d < ONE) by (nonlinear_arith)
        requires
            n == d * (n / d) + n % d,
            0 <= n % d,
            n < d * ONE,
            d > 0,
    ;
}

/// The sigmoid never decreases: a larger argument gives a result that is
/// at least as large.
pub proof fn lemma_sigmoid_monotone(x: int, y: int)
    requires
        x <= y,
    ensures
        sigmoid_spec(x) <= sigmoid_spec(y),
{
    lemma_exp_monotone(-y, -x);
    lemma_exp_range(-y);
    lemma_div_is_ordered_by_denominator(ONE * ONE, ONE + exp_spec(-y), ONE + exp_spec(-x));
}

/// The hyperbolic tangent is odd, and lies strictly between -1 and 1.
pub proof fn lemma_tanh_odd(x: int)
    ensures
        tanh_spec(-x) == -tanh_spec(x),
        -ONE < tanh_spec(x) < ONE,
{
    if x >= 0 {
        lemma_tanh_magnitude_range(x);
    } else {
        lemma_tanh_magnitude_range(-x);
    }
    if x == 0 {
        crate::exp::lemma_exp_zero();
        assert((exp_spec(0) - ONE) * ONE == 0);
    }
}

/// The rectifier: `max(0, x)`.
pub fn relu(x: Fixed) -> (y: Fixed)
    ensures
        y.raw == relu_spec(x.raw as int),
{
    if x.raw > 0 {
        x
    } else {
        Fixed { raw: 0 }
    }
}

/// The derivative of the rectifier: 1 where `x > 0`, else 0.
pub fn relu_derivative(x: Fixed) -> (y: Fixed)
    ensures
        y.raw == relu_derivative_spec(x.raw as int),
{
    if x.raw > 0 {
        Fixed { raw: ONE }
    } else {
        Fixed { raw: 0 }
    }
}

/// The logistic function `1 / (1 + e^(-x))`.
pub fn sigmoid(x: Fixed) -> (y: Fixed)
    ensures
        y.raw == sigmoid_spec(x.raw as int),
        0 <= y.raw <= ONE,
{
    let e: i64 = exp(-(x.raw as i64));
    let d: i64 = ONE as i64 + e;
    proof {
        lemma_sigmoid_range(x.raw as int);
    }
    let s: i64 = (ONE as i64 * ONE as i64) / d;
    Fixed { raw: s as i32 }
}

/// The derivative of the logistic function, from its value `s`: `s * (1 - s)`.
pub fn sigmoid_derivative(x: Fixed) -> (y: Fixed)
    ensures
        y.raw == sigmoid_derivative_spec(x.raw as int),
        0 <= y.raw <= ONE,
{
    let s: i64 = sigmoid(x).raw as i64;
    proof {
        let n = s * (ONE - s);
        assert(0 <= n <= ONE * ONE) by (nonlinear_arith)
            requires
                n == s * (ONE - s),
                0 <= s <= ONE,
        ;
        lemma_div_pos_is_pos(n, ONE as int);
        lemma_div_is_ordered(n, ONE * ONE, ONE as int);
    }
    let v: i64 = (s * (ONE as i64 - s)) / ONE as i64;
    Fixed { raw: v as i32 }
}

/// The hyperbolic tangent.
pub fn tanh(x: Fixed) -> (y: Fixed)
    ensures
        y.raw == tanh_spec(x.raw as int),
        -ONE < y.raw < ONE,
{
    let a: i64 = if x.raw >= 0 {
        x.raw as i64
    } else {
        -(x.raw as i64)
    };
    let e: i64 = exp(2 * a);
    proof {
        lemma_exp_at_least_one(2 * a as int);
        lemma_tanh_magnitude_range(a as int);
        assert(0 <= (e - ONE) * ONE <= EXP_MAX * ONE) by (nonlinear_arith)
            requires
                ONE <= e <= EXP_MAX,
        ;
    }
    let m: i128 = ((e - ONE as i64) as i128 * ONE as i128) / ((e + ONE as i64) as i128);
    if x.raw >= 0 {
        Fixed { raw: m as i32 }
    } else {
        Fixed { raw: (-m) as i32 }
    }
}

/// The derivative of the hyperbolic tangent, from its value `t`: `1 - t * t`.
pub fn tanh_derivative(x: Fixed) -> (y: Fixed)
    ensures
        y.raw == tanh_derivative_spec(x.raw as int),
        0 <= y.raw <= ONE,
{
    let t: i64 = tanh(x).raw as i64;
    proof {
        assert(0 <= t * t <= ONE * ONE) by (nonlinear_arith)
            requires
                -ONE < t < ONE,
        ;
        lemma_div_pos_is_pos(t * t, ONE as int);
        lemma_div_is_ordered(t * t, ONE * ONE, ONE as int);
    }
    let v: i64 = ONE as i64 - (t * t) / ONE as i64;
    Fixed { raw: v as i32 }
}

/// The leaky rectifier: `x` where `x > 0`, else `0.01 * x`.
pub fn leaky_relu(x: Fixed) -> (y: Fixed)
    ensures
        y.raw == leaky_relu_spec(x.raw as int),
{
    if x.raw > 0 {
        x
    } else {
        let (q, _m) = floor_div_rem(LEAK as i128 * x.raw as i128, ONE as i128);
        proof {
            let n = LEAK * x.raw;
            lemma_fundamental_div_mod(n, ONE as int);
            lemma_mod_bound(n, ONE as int);
        }
        Fixed { raw: q as i32 }
    }
}

/// The derivative of the leaky rectifier: 1 where `x > 0`, else 0.01.
pub fn leaky_relu_derivative(x: Fixed) -> (y: Fixed)
    ensures
        y.raw == leaky_relu_derivative_spec(x.raw as int),
{
    if x.raw > 0 {
        Fixed { raw: ONE }
    } else {
        Fixed { raw: LEAK }
    }
}

/// The largest entry of a sequence (0 for the empty sequence).
pub open spec fn seq_max(xs: Seq<int>) -> int
    decreases xs.len(),
{
    if xs.len() == 0 {
        0
    } else if xs.len() == 1 {
        xs[0]
    } else {
        let m = seq_max(xs.drop_last());
        if xs.last() > m {
            xs.last()
        } else {
            m
        }
    }
}

/// The sum of the entries of a sequence.
pub open spec fn seq_sum(xs: Seq<int>) -> int
    decreases xs.len(),
{
    if xs.len() == 0 {
        0
    } else {
        seq_sum(xs.drop_last()) + xs.last()
    }
}

/// The sum of `e^(x - m)` over the entries `x` of a sequence.
pub open spec fn exp_total(xs: Seq<int>, m: int) -> int
    decreases xs.len(),
{
    if xs.len() == 0 {
        0
    } else {
        exp_total(xs.drop_last(), m) + exp_spec(xs.last() - m)
    }
}

/// The softmax of a vector: entry `i` is `e^(x_i - m)` divided by the sum of
/// all `e^(x_j - m)`, rounded down, where `m` is the largest entry.
pub open spec fn softmax_spec(xs: Seq<int>) -> Seq<int> {
    shares(xs, seq_max(xs), exp_total(xs, seq_max(xs)))
}

/// Entry `i` is `e^(x_i - m)` divided by `total`, rounded down.
pub open spec fn shares(xs: Seq<int>, m: int, total: int) -> Seq<int> {
    Seq::new(xs.len(), |i: int| (exp_spec(xs[i] - m) * ONE) / total)
}

/// The largest entry is an entry, and no entry is larger.
pub proof fn lemma_seq_max(xs: Seq<int>)
    requires
        xs.len() > 0,
    ensures
        exists|i: int| 0 <= i < xs.len() && xs[i] == seq_max(xs),
        forall|i: int| 0 <= i < xs.len() ==> xs[i] <= seq_max(xs),
    decreases xs.len(),
{
    if xs.len() == 1 {
        assert(xs[0] == seq_max(xs));
    } else {
        let front = xs.drop_last();
        lemma_seq_max(front);
        let w = choose|i: int| 0 <= i < front.len() && front[i] == seq_max(front);
        if xs.last() > seq_max(front) {
            assert(xs[xs.len() - 1] == seq_max(xs));
        } else {
            assert(xs[w] == seq_max(xs));
        }
        assert forall|i: int| 0 <= i < xs.len() implies xs[i] <= seq_max(xs) by {
            if i < front.len() {
                assert(front[i] == xs[i]);
            }
        }
    }
}

/// Each term of the sum of exponentials lies between 0 and the sum.
pub proof fn lemma_exp_total_bounds(xs: Seq<int>, m: int, i: int)
    requires
        0 <= i < xs.len(),
    ensures
        0 <= exp_spec(xs[i] - m) <= exp_total(xs, m),
        exp_total(xs, m) <= xs.len() * EXP_MAX,
    decreases xs.len(),
{
    lemma_exp_range(xs.last() - m);
    let front = xs.drop_last();
    if front.len() > 0 {
        let j = if i < front.len() {
            i
        } else {
            0
        };
        lemma_exp_total_bounds(front, m, j);
        assert(front[j] == xs[j]);
    } else {
        assert(exp_total(front, m) == 0);
    }
}

/// Taken at the largest entry, the sum of exponentials is at least 1.
pub proof fn lemma_exp_total_positive(xs: Seq<int>)
    requires
        xs.len() > 0,
    ensures
        exp_total(xs, seq_max(xs)) >= ONE,
{
    lemma_seq_max(xs);
    let w = choose|i: int| 0 <= i < xs.len() && xs[i] == seq_max(xs);
    lemma_exp_total_bounds(xs, seq_max(xs), w);
    crate::exp::lemma_exp_zero();
}

/// The softmax of a vector of numbers.
pub fn softmax(xs: &[Fixed]) -> (ys: Vec<Fixed>)
    ensures
        ys@.len() == xs@.len(),
        raws(ys@) == softmax_spec(raws(xs@)),
{
    let n: usize = xs.len();
    let ghost raw = raws(xs@);
    let mut ys: Vec<Fixed> = Vec::new();
    if n == 0 {
        assert(raws(ys@) =~= softmax_spec(raw));
        return ys;
    }
    let mut m: i32 = xs[0].raw;
    let mut i: usize = 1;
    assert(raw.take(1).len() == 1 && raw.take(1)[0] == raw[0]);
    while i < n
        invariant
            1 <= i <= n,
            n == xs@.len(),
            raw == raws(xs@),
            m == seq_max(raw.take(i as int)),
        decreases n - i,
    {
        proof {
            assert(raw.take(i + 1).drop_last() =~= raw.take(i as int));
            assert(raw.take(i + 1).last() == xs@[i as int].raw);
        }
        if xs[i].raw > m {
            m = xs[i].raw;
        }
        i = i + 1;
    }
    assert(raw.take(n as int) =~= raw);
    let mut es: Vec<i64> = Vec::new();
    let mut total: i128 = 0;
    let mut j: usize = 0;
    assert(exp_total(raw.take(0), m as int) == 0);
    while j < n
        invariant
            0 <= j <= n,
            n == xs@.len(),
            raw == raws(xs@),
            es@.len() == j,
            forall|t: int| 0 <= t < j ==> es@[t] == exp_spec(raw[t] - m),
            total == exp_total(raw.take(j as int), m as int),
            0 <= total <= j * EXP_MAX,
        decreases n - j,
    {
        proof {
            assert(raw.take(j + 1).drop_last() =~= raw.take(j as int));
            assert(raw.take(j + 1).last() == xs@[j as int].raw);
        }
        let e: i64 = exp(xs[j].raw as i64 - m as i64);
        es.push(e);
        total = total + e as i128;
        j = j + 1;
    }
    proof {
        lemma_exp_total_positive(raw);
    }
    let mut k: usize = 0;
    while k < n
        invariant
            0 <= k <= n,
            n == xs@.len(),
            raw == raws(xs@),
            es@.len() == n,
            forall|t: int| 0 <= t < n ==> es@[t] == exp_spec(raw[t] - m),
            total == exp_total(raw, m as int),
            total >= ONE,
            ys@.len() == k,
            forall|t: int| 0 <= t < k ==> ys@[t].raw == (exp_spec(raw[t] - m) * ONE) / total as int,
        decreases n - k,
    {
        let e: i64 = es[k];
        proof {
            lemma_exp_total_bounds(raw, m as int, k as int);
            lemma_share_range(e as int, total as int);
            assert(0 <= e * ONE <= EXP_MAX * ONE) by (nonlinear_arith)
                requires
                    0 <= e <= EXP_MAX,
            ;
        }
        let v: i128 = (e as i128 * ONE as i128) / total;
        ys.push(Fixed { raw: v as i32 });
        k = k + 1;
    }
    assert(raws(ys@) =~= softmax_spec(raw));
    ys
}

/// A share `e * 1 / total` of a positive total lies between 0 and 1 when
/// `e` lies between 0 and the total.
pub proof fn lemma_share_range(e: int, total: int)
    requires
        0 <= e <= total,
        total > 0,
    ensures
        0 <= (e * ONE) / total <= ONE,
{
    assert(0 <= e * ONE <= total * ONE) by (nonlinear_arith)
        requires
            0 <= e <= total,
    ;
    lemma_div_pos_is_pos(e * ONE, total);
    lemma_div_is_ordered(e * ONE, total * ONE, total);
    vstd::arithmetic::div_mod::lemma_div_multiples_vanish(ONE as int, total);
    assert(total * ONE == ONE * total) by (nonlinear_arith);
}

/// The shares of the first `j` entries add up to the sum of their
/// exponentials divided by the total, short of it by less than one raw unit
/// per entry.
proof fn lemma_share_sum(xs: Seq<int>, m: int, total: int, j: int)
    requires
        0 <= j <= xs.len(),
        total > 0,
    ensures
        0 <= ONE * exp_total(xs.take(j), m) - total * seq_sum(shares(xs, m, total).take(j)) <= j
            * (total - 1),
    decreases j,
{
    let ys = shares(xs, m, total);
    if j > 0 {
        lemma_share_sum(xs, m, total, j - 1);
        assert(ys.take(j).drop_last() =~= ys.take(j - 1));
        assert(xs.take(j).drop_last() =~= xs.take(j - 1));
        let e = exp_spec(xs[j - 1] - m);
        let q = (e * ONE) / total;
        let r = (e * ONE) % total;
        assert(ys.take(j).last() == q);
        assert(xs.take(j).last() == xs[j - 1]);
        lemma_fundamental_div_mod(e * ONE, total);
        lemma_mod_bound(e * ONE, total);
        let e0 = exp_total(xs.take(j - 1), m);
        let q0 = seq_sum(ys.take(j - 1));
        assert(exp_total(xs.take(j), m) == e0 + e);
        assert(seq_sum(ys.take(j)) == q0 + q);
        let gap0 = ONE * e0 - total * q0;
        assert(ONE * (e0 + e) - total * (q0 + q) == gap0 + r) by (nonlinear_arith)
            requires
                e * ONE == total * q + r,
                gap0 == ONE * e0 - total * q0,
        ;
        assert(gap0 + r <= j * (total - 1)) by (nonlinear_arith)
            requires
                gap0 <= (j - 1) * (total - 1),
                r <= total - 1,
        ;
    } else {
        assert(ys.take(0).len() == 0);
        assert(xs.take(0).len() == 0);
    }
}

/// A softmax is a probability distribution up to rounding: each entry lies
/// between 0 and 1, and the entries of a vector that is not empty add up to
/// at most 1 and to more than 1 less one raw unit per entry.
pub proof fn lemma_softmax_distribution(xs: Seq<int>)
    ensures
        softmax_spec(xs).len() == xs.len(),
        forall|i: int| 0 <= i < xs.len() ==> 0 <= #[trigger] softmax_spec(xs)[i] <= ONE,
        xs.len() > 0 ==> ONE - xs.len() < seq_sum(softmax_spec(xs)) <= ONE,
{
    if xs.len() > 0 {
        let m = seq_max(xs);
        let total = exp_total(xs, m);
        lemma_exp_total_positive(xs);
        assert forall|i: int| 0 <= i < xs.len() implies 0 <= #[trigger] softmax_spec(xs)[i]
            <= ONE by {
            lemma_exp_total_bounds(xs, m, i);
            lemma_share_range(exp_spec(xs[i] - m), total);
        }
        let n = xs.len() as int;
        lemma_share_sum(xs, m, total, n);
        let ys = softmax_spec(xs);
        assert(ys.take(n) =~= ys);
        assert(xs.take(n) =~= xs);
        let q = seq_sum(ys);
        assert(ONE - n < q <= ONE) by (nonlinear_arith)
            requires
                0 <= ONE * total - total * q <= n * (total - 1),
                total > 0,
                n > 0,
        ;
    }
}

/// Softmax keeps the order of the entries: a larger entry gets a share
/// that is at least as large.
pub proof fn lemma_softmax_keeps_order(xs: Seq<int>, i: int, j: int)
    requires
        0 <= i < xs.len(),
        0 <= j < xs.len(),
        xs[i] <= xs[j],
    ensures
        softmax_spec(xs)[i] <= softmax_spec(xs)[j],
{
    let m = seq_max(xs);
    lemma_exp_total_positive(xs);
    lemma_exp_monotone(xs[i] - m, xs[j] - m);
    lemma_exp_range(xs[i] - m);
    lemma_mul_inequality(exp_spec(xs[i] - m), exp_spec(xs[j] - m), ONE as int);
    lemma_div_is_ordered(exp_spec(xs[i] - m) * ONE, exp_spec(xs[j] - m) * ONE, exp_total(xs, m));
}

/// A sequence with `c` added to each entry.
pub open spec fn shifted(xs: Seq<int>, c: int) -> Seq<int> {
    Seq::new(xs.len(), |i: int| xs[i] + c)
}

/// Adding `c` to each entry adds `c` to the largest entry.
pub proof fn lemma_seq_max_shifted(xs: Seq<int>, c: int)
    requires
        xs.len() > 0,
    ensures
        seq_max(shifted(xs, c)) == seq_max(xs) + c,
    decreases xs.len(),
{
    if xs.len() > 1 {
        lemma_seq_max_shifted(xs.drop_last(), c);
        assert(shifted(xs, c).drop_last() =~= shifted(xs.drop_last(), c));
    }
}

/// The sum of exponentials does not change when `c` is added to each entry
/// and to the reference `m`.
pub proof fn lemma_exp_total_shifted(xs: Seq<int>, m: int, c: int)
    ensures
        exp_total(shifted(xs, c), m + c) == exp_total(xs, m),
    decreases xs.len(),
{
    if xs.len() > 0 {
        lemma_exp_total_shifted(xs.drop_last(), m, c);
        assert(shifted(xs, c).drop_last() =~= shifted(xs.drop_last(), c));
        assert(shifted(xs, c).last() - (m + c) == xs.last() - m);
    }
}

/// Softmax is shift-invariant: adding the same number to every entry leaves
/// the result unchanged, exactly.
pub proof fn lemma_softmax_shift_invariant(xs: Seq<int>, c: int)
    ensures
        softmax_spec(shifted(xs, c)) == softmax_spec(xs),
{
    if xs.len() > 0 {
        lemma_seq_max_shifted(xs, c);
        lemma_exp_total_shifted(xs, seq_max(xs), c);
        assert forall|i: int| 0 <= i < xs.len() implies softmax_spec(shifted(xs, c))[i]
            == softmax_spec(xs)[i] by {
            assert(shifted(xs, c)[i] - (seq_max(xs) + c) == xs[i] - seq_max(xs));
        }
    }
    assert(softmax_spec(shifted(xs, c)) =~= softmax_spec(xs));
}

/// Names an activation function.
#[derive(Debug, Clone, Copy, PartialEq, Eq, Structural)]
pub enum ActivationType {
    ReLU,
    Sigmoid,
    Softmax,
}

/// The sequence whose entry `i` is `f(xs[i])`.
pub open spec fn each(xs: Seq<int>, f: spec_fn(int) -> int) -> Seq<int> {
    Seq::new(xs.len(), |i: int| f(xs[i]))
}

/// An activation function on vectors, with its derivative where it has one.
/// Both keep the length of their argument.
pub trait Activation {
    /// The raw values of `activate`'s result, from those of its argument.
    spec fn activated(&self, x: Seq<int>) -> Seq<int>;

    /// The raw values of `derivative`'s result, or `None` where the
    /// activation offers no derivative.
    spec fn differentiated(&self, x: Seq<int>) -> Option<Seq<int>>;

    /// The name of this activation.
    spec fn kind(&self) -> ActivationType;

    /// Applies the activation to a vector.
    fn activate(&self, x: &[Fixed]) -> (y: Vec<Fixed>)
        ensures
            y@.len() == x@.len(),
            raws(y@) == self.activated(raws(x@)),
    ;

    /// The derivative of the activation at a vector, entry by entry;
    /// `UnsupportedOperation` where the activation offers none.
    fn derivative(&self, x: &[Fixed]) -> (d: Result<Vec<Fixed>, NeuralError>)
        ensures
            match d {
                Ok(v) => v@.len() == x@.len() && self.differentiated(raws(x@)) == Some(raws(v@)),
                Err(e) => e == NeuralError::UnsupportedOperation && self.differentiated(raws(x@))
                    is None,
            },
    ;

    /// The name of this activation.
    fn get_type(&self) -> (t: ActivationType)
        ensures
            t == self.kind(),
    ;
}

/// The rectifier, entry by entry.
#[derive(Debug, Clone, Copy)]
pub struct ReLU;

/// The logistic function, entry by entry.
#[derive(Debug, Clone, Copy)]
pub struct Sigmoid;

/// The softmax of the whole vector. It offers no derivative.
#[derive(Debug, Clone, Copy)]
pub struct Softmax;

impl Activation for ReLU {
    open spec fn activated(&self, x: Seq<int>) -> Seq<int> {
        each(x, |v: int| relu_spec(v))
    }

    open spec fn differentiated(&self, x: Seq<int>) -> Option<Seq<int>> {
        Some(each(x, |v: int| relu_derivative_spec(v)))
    }

    open spec fn kind(&self) -> ActivationType {
        ActivationType::ReLU
    }

    fn activate(&self, x: &[Fixed]) -> (y: Vec<Fixed>) {
        let mut y: Vec<Fixed> = Vec::new();
        let mut i: usize = 0;
        while i < x.len()
            invariant
                0 <= i <= x@.len(),
                y@.len() == i,
                forall|t: int| 0 <= t < i ==> y@[t].raw == relu_spec(x@[t].raw as int),
            decreases x@.len() - i,
        {
            y.push(relu(x[i]));
            i = i + 1;
        }
        assert(raws(y@) =~= self.activated(raws(x@)));
        y
    }

    fn derivative(&self, x: &[Fixed]) -> (d: Result<Vec<Fixed>, NeuralError>) {
        let mut y: Vec<Fixed> = Vec::new();
        let mut i: usize = 0;
        while i < x.len()
            invariant
                0 <= i <= x@.len(),
                y@.len() == i,
                forall|t: int| 0 <= t < i ==> y@[t].raw == relu_derivative_spec(x@[t].raw as int),
            decreases x@.len() - i,
        {
            y.push(relu_derivative(x[i]));
            i = i + 1;
        }
        assert(raws(y@) =~= each(raws(x@), |v: int| relu_derivative_spec(v)));
        Ok(y)
    }

    fn get_type(&self) -> (t: ActivationType) {
        ActivationType::ReLU
    }
}

impl Activation for Sigmoid {
    open spec fn activated(&self, x: Seq<int>) -> Seq<int> {
        each(x, |v: int| sigmoid_spec(v))
    }

    open spec fn differentiated(&self, x: Seq<int>) -> Option<Seq<int>> {
        Some(each(x, |v: int| sigmoid_derivative_spec(v)))
    }

    open spec fn kind(&self) -> ActivationType {
        ActivationType::Sigmoid
    }

    fn activate(&self, x: &[Fixed]) -> (y: Vec<Fixed>) {
        let mut y: Vec<Fixed> = Vec::new();
        let mut i: usize = 0;
        while i < x.len()
            invariant
                0 <= i <= x@.len(),
                y@.len() == i,
                forall|t: int| 0 <= t < i ==> y@[t].raw == sigmoid_spec(x@[t].raw as int),
            decreases x@.len() - i,
        {
            y.push(sigmoid(x[i]));
            i = i + 1;
        }
        assert(raws(y@) =~= self.activated(raws(x@)));
        y
    }

    fn derivative(&self, x: &[Fixed]) -> (d: Result<Vec<Fixed>, NeuralError>) {
        let mut y: Vec<Fixed> = Vec::new();
        let mut i: usize = 0;
        while i < x.len()
            invariant
                0 <= i <= x@.len(),
                y@.len() == i,
                forall|t: int| 0 <= t < i ==> y@[t].raw == sigmoid_derivative_spec(
                    x@[t].raw as int,
                ),
            decreases x@.len() - i,
        {
            y.push(sigmoid_derivative(x[i]));
            i = i + 1;
        }
        assert(raws(y@) =~= each(raws(x@), |v: int| sigmoid_derivative_spec(v)));
        Ok(y)
    }

    fn get_type(&self) -> (t: ActivationType) {
        ActivationType::Sigmoid
    }
}

impl Activation for Softmax {
    open spec fn activated(&self, x: Seq<int>) -> Seq<int> {
        softmax_spec(x)
    }

    open spec fn differentiated(&self, x: Seq<int>) -> Option<Seq<int>> {
        None
    }

    open spec fn kind(&self) -> ActivationType {
        ActivationType::Softmax
    }

    fn activate(&self, x: &[Fixed]) -> (y: Vec<Fixed>) {
        softmax(x)
    }

    fn derivative(&self, x: &[Fixed]) -> (d: Result<Vec<Fixed>, NeuralError>) {
        Err(NeuralError::UnsupportedOperation)
    }

    fn get_type(&self) -> (t: ActivationType) {
        ActivationType::Softmax
    }
}

impl Activation for ActivationType {
    open spec fn activated(&self, x: Seq<int>) -> Seq<int> {
        match self {
            ActivationType::ReLU => ReLU.activated(x),
            ActivationType::Sigmoid => Sigmoid.activated(x),
            ActivationType::Softmax => Softmax.activated(x),
        }
    }

    open spec fn differentiated(&self, x: Seq<int>) -> Option<Seq<int>> {
        match self {
            ActivationType::ReLU => ReLU.differentiated(x),
            ActivationType::Sigmoid => Sigmoid.differentiated(x),
            ActivationType::Softmax => Softmax.differentiated(x),
        }
    }

    open spec fn kind(&self) -> ActivationType {
        *self
    }

    fn activate(&self, x: &[Fixed]) -> (y: Vec<Fixed>) {
        match self {
            ActivationType::ReLU => ReLU.activate(x),
            ActivationType::Sigmoid => Sigmoid.activate(x),
            ActivationType::Softmax => Softmax.activate(x),
        }
    }

    fn derivative(&self, x: &[Fixed]) -> (d: Result<Vec<Fixed>, NeuralError>) {
        match self {
            ActivationType::ReLU => ReLU.derivative(x),
            ActivationType::Sigmoid => Sigmoid.derivative(x),
            ActivationType::Softmax => Softmax.derivative(x),
        }
    }

    fn get_type(&self) -> (t: ActivationType) {
        *self
    }
}

/// The rectifier never yields a negative entry; its derivative is 0 or 1,
/// and 1 exactly where the argument is positive.
pub proof fn lemma_relu_entries(x: Seq<int>, i: int)
    requires
        0 <= i < x.len(),
    ensures
        ReLU.activated(x)[i] >= 0,
        ReLU.differentiated(x) is Some,
        ReLU.differentiated(x).unwrap().len() == x.len(),
        ReLU.differentiated(x).unwrap()[i] == 0 || ReLU.differentiated(x).unwrap()[i] == ONE,
        ReLU.differentiated(x).unwrap()[i] == ONE <==> x[i] > 0,
{
}

/// The sigmoid is above 0 exactly for arguments above `EXP_UNIT_FROM`
/// (about -16.118), and below 1 exactly for arguments up to `-EXP_UNIT_FROM`
/// (about 16.118): outside, it is rounded to 0 or to 1.
pub proof fn lemma_sigmoid_strict(x: int)
    ensures
        sigmoid_spec(x) > 0 <==> x > EXP_UNIT_FROM,
        sigmoid_spec(x) < ONE <==> x <= -EXP_UNIT_FROM,
{
    lemma_sigmoid_range(x);
    lemma_exp_range(-x);
    lemma_exp_thresholds(-x);
    let e = exp_spec(-x);
    let d = ONE + e;
    let n: int = ONE * ONE;
    lemma_fundamental_div_mod(n, d);
    lemma_mod_bound(n, d);
    assert(n / d > 0 <==> d <= n) by (nonlinear_arith)
        requires
            n == d * (n / d) + n % d,
            0 <= n % d < d,
            n / d >= 0,
            d > 0,
    ;
    assert(n / d < ONE <==> d > ONE) by (nonlinear_arith)
        requires
            n == d * (n / d) + n % d,
            0 <= n % d < d,
            n == ONE * ONE,
            d >= ONE,
    ;
}

/// Each entry of a sigmoid lies between 0 and 1, and strictly between them
/// for arguments above `EXP_UNIT_FROM` and up to `-EXP_UNIT_FROM`. The
/// derivative is `s * (1 - s)` of the activation `s`.
pub proof fn lemma_sigmoid_entries(x: Seq<int>, i: int)
    requires
        0 <= i < x.len(),
    ensures
        0 <= Sigmoid.activated(x)[i] <= ONE,
        EXP_UNIT_FROM < x[i] <= -EXP_UNIT_FROM ==> 0 < Sigmoid.activated(x)[i] < ONE,
        Sigmoid.differentiated(x) is Some,
        Sigmoid.differentiated(x).unwrap().len() == x.len(),
        Sigmoid.differentiated(x).unwrap()[i] == (Sigmoid.activated(x)[i] * (ONE
            - Sigmoid.activated(x)[i])) / (ONE as int),
{
    lemma_sigmoid_range(x[i]);
    lemma_sigmoid_strict(x[i]);
}

/// Every activation keeps the length of its argument.
pub proof fn lemma_activation_keeps_length(a: ActivationType, x: Seq<int>)
    ensures
        a.activated(x).len() == x.len(),
        a.differentiated(x) is Some ==> a.differentiated(x).unwrap().len() == x.len(),
{
}

} // verus!
