//! The number type of the library and its rounding rules.
use vstd::prelude::*;
use vstd::arithmetic::div_mod::{lemma_fundamental_div_mod, lemma_mod_bound};

verus! {

/// The raw value that stands for 1.
pub const ONE: i32 = 10_000_000;

/// A decimal fixed-point number: `raw` counts ten-millionths, so the value
/// is `raw / ONE`. Every `i32` is a valid `raw`.
#[derive(Clone, Copy, Debug, PartialEq, Eq, Structural)]
pub struct Fixed {
    pub raw: i32,
}

/// The nearest raw value that a `Fixed` can hold.
pub open spec fn saturate(v: int) -> int {
    if v < i32::MIN {
        i32::MIN as int
    } else if v > i32::MAX {
        i32::MAX as int
    } else {
        v
    }
}

/// The raw values of a sequence of numbers.
pub open spec fn raws(s: Seq<Fixed>) -> Seq<int> {
    Seq::new(s.len(), |i: int| s[i].raw as int)
}

/// Quotient and remainder of `a` by a positive `d`, the quotient rounded
/// towards minus infinity.
pub fn floor_div_rem(a: i128, d: i128) -> (qr: (i128, i128))
    requires
        d > 0,
    ensures
        qr.0 == a / d,
        qr.1 == a % d,
{
    proof {
        lemma_fundamental_div_mod(a as int, d as int);
        lemma_mod_bound(a as int, d as int);
        assert(i128::MIN <= a / d <= i128::MAX) by (nonlinear_arith)
            requires
                d >= 1,
                a == d * (a / d) + a % d,
                0 <= a % d < d,
                i128::MIN <= a <= i128::MAX,
        ;
    }
    let q: i128 = a.checked_div_euclid(d).unwrap();
    let m: i128 = a.checked_rem_euclid(d).unwrap();
    (q, m)
}

impl Fixed {
    /// The number with the given raw value, saturated to the range of `Fixed`.
    pub fn saturating(v: i128) -> (r: Fixed)
        ensures
            r.raw == saturate(v as int),
    {
        if v < -2147483648 {
            Fixed { raw: -2147483648 }
        } else if v > 2147483647 {
            Fixed { raw: 2147483647 }
        } else {
            Fixed { raw: v as i32 }
        }
    }
}

/// The sum of the products `w[i] * x[i]` over the first `n` indices.
pub open spec fn dot_prefix(w: Seq<int>, x: Seq<int>, n: int) -> int
    decreases n,
{
    if n <= 0 {
        0
    } else {
        dot_prefix(w, x, n - 1) + w[n - 1] * x[n - 1]
    }
}

/// The inner product of two vectors of raw values, over the first `n`
/// entries of each. The result is exact: it counts units of `1 / (ONE * ONE)`.
pub fn inner_product(w: &[Fixed], x: &[Fixed], n: usize) -> (s: i128)
    requires
        n <= w@.len(),
        n <= x@.len(),
    ensures
        s == dot_prefix(raws(w@), raws(x@), n as int),
        -(n * 0x4000_0000_0000_0000) <= s <= n * 0x4000_0000_0000_0000,
{
    let mut s: i128 = 0;
    let mut i: usize = 0;
    while i < n
        invariant
            0 <= i <= n,
            n <= w@.len(),
            n <= x@.len(),
            s == dot_prefix(raws(w@), raws(x@), i as int),
            -(i * 0x4000_0000_0000_0000) <= s <= i * 0x4000_0000_0000_0000,
        decreases n - i,
    {
        let a: i64 = w[i].raw as i64;
        let b: i64 = x[i].raw as i64;
        assert(-0x4000_0000_0000_0000 <= a * b <= 0x4000_0000_0000_0000) by (nonlinear_arith)
            requires
                -0x8000_0000 <= a <= 0x7fff_ffff,
                -0x8000_0000 <= b <= 0x7fff_ffff,
        ;
        s = s + (a * b) as i128;
        i = i + 1;
    }
    s
}

} // verus!
