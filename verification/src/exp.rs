//! The exponential function on fixed-point numbers.
//!
//! An argument `x` (raw units) is split as `x = k * ln 2 + r` with
//! `0 <= r < ln 2`; `e^r` is a Taylor polynomial and `e^x = 2^k * e^r`.
//! The polynomial is evaluated at eighteen decimal digits and the result
//! rounded down to raw units.
use vstd::prelude::*;
use vstd::arithmetic::power2::*;
use vstd::arithmetic::div_mod::*;
use vstd::arithmetic::mul::*;
use crate::fixed::{floor_div_rem, ONE};

verus! {

/// The unit of the polynomial's arithmetic: 1 is held as `WIDE`.
pub const WIDE: i128 = 1_000_000_000_000_000_000;

/// Wide units per raw unit.
pub const LIFT: i128 = 100_000_000_000;

/// The natural logarithm of 2 in wide units, rounded down.
pub const LN2: i128 = 693_147_180_559_945_309;

/// Degree of the Taylor polynomial.
pub const TERMS: i128 = 18;

/// The largest result of `exp`: larger values are reported as this one.
pub const EXP_MAX: i64 = 1_000_000_000_000_000_000;

/// The least argument at which `exp` gives a raw unit or more: just above
/// the natural logarithm of `1 / ONE`.
pub const EXP_UNIT_FROM: i64 = -161_180_956;

/// The Taylor polynomial of `e^r` from its term `k - 1` on, in Horner form:
/// `1 + r/k * (1 + r/(k+1) * (... (1 + r/TERMS)))`, in wide units, each
/// quotient rounded down.
pub open spec fn exp_series(r: int, k: int) -> int
    decreases TERMS + 1 - k,
{
    if k > TERMS {
        WIDE as int
    } else {
        WIDE + (r * exp_series(r, k + 1)) / (k * WIDE)
    }
}

/// `e^x` in raw units for `x` in raw units, rounded down, before it is
/// capped: with `x * LIFT = k * LN2 + r`, it is `2^k` times the polynomial
/// at `r`.
pub open spec fn exp_uncapped(x: int) -> int {
    let t = x * LIFT;
    let k = t / (LN2 as int);
    let p = exp_series(t % (LN2 as int), 1);
    if k >= 0 {
        (p * pow2(k as nat)) / (LIFT as int)
    } else {
        p / (LIFT * pow2((-k) as nat))
    }
}

/// `e^x` in raw units for `x` in raw units, rounded down and capped at `EXP_MAX`.
pub open spec fn exp_spec(x: int) -> int {
    if exp_uncapped(x) > EXP_MAX {
        EXP_MAX as int
    } else {
        exp_uncapped(x)
    }
}

/// The polynomial lies between 1 and 4 on the reduced range.
pub proof fn lemma_series_bounds(r: int, k: int)
    requires
        0 <= r < LN2,
        1 <= k <= TERMS + 1,
    ensures
        WIDE <= exp_series(r, k) <= 4 * WIDE,
    decreases TERMS + 1 - k,
{
    if k <= TERMS {
        lemma_series_bounds(r, k + 1);
        let s = exp_series(r, k + 1);
        let d = k * WIDE;
        assert(0 <= r * s <= LN2 * (4 * WIDE)) by (nonlinear_arith)
            requires
                0 <= r < LN2,
                WIDE <= s <= 4 * WIDE,
        ;
        lemma_div_is_ordered(r * s, LN2 * (4 * WIDE), d);
        lemma_div_is_ordered_by_denominator(LN2 * (4 * WIDE), WIDE as int, d);
        lemma_div_pos_is_pos(r * s, d);
        assert((LN2 * (4 * WIDE)) / (WIDE as int) == 4 * LN2);
    }
}

/// At 0 the polynomial is exactly 1.
pub proof fn lemma_series_at_zero(k: int)
    requires
        1 <= k <= TERMS + 1,
    ensures
        exp_series(0, k) == WIDE,
    decreases TERMS + 1 - k,
{
    if k <= TERMS {
        lemma_series_at_zero(k + 1);
        assert(0 * exp_series(0, k + 1) == 0);
        assert(0int / (k * WIDE) == 0);
    }
}

/// `e^0 = 1`, exactly.
pub proof fn lemma_exp_zero()
    ensures
        exp_spec(0) == ONE,
{
    lemma_series_at_zero(1);
    lemma2_to64();
        lemma2_to64_rest();
    assert(0int % (LN2 as int) == 0);
    assert(0int / (LN2 as int) == 0);
}

/// The exponential is never negative and never above its cap, and the cap
/// is reached only from arguments that are not negative.
pub proof fn lemma_exp_range(x: int)
    ensures
        0 <= exp_spec(x) <= EXP_MAX,
        x < 0 ==> exp_spec(x) == exp_uncapped(x),
{
    let t = x * LIFT;
    let k = t / (LN2 as int);
    let r = t % (LN2 as int);
    lemma_series_bounds(r, 1);
    let p = exp_series(r, 1);
    if x < 0 {
        assert(t < 0) by (nonlinear_arith)
            requires
                t == x * LIFT,
                x < 0,
        ;
        lemma_fundamental_div_mod(t, LN2 as int);
        assert(k < 0) by (nonlinear_arith)
            requires
                t == LN2 * k + r,
                0 <= r,
                t < 0,
        ;
    }
    if k >= 0 {
        lemma_pow2_pos(k as nat);
        assert(p * pow2(k as nat) >= 0) by (nonlinear_arith)
            requires
                p >= 0,
                pow2(k as nat) > 0,
        ;
        lemma_div_pos_is_pos(p * pow2(k as nat), LIFT as int);
    } else {
        lemma_pow2_pos((-k) as nat);
        let d = LIFT * pow2((-k) as nat);
        assert(d >= LIFT) by (nonlinear_arith)
            requires
                d == LIFT * pow2((-k) as nat),
                pow2((-k) as nat) > 0,
        ;
        lemma_div_pos_is_pos(p, d);
        lemma_div_is_ordered_by_denominator(p, LIFT as int, d);
        lemma_div_is_ordered(p, 4 * WIDE, LIFT as int);
    }
}

/// For an argument that is not negative, the exponential is at least 1.
pub proof fn lemma_exp_at_least_one(x: int)
    requires
        x >= 0,
    ensures
        exp_spec(x) >= ONE,
{
    let t = x * LIFT;
    let k = t / (LN2 as int);
    let r = t % (LN2 as int);
    lemma_series_bounds(r, 1);
    let p = exp_series(r, 1);
    lemma_div_pos_is_pos(t, LN2 as int);
    lemma_pow2_pos(k as nat);
    assert(p * pow2(k as nat) >= WIDE) by (nonlinear_arith)
        requires
            p >= WIDE,
            pow2(k as nat) >= 1,
    ;
    lemma_div_is_ordered(WIDE as int, p * pow2(k as nat), LIFT as int);
}

/// The polynomial does not decrease when its argument grows.
pub proof fn lemma_series_monotone(r1: int, r2: int, k: int)
    requires
        0 <= r1 <= r2 < LN2,
        1 <= k <= TERMS + 1,
    ensures
        exp_series(r1, k) <= exp_series(r2, k),
    decreases TERMS + 1 - k,
{
    if k <= TERMS {
        lemma_series_monotone(r1, r2, k + 1);
        lemma_series_bounds(r1, k + 1);
        let s1 = exp_series(r1, k + 1);
        let s2 = exp_series(r2, k + 1);
        assert(r1 * s1 <= r2 * s2) by (nonlinear_arith)
            requires
                0 <= r1 <= r2,
                0 <= s1 <= s2,
        ;
        lemma_div_is_ordered(r1 * s1, r2 * s2, k * WIDE);
    }
}

/// One step of the polynomial's evaluation.
proof fn lemma_series_step(r: int, k: int, next: int, value: int)
    requires
        1 <= k <= TERMS,
        exp_series(r, k + 1) == next,
        value == 1_000_000_000_000_000_000 + (r * next) / (k * 1_000_000_000_000_000_000),
    ensures
        exp_series(r, k) == value,
{
}

/// At the top of the reduced range the polynomial is just below 2.
proof fn lemma_series_top()
    ensures
        exp_series(LN2 - 1, 1) == 1_999_999_999_999_999_997,
{
    lemma_series_step(693_147_180_559_945_308, 18, 1_000_000_000_000_000_000, 1_038_508_176_697_774_739);
    lemma_series_step(693_147_180_559_945_308, 17, 1_038_508_176_697_774_739, 1_042_343_471_450_971_297);
    lemma_series_step(693_147_180_559_945_308, 16, 1_042_343_471_450_971_297, 1_045_156_089_900_706_662);
    lemma_series_step(693_147_180_559_945_308, 15, 1_045_156_089_900_706_662, 1_048_296_466_463_982_103);
    lemma_series_step(693_147_180_559_945_308, 14, 1_048_296_466_463_982_103, 1_051_901_695_722_890_175);
    lemma_series_step(693_147_180_559_945_308, 13, 1_051_901_695_722_890_175, 1_056_086_361_124_349_754);
    lemma_series_step(693_147_180_559_945_308, 12, 1_056_086_361_124_349_754, 1_061_001_940_303_429_605);
    lemma_series_step(693_147_180_559_945_308, 11, 1_061_001_940_303_429_605, 1_066_857_318_499_086_693);
    lemma_series_step(693_147_180_559_945_308, 10, 1_066_857_318_499_086_693, 1_073_948_914_237_738_552);
    lemma_series_step(693_147_180_559_945_308, 9, 1_073_948_914_237_738_552, 1_082_711_629_107_700_331);
    lemma_series_step(693_147_180_559_945_308, 8, 1_082_711_629_107_700_331, 1_093_809_814_134_433_462);
    lemma_series_step(693_147_180_559_945_308, 7, 1_093_809_814_134_433_462, 1_108_310_169_819_440_052);
    lemma_series_step(693_147_180_559_945_308, 6, 1_108_310_169_819_440_052, 1_128_037_011_566_043_176);
    lemma_series_step(693_147_180_559_945_308, 5, 1_128_037_011_566_043_176, 1_156_379_134_826_853_848);
    lemma_series_step(693_147_180_559_945_308, 4, 1_156_379_134_826_853_848, 1_200_385_234_240_895_650);
    lemma_series_step(693_147_180_559_945_308, 3, 1_200_385_234_240_895_650, 1_277_347_880_233_288_780);
    lemma_series_step(693_147_180_559_945_308, 2, 1_277_347_880_233_288_780, 1_442_695_040_888_963_406);
    lemma_series_step(693_147_180_559_945_308, 1, 1_442_695_040_888_963_406, 1_999_999_999_999_999_997);
}

/// On the reduced range the polynomial stays below 2.
pub proof fn lemma_series_below_two(r: int)
    requires
        0 <= r < LN2,
    ensures
        exp_series(r, 1) < 2 * WIDE,
{
    lemma_series_monotone(r, LN2 - 1, 1);
    lemma_series_top();
}

/// The exponential never decreases: a larger argument gives a result that
/// is at least as large.
pub proof fn lemma_exp_monotone(x1: int, x2: int)
    requires
        x1 <= x2,
    ensures
        exp_spec(x1) <= exp_spec(x2),
{
    let l = LN2 as int;
    let t1 = x1 * LIFT;
    let t2 = x2 * LIFT;
    let k1 = t1 / l;
    let k2 = t2 / l;
    let r1 = t1 % l;
    let r2 = t2 % l;
    let v1 = exp_series(r1, 1);
    let v2 = exp_series(r2, 1);
    lemma_div_is_ordered(t1, t2, l);
    lemma_fundamental_div_mod(t1, l);
    lemma_fundamental_div_mod(t2, l);
    lemma_series_bounds(r1, 1);
    lemma_series_bounds(r2, 1);
    lemma_series_below_two(r1);
    lemma_exp_range(x1);
    lemma_exp_range(x2);
    if k1 == k2 {
        assert(r1 <= r2) by (nonlinear_arith)
            requires
                t1 == l * k1 + r1,
                t2 == l * k1 + r2,
                t1 <= t2,
        ;
        lemma_series_monotone(r1, r2, 1);
        if k1 >= 0 {
            lemma_pow2_pos(k1 as nat);
            lemma_mul_inequality(v1, v2, pow2(k1 as nat) as int);
            lemma_div_is_ordered(v1 * pow2(k1 as nat), v2 * pow2(k1 as nat), LIFT as int);
        } else {
            lemma_pow2_pos((-k1) as nat);
            lemma_mul_strictly_positive(LIFT as int, pow2((-k1) as nat) as int);
            lemma_div_is_ordered(v1, v2, LIFT * pow2((-k1) as nat));
        }
    } else if k1 >= 0 {
        let a = pow2(k1 as nat) as int;
        let b = pow2(k2 as nat) as int;
        lemma_pow2_pos(k1 as nat);
        lemma_pow2_unfold((k1 + 1) as nat);
        if k1 + 1 < k2 {
            lemma_pow2_strictly_increases((k1 + 1) as nat, k2 as nat);
        }
        assert(v1 * a <= v2 * b) by (nonlinear_arith)
            requires
                0 <= v1 <= 2 * WIDE,
                v2 >= WIDE,
                a > 0,
                b >= 2 * a,
        ;
        lemma_div_is_ordered(v1 * a, v2 * b, LIFT as int);
    } else if k2 >= 0 {
        let d = LIFT * pow2((-k1) as nat);
        lemma2_to64();
        lemma_pow2_strictly_increases(0, (-k1) as nat);
        assert(d > 0 && v1 <= ONE * d) by (nonlinear_arith)
            requires
                d == LIFT * pow2((-k1) as nat),
                pow2((-k1) as nat) >= 2,
                v1 <= 2 * WIDE,
        ;
        lemma_div_is_ordered(v1, ONE * d, d);
        lemma_div_multiples_vanish(ONE as int, d);
        lemma_pow2_pos(k2 as nat);
        assert(v2 * pow2(k2 as nat) >= WIDE) by (nonlinear_arith)
            requires
                v2 >= WIDE,
                pow2(k2 as nat) >= 1,
        ;
        lemma_div_is_ordered(WIDE as int, v2 * pow2(k2 as nat), LIFT as int);
    } else {
        let a = pow2((-k1) as nat) as int;
        let b = pow2((-k2) as nat) as int;
        lemma_pow2_pos((-k2) as nat);
        lemma_pow2_unfold((-k2 + 1) as nat);
        if -k2 + 1 < -k1 {
            lemma_pow2_strictly_increases((-k2 + 1) as nat, (-k1) as nat);
        }
        let d2 = LIFT * b;
        let d1 = LIFT * a;
        assert(d2 > 0 && d1 >= 2 * d2) by (nonlinear_arith)
            requires
                d1 == LIFT * a,
                d2 == LIFT * b,
                b > 0,
                a >= 2 * b,
        ;
        lemma_div_is_ordered(v1, 2 * WIDE, d1);
        lemma_div_is_ordered_by_denominator(2 * WIDE, 2 * d2, d1);
        lemma_div_denominator(2 * WIDE, 2, d2);
        lemma_div_is_ordered(WIDE as int, v2, d2);
    }
}

/// The value of the exponential at `x`, from the split `x * LIFT = k * LN2 + r`,
/// the polynomial `p` at `r` and `f = 2^|k|`.
proof fn lemma_exp_value(x: int, k: int, r: int, p: int, f: int, value: int)
    requires
        x * 100_000_000_000 == k * 693_147_180_559_945_309 + r,
        0 <= r < 693_147_180_559_945_309,
        exp_series(r, 1) == p,
        f == pow2((if k >= 0 { k } else { -k }) as nat),
        k >= 0 ==> value == (p * f) / 100_000_000_000,
        k < 0 ==> value == p / (100_000_000_000 * f),
        value <= EXP_MAX,
    ensures
        exp_spec(x) == value,
{
    lemma_fundamental_div_mod_converse(x * LIFT, LN2 as int, k, r);
}

/// The exponential at -161_180_957.
proof fn lemma_exp_below_one_unit()
    ensures
        exp_spec(-161_180_957) == 0,
{
    lemma_series_step(517_436_633_438_687_416, 18, 1_000_000_000_000_000_000, 1_028_746_479_635_482_634);
    lemma_series_step(517_436_633_438_687_416, 17, 1_028_746_479_635_482_634, 1_031_312_418_534_381_490);
    lemma_series_step(517_436_633_438_687_416, 16, 1_031_312_418_534_381_490, 1_033_352_426_616_871_308);
    lemma_series_step(517_436_633_438_687_416, 15, 1_033_352_426_616_871_308, 1_035_646_293_385_622_145);
    lemma_series_step(517_436_633_438_687_416, 14, 1_035_646_293_385_622_145, 1_038_277_237_963_050_820);
    lemma_series_step(517_436_633_438_687_416, 13, 1_038_277_237_963_050_820, 1_041_326_359_891_355_381);
    lemma_series_step(517_436_633_438_687_416, 12, 1_041_326_359_891_355_381, 1_044_901_700_497_762_162);
    lemma_series_step(517_436_633_438_687_416, 11, 1_044_901_700_497_762_162, 1_049_151_856_198_174_700);
    lemma_series_step(517_436_633_438_687_416, 10, 1_049_151_856_198_174_700, 1_054_286_960_443_713_341);
    lemma_series_step(517_436_633_438_687_416, 9, 1_054_286_960_443_713_341, 1_060_614_077_276_700_182);
    lemma_series_step(517_436_633_438_687_416, 8, 1_060_614_077_276_700_182, 1_068_600_072_190_466_950);
    lemma_series_step(517_436_633_438_687_416, 7, 1_068_600_072_190_466_950, 1_078_990_403_406_653_365);
    lemma_series_step(517_436_633_438_687_416, 6, 1_078_990_403_406_653_365, 1_093_051_526_975_231_659);
    lemma_series_step(517_436_633_438_687_416, 5, 1_093_051_526_975_231_659, 1_113_116_980_458_616_098);
    lemma_series_step(517_436_633_438_687_416, 4, 1_113_116_980_458_616_098, 1_143_991_875_747_985_880);
    lemma_series_step(517_436_633_438_687_416, 3, 1_143_991_875_747_985_880, 1_197_314_434_956_082_336);
    lemma_series_step(517_436_633_438_687_416, 2, 1_197_314_434_956_082_336, 1_309_767_175_195_609_761);
    lemma_series_step(517_436_633_438_687_416, 1, 1_309_767_175_195_609_761, 1_677_721_517_721_715_808);
    lemma2_to64();
    lemma_exp_value(-161_180_957, -24, 517_436_633_438_687_416, 1_677_721_517_721_715_808, 16_777_216, 0);
}

/// The exponential at -161_180_956.
proof fn lemma_exp_one_unit()
    ensures
        exp_spec(-161_180_956) == 1,
{
    lemma_series_step(517_436_733_438_687_416, 18, 1_000_000_000_000_000_000, 1_028_746_485_191_038_189);
    lemma_series_step(517_436_733_438_687_416, 17, 1_028_746_485_191_038_189, 1_031_312_424_754_928_342);
    lemma_series_step(517_436_733_438_687_416, 16, 1_031_312_424_754_928_342, 1_033_352_433_263_745_139);
    lemma_series_step(517_436_733_438_687_416, 15, 1_033_352_433_263_745_139, 1_035_646_300_503_927_434);
    lemma_series_step(517_436_733_438_687_416, 14, 1_035_646_300_503_927_434, 1_038_277_245_623_615_247);
    lemma_series_step(517_436_733_438_687_416, 13, 1_038_277_245_623_615_247, 1_041_326_368_183_015_475);
    lemma_series_step(517_436_733_438_687_416, 12, 1_041_326_368_183_015_475, 1_044_901_709_533_015_953);
    lemma_series_step(517_436_733_438_687_416, 11, 1_044_901_709_533_015_953, 1_049_151_866_122_296_723);
    lemma_series_step(517_436_733_438_687_416, 10, 1_049_151_866_122_296_723, 1_054_286_971_448_742_431);
    lemma_series_step(517_436_733_438_687_416, 9, 1_054_286_971_448_742_431, 1_060_614_089_623_711_554);
    lemma_series_step(517_436_733_438_687_416, 8, 1_060_614_089_623_711_554, 1_068_600_086_246_742_570);
    lemma_series_step(517_436_733_438_687_416, 7, 1_068_600_086_246_742_570, 1_078_990_419_711_402_016);
    lemma_series_step(517_436_733_438_687_416, 6, 1_078_990_419_711_402_016, 1_093_051_546_364_517_696);
    lemma_series_step(517_436_733_438_687_416, 5, 1_093_051_546_364_517_696, 1_113_117_004_326_192_404);
    lemma_series_step(517_436_733_438_687_416, 4, 1_113_117_004_326_192_404, 1_143_991_906_663_400_571);
    lemma_series_step(517_436_733_438_687_416, 3, 1_143_991_906_663_400_571, 1_197_314_478_421_401_925);
    lemma_series_step(517_436_733_438_687_416, 2, 1_197_314_478_421_401_925, 1_309_767_246_306_608_002);
    lemma_series_step(517_436_733_438_687_416, 1, 1_309_767_246_306_608_002, 1_677_721_685_493_875_969);
    lemma2_to64();
    lemma_exp_value(-161_180_956, -24, 517_436_733_438_687_416, 1_677_721_685_493_875_969, 16_777_216, 1);
}

/// The exponential at 161_180_955.
proof fn lemma_exp_below_inverse_unit()
    ensures
        exp_spec(161_180_955) == 99_999_984_904_169,
{
    lemma_series_step(175_710_347_121_257_893, 18, 1_000_000_000_000_000_000, 1_009_761_685_951_180_994);
    lemma_series_step(175_710_347_121_257_893, 17, 1_009_761_685_951_180_994, 1_010_436_798_608_719_330);
    lemma_series_step(175_710_347_121_257_893, 16, 1_010_436_798_608_719_330, 1_011_096_512_539_226_914);
    lemma_series_step(175_710_347_121_257_893, 15, 1_011_096_512_539_226_914, 1_011_844_007_946_090_722);
    lemma_series_step(175_710_347_121_257_893, 14, 1_011_844_007_946_090_722, 1_012_699_390_133_483_745);
    lemma_series_step(175_710_347_121_257_893, 13, 1_012_699_390_133_483_745, 1_013_687_827_797_680_046);
    lemma_series_step(175_710_347_121_257_893, 12, 1_013_687_827_797_680_046, 1_014_842_953_341_243_688);
    lemma_series_step(175_710_347_121_257_893, 11, 1_014_842_953_341_243_688, 1_016_210_764_327_741_132);
    lemma_series_step(175_710_347_121_257_893, 10, 1_016_210_764_327_741_132, 1_017_855_874_614_838_619);
    lemma_series_step(175_710_347_121_257_893, 9, 1_017_855_874_614_838_619, 1_019_871_978_783_109_427);
    lemma_series_step(175_710_347_121_257_893, 8, 1_019_871_978_783_109_427, 1_022_400_257_426_403_040);
    lemma_series_step(175_710_347_121_257_893, 7, 1_022_400_257_426_403_040, 1_025_663_757_732_750_958);
    lemma_series_step(175_710_347_121_257_893, 6, 1_025_663_757_732_750_958, 1_030_036_622_483_485_905);
    lemma_series_step(175_710_347_121_257_893, 5, 1_030_036_622_483_485_905, 1_036_197_618_496_836_276);
    lemma_series_step(175_710_347_121_257_893, 4, 1_036_197_618_496_836_276, 1_045_517_660_808_074_965);
    lemma_series_step(175_710_347_121_257_893, 3, 1_045_517_660_808_074_965, 1_061_236_090_367_330_807);
    lemma_series_step(175_710_347_121_257_893, 2, 1_061_236_090_367_330_807, 1_093_235_080_908_025_152);
    lemma_series_step(175_710_347_121_257_893, 1, 1_093_235_080_908_025_152, 1_192_092_715_551_485_557);
    lemma2_to64();
    lemma_exp_value(161_180_955, 23, 175_710_347_121_257_893, 1_192_092_715_551_485_557, 8_388_608, 99_999_984_904_169);
}

/// The exponential at 161_180_956.
proof fn lemma_exp_inverse_unit()
    ensures
        exp_spec(161_180_956) == 99_999_994_904_168,
{
    lemma_series_step(175_710_447_121_257_893, 18, 1_000_000_000_000_000_000, 1_009_761_691_506_736_549);
    lemma_series_step(175_710_447_121_257_893, 17, 1_009_761_691_506_736_549, 1_010_436_804_605_915_668);
    lemma_series_step(175_710_447_121_257_893, 16, 1_010_436_804_605_915_668, 1_011_096_518_920_317_533);
    lemma_series_step(175_710_447_121_257_893, 15, 1_011_096_518_920_317_533, 1_011_844_014_761_482_425);
    lemma_series_step(175_710_447_121_257_893, 14, 1_011_844_014_761_482_425, 1_012_699_397_446_479_196);
    lemma_series_step(175_710_447_121_257_893, 13, 1_012_699_397_446_479_196, 1_013_687_835_686_519_177);
    lemma_series_step(175_710_447_121_257_893, 12, 1_013_687_835_686_519_177, 1_014_842_961_904_154_873);
    lemma_series_step(175_710_447_121_257_893, 11, 1_014_842_961_904_154_873, 1_016_210_773_690_367_340);
    lemma_series_step(175_710_447_121_257_893, 10, 1_016_210_773_690_367_340, 1_017_855_884_941_457_386);
    lemma_series_step(175_710_447_121_257_893, 9, 1_017_855_884_941_457_386, 1_019_871_990_294_229_678);
    lemma_series_step(175_710_447_121_257_893, 8, 1_019_871_990_294_229_678, 1_022_400_270_427_630_785);
    lemma_series_step(175_710_447_121_257_893, 7, 1_022_400_270_427_630_785, 1_025_663_772_664_819_141);
    lemma_series_step(175_710_447_121_257_893, 6, 1_025_663_772_664_819_141, 1_030_036_640_015_168_596);
    lemma_series_step(175_710_447_121_257_893, 5, 1_030_036_640_015_168_596, 1_036_197_639_713_668_686);
    lemma_series_step(175_710_447_121_257_893, 4, 1_036_197_639_713_668_686, 1_045_517_687_645_020_204);
    lemma_series_step(175_710_447_121_257_893, 3, 1_045_517_687_645_020_204, 1_061_236_126_789_763_383);
    lemma_series_step(175_710_447_121_257_893, 2, 1_061_236_126_789_763_383, 1_093_235_137_169_730_627);
    lemma_series_step(175_710_447_121_257_893, 1, 1_093_235_137_169_730_627, 1_192_092_834_760_763_072);
    lemma2_to64();
    lemma_exp_value(161_180_956, 23, 175_710_447_121_257_893, 1_192_092_834_760_763_072, 8_388_608, 99_999_994_904_168);
}

/// The exponential is at least one raw unit exactly from `EXP_UNIT_FROM`
/// on, and at most `ONE * ONE - ONE` exactly up to `-EXP_UNIT_FROM - 1`.
pub proof fn lemma_exp_thresholds(x: int)
    ensures
        exp_spec(x) >= 1 <==> x >= EXP_UNIT_FROM,
        exp_spec(x) <= ONE * ONE - ONE <==> x <= -EXP_UNIT_FROM - 1,
{
    lemma_exp_below_one_unit();
    lemma_exp_one_unit();
    lemma_exp_below_inverse_unit();
    lemma_exp_inverse_unit();
    if x >= EXP_UNIT_FROM {
        lemma_exp_monotone(EXP_UNIT_FROM as int, x);
    } else {
        lemma_exp_monotone(x, EXP_UNIT_FROM - 1);
        lemma_exp_range(x);
    }
    if x <= -EXP_UNIT_FROM - 1 {
        lemma_exp_monotone(x, -EXP_UNIT_FROM - 1);
    } else {
        lemma_exp_monotone(-EXP_UNIT_FROM as int, x);
    }
}

/// For an argument that is not positive, the exponential is at most 1.
pub proof fn lemma_exp_at_most_one(x: int)
    requires
        x <= 0,
    ensures
        exp_spec(x) <= ONE,
{
    lemma_exp_monotone(x, 0);
    lemma_exp_zero();
}

/// The polynomial of `e^r` in wide units.
fn series(r: i128) -> (p: i128)
    requires
        0 <= r < LN2,
    ensures
        p == exp_series(r as int, 1),
        WIDE <= p <= 4 * WIDE,
{
    let mut s: i128 = WIDE;
    let mut k: i128 = TERMS;
    while k >= 1
        invariant
            0 <= k <= TERMS,
            0 <= r < LN2,
            s == exp_series(r as int, k + 1),
            WIDE <= s <= 4 * WIDE,
        decreases k,
    {
        proof {
            lemma_series_bounds(r as int, k as int);
            assert(0 <= r * s <= LN2 * (4 * WIDE)) by (nonlinear_arith)
                requires
                    0 <= r < LN2,
                    WIDE <= s <= 4 * WIDE,
            ;
        }
        s = WIDE + (r * s) / (k * WIDE);
        k = k - 1;
    }
    s
}

/// `2^n` for a small `n`.
fn power_of_two(n: i128) -> (f: i128)
    requires
        0 <= n <= 62,
    ensures
        f == pow2(n as nat),
        1 <= f <= 0x4000_0000_0000_0000,
{
    let mut f: i128 = 1;
    let mut i: i128 = 0;
    proof {
        lemma2_to64();
        lemma2_to64_rest();
    }
    while i < n
        invariant
            0 <= i <= n <= 62,
            f == pow2(i as nat),
            1 <= f <= pow2(62),
            pow2(62) == 0x4000_0000_0000_0000,
        decreases n - i,
    {
        proof {
            lemma_pow2_unfold((i + 1) as nat);
            if i + 1 < 62 {
                lemma_pow2_strictly_increases((i + 1) as nat, 62);
            }
        }
        f = f * 2;
        i = i + 1;
    }
    f
}

/// `e^x` for `x` in raw units: the result, in raw units, is rounded down
/// and capped at `EXP_MAX`.
pub fn exp(x: i64) -> (e: i64)
    ensures
        e == exp_spec(x as int),
        0 <= e <= EXP_MAX,
{
    let t: i128 = (x as i128) * LIFT;
    let (k, r) = floor_div_rem(t, LN2);
    let p: i128 = series(r);
    proof {
        lemma_exp_range(x as int);
        if k < 0 {
            assert(x < 0) by (nonlinear_arith)
                requires
                    k == (x * LIFT) / (LN2 as int),
                    k < 0,
            ;
        }
    }
    if k >= 0 {
        if k >= 40 {
            proof {
                lemma2_to64_rest();
                lemma_pow2_pos(k as nat);
                if k > 40 {
                    lemma_pow2_strictly_increases(40, k as nat);
                }
                assert(p * pow2(k as nat) >= WIDE * pow2(40)) by (nonlinear_arith)
                    requires
                        p >= WIDE,
                        pow2(k as nat) >= pow2(40),
                ;
                lemma_div_is_ordered(WIDE * pow2(40), p * pow2(k as nat), LIFT as int);
                assert(pow2(40) == 0x100_0000_0000);
            }
            EXP_MAX
        } else {
            let f: i128 = power_of_two(k);
            proof {
                lemma2_to64_rest();
                if k < 39 {
                    lemma_pow2_strictly_increases(k as nat, 39);
                }
                assert(0 <= p * f <= (4 * WIDE) * pow2(39)) by (nonlinear_arith)
                    requires
                        0 <= p <= 4 * WIDE,
                        0 <= f <= pow2(39),
                ;
                assert(pow2(39) == 0x80_0000_0000);
            }
            let v: i128 = (p * f) / LIFT;
            if v > EXP_MAX as i128 {
                EXP_MAX
            } else {
                v as i64
            }
        }
    } else {
        if k < -62 {
            proof {
                lemma2_to64_rest();
                lemma_pow2_strictly_increases(62, (-k) as nat);
                let d = LIFT * pow2((-k) as nat);
                assert(d > 4 * WIDE) by (nonlinear_arith)
                    requires
                        d == LIFT * pow2((-k) as nat),
                        pow2((-k) as nat) > 0x4000_0000_0000_0000,
                ;
                lemma_basic_div(p as int, d);
            }
            0
        } else {
            let f: i128 = power_of_two(-k);
            proof {
                assert(LIFT <= LIFT * f <= LIFT * 0x4000_0000_0000_0000) by (nonlinear_arith)
                    requires
                        1 <= f <= 0x4000_0000_0000_0000,
                ;
            }
            let v: i128 = p / (LIFT * f);
            v as i64
        }
    }
}

} // verus!
