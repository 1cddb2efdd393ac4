//! A share in percent as binary64 arithmetic gives it, computed in integers.
//!
//! The quotient of two integers is rounded to the nearest binary64 number,
//! its product with 100 is rounded to the nearest binary64 number again, and
//! that to the nearest integer. Each binary64 number met on the way is held
//! as a mantissa of 53 bits over a power of two, so that every step is exact
//! integer arithmetic and gives the same result on every machine.

use vstd::arithmetic::div_mod::{lemma_div_multiples_vanish_quotient, lemma_truncate_middle};
use vstd::arithmetic::power2::{
    lemma2_to64, lemma2_to64_rest, lemma_pow2_adds, lemma_pow2_pos, lemma_pow2_strictly_increases,
    lemma_pow2_unfold, pow2,
};
use vstd::prelude::*;

verus! {

/// The integer nearest to `n / d`; of two that are equally near, the even
/// one.
pub open spec fn round_ties_even(n: nat, d: nat) -> nat
    recommends
        d > 0,
{
    let q = n / d;
    let r = n % d;
    if 2 * r < d || (2 * r == d && q % 2 == 0) {
        q
    } else {
        q + 1
    }
}

/// The integer nearest to `n / d`; of two that are equally near, the larger
/// one.
pub open spec fn round_half_up(n: nat, d: nat) -> nat
    recommends
        d > 0,
{
    (2 * n + d) / (2 * d)
}

/// A positive binary64 number: `mantissa / 2^scale`, with a mantissa of 53
/// bits, that is from `2^52` to `2^53`.
pub struct Binary64 {
    pub mantissa: nat,
    pub scale: nat,
}

/// `2^scale` brings `n / d` among the mantissas: `2^52 <= n / d * 2^scale <
/// 2^53`.
pub open spec fn in_binade(n: nat, d: nat, scale: nat) -> bool {
    pow2(52) * d <= n * pow2(scale) < pow2(53) * d
}

/// The binary64 number nearest to `n / d`, a tie going to the even mantissa,
/// for `2^-1022 <= n / d < 2^53`.
pub open spec fn nearest(n: nat, d: nat) -> Binary64
    recommends
        d > 0,
        exists|scale: nat| in_binade(n, d, scale),
{
    let scale = choose|scale: nat| in_binade(n, d, scale);
    Binary64 { mantissa: round_ties_even(n * pow2(scale), d), scale }
}

impl Binary64 {
    /// The product with a positive integer, rounded to binary64.
    pub open spec fn times(self, factor: nat) -> Binary64 {
        nearest(factor * self.mantissa, pow2(self.scale))
    }

    /// The nearest integer, a tie going away from zero.
    pub open spec fn round(self) -> nat {
        round_half_up(self.mantissa, pow2(self.scale))
    }
}

/// `part / whole` in percent: the quotient in binary64, times 100 in
/// binary64, rounded to the nearest integer, a tie going away from zero.
pub open spec fn percentage(part: nat, whole: nat) -> nat
    recommends
        whole > 0,
{
    if part == 0 {
        0
    } else {
        nearest(part, whole).times(100).round()
    }
}

/// Only one power of two brings a positive quotient among the mantissas.
proof fn lemma_binade_excludes_larger(n: nat, d: nat, scale: nat, larger: nat)
    requires
        d > 0,
        scale < larger,
        in_binade(n, d, scale),
    ensures
        !in_binade(n, d, larger),
{
    lemma_pow2_unfold(scale + 1);
    if scale + 1 < larger {
        lemma_pow2_strictly_increases(scale + 1, larger);
    }
    lemma_pow2_unfold(53);
    let low = pow2(scale);
    let high = pow2(larger);
    let half = pow2(52);
    assert(n * high >= 2 * half * d) by (nonlinear_arith)
        requires
            high >= 2 * low,
            half * d <= n * low,
    ;
    assert(pow2(53) * d == 2 * half * d) by (nonlinear_arith)
        requires
            pow2(53) == 2 * half,
    ;
}

/// The binary64 number nearest to a quotient, from the power of two that
/// brings the quotient among the mantissas.
proof fn lemma_nearest(n: nat, d: nat, scale: nat)
    requires
        d > 0,
        in_binade(n, d, scale),
    ensures
        nearest(n, d) == (Binary64 { mantissa: round_ties_even(n * pow2(scale), d), scale }),
{
    let chosen = choose|scale: nat| in_binade(n, d, scale);
    if chosen < scale {
        lemma_binade_excludes_larger(n, d, chosen, scale);
    } else if scale < chosen {
        lemma_binade_excludes_larger(n, d, scale, chosen);
    }
}

/// Rounding a quotient does not depend on a factor that numerator and
/// denominator share.
proof fn lemma_round_ties_even_cancels(n: nat, d: nat, factor: nat)
    requires
        d > 0,
        factor > 0,
    ensures
        round_ties_even(factor * n, factor * d) == round_ties_even(n, d),
{
    lemma_div_multiples_vanish_quotient(factor as int, n as int, d as int);
    lemma_truncate_middle(n as int, factor as int, d as int);
    let r = n % d;
    assert((factor * n) % (factor * d) == factor * r);
    assert(2 * (factor * r) < factor * d <==> 2 * r < d) by (nonlinear_arith)
        requires
            factor > 0,
    ;
    assert(2 * (factor * r) == factor * d <==> 2 * r == d) by (nonlinear_arith)
        requires
            factor > 0,
    ;
}

/// A quotient that lies among the mantissas rounds to a mantissa.
proof fn lemma_rounded_mantissa(n: nat, d: nat)
    requires
        d > 0,
        pow2(52) * d <= n < pow2(53) * d,
    ensures
        pow2(52) <= n / d < pow2(53),
        pow2(52) <= round_ties_even(n, d) <= pow2(53),
{
    let q = n / d;
    let r = n % d;
    let low = pow2(52);
    let high = pow2(53);
    assert(n == d * q + r && 0 <= r < d) by {
        vstd::arithmetic::div_mod::lemma_fundamental_div_mod(n as int, d as int);
        vstd::arithmetic::div_mod::lemma_mod_bound(n as int, d as int);
    }
    assert(low <= q < high) by (nonlinear_arith)
        requires
            n == d * q + r,
            0 <= r < d,
            low * d <= n < high * d,
    ;
}

/// Rounding with ties to even gives an integer that is nearest to the
/// quotient: it is no more than a half away from it.
pub proof fn lemma_round_ties_even_is_nearest(n: nat, d: nat)
    requires
        d > 0,
    ensures
        2 * (n - round_ties_even(n, d) * d) <= d,
        2 * (round_ties_even(n, d) * d - n) <= d,
{
    let q = n / d;
    let r = n % d;
    assert(n == d * q + r && 0 <= r < d) by {
        vstd::arithmetic::div_mod::lemma_fundamental_div_mod(n as int, d as int);
        vstd::arithmetic::div_mod::lemma_mod_bound(n as int, d as int);
    }
    assert(q * d == d * q && (q + 1) * d == d * q + d) by (nonlinear_arith);
}

/// Rounding with ties upwards gives an integer that is nearest to the
/// quotient: it is no more than a half away from it, and less than a half
/// where it is below.
pub proof fn lemma_round_half_up_is_nearest(n: nat, d: nat)
    requires
        d > 0,
    ensures
        2 * (n - round_half_up(n, d) * d) < d,
        2 * (round_half_up(n, d) * d - n) <= d,
{
    let doubled: nat = 2 * n + d;
    let divisor: nat = 2 * d;
    let q = doubled / divisor;
    let r = doubled % divisor;
    assert(doubled == divisor * q + r && 0 <= r < divisor) by {
        vstd::arithmetic::div_mod::lemma_fundamental_div_mod(doubled as int, divisor as int);
        vstd::arithmetic::div_mod::lemma_mod_bound(doubled as int, divisor as int);
    }
    assert(divisor * q == 2 * (q * d)) by (nonlinear_arith)
        requires
            divisor == 2 * d,
    ;
}

/// Rounding to the nearest integer does not pass an integer that the
/// quotient does not pass.
pub proof fn lemma_round_ties_even_bounded(n: nat, d: nat, bound: nat)
    requires
        d > 0,
        n <= bound * d,
    ensures
        round_ties_even(n, d) <= bound,
{
    let q = n / d;
    let r = n % d;
    assert(n == d * q + r && 0 <= r < d) by {
        vstd::arithmetic::div_mod::lemma_fundamental_div_mod(n as int, d as int);
        vstd::arithmetic::div_mod::lemma_mod_bound(n as int, d as int);
    }
    assert(q <= bound && (q == bound ==> r == 0)) by (nonlinear_arith)
        requires
            n == d * q + r,
            0 <= r < d,
            n <= bound * d,
    ;
}

/// A power of two brings every positive quotient below `2^53` among the
/// mantissas.
proof fn lemma_binade_exists_from(n: nat, d: nat, scale: nat)
    requires
        n > 0,
        d > 0,
        n * pow2(scale) < pow2(53) * d,
    ensures
        exists|s: nat| in_binade(n, d, s),
    decreases pow2(53) * d - n * pow2(scale),
{
    if pow2(52) * d <= n * pow2(scale) {
        assert(in_binade(n, d, scale));
    } else {
        lemma_pow2_unfold(scale + 1);
        lemma_pow2_unfold(53);
        lemma_pow2_pos(scale);
        let unit = pow2(scale);
        let half = pow2(52);
        assert(n * (2 * unit) == 2 * (n * unit)) by (nonlinear_arith);
        assert((2 * half) * d == 2 * (half * d)) by (nonlinear_arith);
        assert(n * unit >= 1) by (nonlinear_arith)
            requires
                n >= 1,
                unit >= 1,
        ;
        lemma_binade_exists_from(n, d, scale + 1);
    }
}

/// A power of two brings every positive quotient below `2^53` among the
/// mantissas, and the binary64 number nearest to the quotient is the
/// rounded quotient over that power.
pub proof fn lemma_nearest_exists(n: nat, d: nat) -> (scale: nat)
    requires
        n > 0,
        d > 0,
        n < pow2(53) * d,
    ensures
        in_binade(n, d, scale),
        nearest(n, d) == (Binary64 { mantissa: round_ties_even(n * pow2(scale), d), scale }),
        pow2(52) <= nearest(n, d).mantissa <= pow2(53),
{
    lemma2_to64();
    assert(n * pow2(0) == n) by (nonlinear_arith)
        requires
            pow2(0) == 1,
    ;
    lemma_binade_exists_from(n, d, 0);
    let scale = choose|s: nat| in_binade(n, d, s);
    lemma_nearest(n, d, scale);
    lemma_rounded_mantissa(n * pow2(scale), d);
    scale
}

/// A part that is no more than the whole is at most 100 percent of it.
pub proof fn lemma_percentage_at_most_100(part: nat, whole: nat)
    requires
        whole > 0,
        part <= whole,
    ensures
        percentage(part, whole) <= 100,
{
    if part > 0 {
        lemma2_to64();
        lemma2_to64_rest();
        let high = pow2(53);
        assert(part < high * whole) by (nonlinear_arith)
            requires
                part <= whole,
                whole > 0,
                high > 1,
        ;
        let scale = lemma_nearest_exists(part, whole);
        let unit = pow2(scale);
        lemma_pow2_pos(scale);
        let ratio = nearest(part, whole);
        assert(part * unit <= unit * whole) by (nonlinear_arith)
            requires
                part <= whole,
                unit > 0,
        ;
        lemma_round_ties_even_bounded(part * unit, whole, unit);
        assert(ratio.mantissa <= unit);

        let product = 100 * ratio.mantissa;
        assert(product < high * unit) by (nonlinear_arith)
            requires
                product == 100 * ratio.mantissa,
                ratio.mantissa <= unit,
                unit > 0,
                high > 100,
        ;
        let scale_after = lemma_nearest_exists(product, unit);
        let unit_after = pow2(scale_after);
        lemma_pow2_pos(scale_after);
        let percent = ratio.times(100);
        assert(product * unit_after <= (100 * unit_after) * unit) by (nonlinear_arith)
            requires
                product == 100 * ratio.mantissa,
                ratio.mantissa <= unit,
                unit_after > 0,
        ;
        lemma_round_ties_even_bounded(product * unit_after, unit, 100 * unit_after);
        assert(percent.mantissa <= 100 * unit_after);

        let rounded = percent.round();
        let doubled = 2 * percent.mantissa + unit_after;
        assert(rounded == doubled / (2 * unit_after));
        vstd::arithmetic::div_mod::lemma_fundamental_div_mod(doubled as int, 2 * unit_after as int);
        vstd::arithmetic::div_mod::lemma_mod_bound(doubled as int, 2 * unit_after as int);
        assert(rounded <= 100) by (nonlinear_arith)
            requires
                (2 * unit_after) * rounded <= doubled,
                doubled <= 201 * unit_after,
                unit_after > 0,
        ;
    }
}

/// The whole is 100 percent of itself.
pub proof fn lemma_percentage_of_the_whole(whole: nat)
    requires
        whole > 0,
    ensures
        percentage(whole, whole) == 100,
{
    lemma2_to64();
    lemma2_to64_rest();
    let unit = pow2(52);
    assert(in_binade(whole, whole, 52)) by (nonlinear_arith)
        requires
            whole > 0,
            unit == pow2(52),
            pow2(53) == 2 * unit,
            unit > 0,
    {
        assert(unit * whole <= whole * unit < (2 * unit) * whole);
    }
    lemma_nearest(whole, whole, 52);
    vstd::arithmetic::div_mod::lemma_fundamental_div_mod_converse(
        (whole * unit) as int,
        whole as int,
        unit as int,
        0,
    );
    let ratio = nearest(whole, whole);
    assert(ratio.mantissa == unit);
    assert(ratio.scale == 52);

    let product = 100 * unit;
    assert(in_binade(product, unit, 46));
    lemma_nearest(product, unit, 46);
    let percent = ratio.times(100);
    assert(percent.scale == 46);
    assert(percent.mantissa == 100 * pow2(46));
    let doubled: nat = 2 * percent.mantissa + pow2(46);
    let divisor: nat = 2 * pow2(46);
    assert(doubled == 201 * 0x400000000000);
    assert(divisor == 0x800000000000);
    assert(doubled / divisor == 100);
}

/// The quotient of two positive integers in binary64: the mantissa, the
/// scale, and two to the power of the scale.
fn quotient(part: u32, whole: u32) -> (res: (u64, u32, u128))
    requires
        part > 0,
        whole > 0,
    ensures
        (Binary64 { mantissa: res.0 as nat, scale: res.1 as nat }) == nearest(
            part as nat,
            whole as nat,
        ),
        pow2(52) <= res.0 <= pow2(53),
        21 <= res.1 <= 84,
        res.2 == pow2(res.1 as nat),
{
    proof {
        lemma2_to64();
        lemma2_to64_rest();
        lemma_pow2_adds(64, 21);
    }
    let n: u128 = part as u128;
    let d: u128 = whole as u128;
    let bound: u128 = 4503599627370496u128 * d;
    let mut scaled: u128 = n;
    let mut unit: u128 = 1;
    let mut scale: u32 = 0;
    while scaled < bound
        invariant
            0 < n < 0x100000000,
            0 < d < 0x100000000,
            bound == 4503599627370496 * d,
            pow2(85) == 0x10000000000000000 * 0x200000,
            scaled == n * pow2(scale as nat),
            unit == pow2(scale as nat),
            unit <= scaled < 2 * bound,
            scale <= 84,
        decreases 2 * bound - scaled,
    {
        proof {
            lemma_pow2_unfold((scale + 1) as nat);
            lemma_pow2_pos(scale as nat);
            let unit_now = pow2(scale as nat);
            assert(n * (2 * unit_now) == 2 * (n * unit_now)) by (nonlinear_arith);
            if scale >= 84 {
                if scale + 1 > 85 {
                    lemma_pow2_strictly_increases(85, (scale + 1) as nat);
                }
                assert(false);
            }
        }
        scaled = scaled * 2;
        unit = unit * 2;
        scale = scale + 1;
    }
    proof {
        let unit_now = pow2(scale as nat);
        if scale < 21 {
            if scale < 20 {
                lemma_pow2_strictly_increases(scale as nat, 20);
            }
            assert(n * unit_now < 0x100000000 * 0x100000) by (nonlinear_arith)
                requires
                    0 < n < 0x100000000,
                    unit_now <= 0x100000,
            ;
            assert(false);
        }
        assert(in_binade(n as nat, d as nat, scale as nat));
        lemma_nearest(n as nat, d as nat, scale as nat);
        lemma_rounded_mantissa(scaled as nat, d as nat);
    }
    let q: u128 = scaled / d;
    let r: u128 = scaled % d;
    let mantissa: u128 = if 2 * r < d || (2 * r == d && q % 2 == 0) {
        q
    } else {
        q + 1
    };
    (mantissa as u64, scale, unit)
}

/// A binary64 number times 100, in binary64: the mantissa, the scale, and
/// two to the power of the scale.
fn times_hundred(mantissa: u64, scale: u32, unit: u128) -> (res: (u64, u32, u128))
    requires
        pow2(52) <= mantissa <= pow2(53),
        7 <= scale <= 84,
        unit == pow2(scale as nat),
    ensures
        (Binary64 { mantissa: res.0 as nat, scale: res.1 as nat }) == (Binary64 {
            mantissa: mantissa as nat,
            scale: scale as nat,
        }).times(100),
        pow2(52) <= res.0 <= pow2(53),
        scale - 7 <= res.1 <= scale - 6,
        res.2 == pow2(res.1 as nat),
{
    proof {
        lemma2_to64();
        lemma2_to64_rest();
    }
    let product: u128 = 100 * (mantissa as u128);
    let shift: u32 = if product >= 576460752303423488 {
        7
    } else {
        6
    };
    let divisor: u128 = if shift == 7 {
        128
    } else {
        64
    };
    let q: u128 = product / divisor;
    let r: u128 = product % divisor;
    let rounded: u128 = if 2 * r < divisor || (2 * r == divisor && q % 2 == 0) {
        q
    } else {
        q + 1
    };
    proof {
        let scale_after = (scale - shift) as nat;
        let unit_after = pow2(scale_after);
        lemma_pow2_adds(scale_after, shift as nat);
        lemma_pow2_pos(scale_after);
        assert(unit == unit_after * divisor);
        assert(unit / divisor == unit_after) by (nonlinear_arith)
            requires
                unit == unit_after * divisor,
                divisor > 0,
        ;
        assert(pow2(52) * divisor <= product < pow2(53) * divisor);
        lemma_rounded_mantissa(product as nat, divisor as nat);
        let low = pow2(52);
        let high = pow2(53);
        assert(low * (unit_after * divisor) <= product * unit_after < high * (unit_after
            * divisor)) by (nonlinear_arith)
            requires
                low * divisor <= product < high * divisor,
                unit_after > 0,
        ;
        assert(in_binade(product as nat, pow2(scale as nat), scale_after));
        lemma_nearest(product as nat, pow2(scale as nat), scale_after);
        lemma_round_ties_even_cancels(product as nat, divisor as nat, unit_after);
        assert(product * unit_after == unit_after * product) by (nonlinear_arith);
    }
    (rounded as u64, scale - shift, unit / divisor)
}

/// `part / whole` in percent, as binary64 arithmetic gives it.
pub fn percentage_of(part: u32, whole: u32) -> (percent: u64)
    requires
        whole > 0,
    ensures
        percent == percentage(part as nat, whole as nat),
{
    if part == 0 {
        return 0;
    }
    let (ratio, ratio_scale, ratio_unit) = quotient(part, whole);
    let (mantissa, scale, unit) = times_hundred(ratio, ratio_scale, ratio_unit);
    proof {
        lemma2_to64();
        lemma2_to64_rest();
        lemma_pow2_adds(64, 14);
        if scale < 78 {
            lemma_pow2_strictly_increases(scale as nat, 78);
        }
        if scale > 14 {
            lemma_pow2_strictly_increases(14, scale as nat);
        }
    }
    let rounded: u128 = (2 * (mantissa as u128) + unit) / (2 * unit);
    proof {
        let doubled = 2 * (mantissa as u128) + unit;
        vstd::arithmetic::div_mod::lemma_fundamental_div_mod(doubled as int, 2 * unit as int);
        vstd::arithmetic::div_mod::lemma_mod_bound(doubled as int, 2 * unit as int);
        assert(rounded <= 0x8000000001) by (nonlinear_arith)
            requires
                (2 * unit) * rounded <= 2 * mantissa + unit,
                unit >= 0x4000,
                mantissa <= 0x20000000000000,
        ;
    }
    rounded as u64
}

} // verus!
