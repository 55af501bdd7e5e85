use vstd::prelude::*;

verus! {

/// Fixed-point scale: scalars carry 20 fractional bits, so `ONE` stands for
/// the real number 1.0.
pub const ONE: i64 = 1048576;

/// One full turn (2*pi radians) in fixed-point angle units, rounded to a
/// multiple of 32 so that a full turn divides evenly into the tessellation
/// resolution and into quadrants and octants.
pub const TAU_FX: i64 = 6588384;

/// Half a turn (pi radians).
pub const HALF_TURN: i64 = 3294192;

/// A quarter turn (pi/2 radians).
pub const QUARTER_TURN: i64 = 1647096;

/// An eighth of a turn (pi/4 radians).
pub const EIGHTH_TURN: i64 = 823548;

/// Magnitude bound on every radius multiplier the evaluator produces; keeps
/// all downstream products inside the fixed-point range.
pub const EVAL_LIMIT: i64 = 0x100_0000_0000;

pub open spec fn abs_i(a: int) -> int {
    if a >= 0 { a } else { -a }
}

pub open spec fn min_i(a: int, b: int) -> int {
    if a <= b { a } else { b }
}

pub open spec fn max_i(a: int, b: int) -> int {
    if a >= b { a } else { b }
}

pub open spec fn clamp_i(v: int, lo: int, hi: int) -> int {
    if v < lo { lo } else if v > hi { hi } else { v }
}

pub fn abs_fx(a: i64) -> (r: i64)
    requires
        a > i64::MIN,
    ensures
        r == abs_i(a as int),
{
    if a >= 0 { a } else { -a }
}

pub fn min_fx(a: i64, b: i64) -> (r: i64)
    ensures
        r == min_i(a as int, b as int),
{
    if a <= b { a } else { b }
}

pub fn max_fx(a: i64, b: i64) -> (r: i64)
    ensures
        r == max_i(a as int, b as int),
{
    if a >= b { a } else { b }
}

pub fn clamp_fx(v: i64, lo: i64, hi: i64) -> (r: i64)
    requires
        lo <= hi,
    ensures
        r == clamp_i(v as int, lo as int, hi as int),
{
    if v < lo { lo } else if v > hi { hi } else { v }
}

/// Floor division by a positive divisor; agrees with the Euclidean `/` of
/// specification arithmetic.
pub fn div_floor(a: i64, d: i64) -> (r: i64)
    requires
        1 <= d,
        -0x4000_0000_0000_0000 <= a <= 0x4000_0000_0000_0000,
    ensures
        r == a as int / d as int,
{
    if a >= 0 {
        a / d
    } else {
        let q: i64 = (-a - 1) / d;
        proof {
            let aa = a as int;
            let dd = d as int;
            vstd::arithmetic::div_mod::lemma_fundamental_div_mod(aa, dd);
            vstd::arithmetic::div_mod::lemma_mod_bound(aa, dd);
            assert((-(aa / dd) - 1) * dd == -(dd * (aa / dd)) - dd) by (nonlinear_arith);
            vstd::arithmetic::div_mod::lemma_fundamental_div_mod_converse(
                -aa - 1,
                dd,
                -(aa / dd) - 1,
                dd - 1 - (aa % dd),
            );
        }
        -q - 1
    }
}

/// Floor division for wide intermediates, by a positive divisor.
pub fn div_floor_128(a: i128, d: i128) -> (r: i128)
    requires
        1 <= d,
        -0x4000_0000_0000_0000_0000_0000_0000_0000 <= a <= 0x4000_0000_0000_0000_0000_0000_0000_0000,
    ensures
        r == a as int / d as int,
{
    if a >= 0 {
        a / d
    } else {
        let q: i128 = (-a - 1) / d;
        proof {
            let aa = a as int;
            let dd = d as int;
            vstd::arithmetic::div_mod::lemma_fundamental_div_mod(aa, dd);
            vstd::arithmetic::div_mod::lemma_mod_bound(aa, dd);
            assert((-(aa / dd) - 1) * dd == -(dd * (aa / dd)) - dd) by (nonlinear_arith);
            vstd::arithmetic::div_mod::lemma_fundamental_div_mod_converse(
                -aa - 1,
                dd,
                -(aa / dd) - 1,
                dd - 1 - (aa % dd),
            );
        }
        -q - 1
    }
}

/// Fixed-point multiply: the floor of `a * b / ONE`.
pub fn mul_div_one(a: i64, b: i64) -> (r: i64)
    requires
        -0x200_0000_0000 <= a <= 0x200_0000_0000,
        -0x200_0000_0000 <= b <= 0x200_0000_0000,
    ensures
        r == (a * b) / (ONE as int),
{
    proof {
        assert(-0x4_0000_0000_0000_0000_0000 <= (a as int) * (b as int)
            <= 0x4_0000_0000_0000_0000_0000) by (nonlinear_arith)
            requires
                -0x200_0000_0000 <= a as int <= 0x200_0000_0000,
                -0x200_0000_0000 <= b as int <= 0x200_0000_0000;
    }
    let p: i128 = (a as i128) * (b as i128);
    let q: i128 = if p >= 0 {
        p / (ONE as i128)
    } else {
        let qn: i128 = (-p - 1) / (ONE as i128);
        proof {
            let pp = p as int;
            let dd = ONE as int;
            vstd::arithmetic::div_mod::lemma_fundamental_div_mod(pp, dd);
            vstd::arithmetic::div_mod::lemma_mod_bound(pp, dd);
            assert((-(pp / dd) - 1) * dd == -(dd * (pp / dd)) - dd) by (nonlinear_arith);
            vstd::arithmetic::div_mod::lemma_fundamental_div_mod_converse(
                -pp - 1,
                dd,
                -(pp / dd) - 1,
                dd - 1 - (pp % dd),
            );
        }
        -qn - 1
    };
    q as i64
}

} // verus!
