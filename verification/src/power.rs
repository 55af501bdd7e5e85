use vstd::prelude::*;
use crate::fixed::{ONE, clamp_i, min_i, clamp_fx, min_fx, div_floor, mul_div_one};
use vstd::arithmetic::div_mod::{
    lemma_div_is_ordered, lemma_div_is_ordered_by_denominator, lemma_mod_bound,
};
use vstd::arithmetic::power2::{pow2, lemma_pow2_unfold, lemma_pow2_strictly_increases, lemma2_to64};

verus! {

/// The natural logarithm of 2 in fixed-point units.
pub const LN2_FX: i64 = 726817;

/// Upper clamp for the fixed-point exponential: results saturate at 16.0.
pub const POW_MAX: i64 = 16777216;

/// Largest admissible fixed-point exponent parameter for the power helpers.
pub const K_LIMIT: i64 = 33554432;

/// Series part of the fixed-point logarithm, valid for `v` in
/// `[ONE, 2 * ONE]`: twice the odd-power expansion in
/// `w = (v - ONE) / (v + ONE)`.
pub open spec fn atanh_ln_spec(v: int) -> int {
    let w = ((v - ONE) * ONE) / (v + ONE);
    let w2 = (w * w) / (ONE as int);
    let w3 = (w * w2) / (ONE as int);
    let w5 = (w3 * w2) / (ONE as int);
    let w7 = (w5 * w2) / (ONE as int);
    2 * (w + w3 / 3 + w5 / 5 + w7 / 7)
}

/// Fixed-point natural logarithm on `(0, 2 * ONE]`: repeatedly double the
/// argument into `[ONE, 2 * ONE]`, take the series there, and subtract one
/// `LN2_FX` per doubling.
pub open spec fn ln_spec(s: int) -> int
    decreases (if s < ONE { ONE - s } else { 0int }),
{
    if s <= 0 {
        0
    } else if s >= ONE {
        atanh_ln_spec(s)
    } else {
        ln_spec(2 * s) - LN2_FX
    }
}

/// Truncated Taylor series for the exponential of `w`, valid on
/// `[0, LN2_FX]`, with a defensive clamp into `[ONE, 2 * ONE]`.
pub open spec fn exp_poly_spec(w: int) -> int {
    let w2 = (w * w) / (ONE as int);
    let w3 = (w2 * w) / (ONE as int);
    let w4 = (w3 * w) / (ONE as int);
    let w5 = (w4 * w) / (ONE as int);
    let w6 = (w5 * w) / (ONE as int);
    let w7 = (w6 * w) / (ONE as int);
    clamp_i(
        ONE + w + w2 / 2 + w3 / 6 + w4 / 24 + w5 / 120 + w6 / 720 + w7 / 5040,
        ONE as int,
        2 * ONE,
    )
}

/// `x` halved `n` times, flooring at each step.
pub open spec fn halved(x: int, n: nat) -> int
    decreases n,
{
    if n == 0 {
        x
    } else {
        halved(x / 2, (n - 1) as nat)
    }
}

/// Small power-of-two factor used by the positive exponential branch.
pub open spec fn pow2_small(q: int) -> int {
    if q <= 0 {
        1
    } else if q == 1 {
        2
    } else if q == 2 {
        4
    } else {
        8
    }
}

/// Fixed-point exponential with saturation: positive arguments are split
/// into whole and fractional multiples of `ln 2` and saturate at `POW_MAX`;
/// negative arguments divide the series value by a power of two, reaching 0
/// once the true result is below the fixed-point resolution.
pub open spec fn exp_spec(y: int) -> int {
    if y >= 0 {
        let q = y / (LN2_FX as int);
        let w = y % (LN2_FX as int);
        if q >= 4 {
            POW_MAX as int
        } else {
            min_i(exp_poly_spec(w) * pow2_small(q), POW_MAX as int)
        }
    } else {
        let q = (-y) / (LN2_FX as int);
        let w = LN2_FX - (-y) % (LN2_FX as int);
        halved(exp_poly_spec(w), (q + 1) as nat)
    }
}

/// `b` raised to the fixed-point power `k / ONE`, for a base in `[0, ONE]`.
pub open spec fn pow_frac_spec(b: int, k: int) -> int {
    if b <= 0 {
        0
    } else if b >= ONE {
        ONE as int
    } else {
        min_i(exp_spec((k * ln_spec(b)) / (ONE as int)), ONE as int)
    }
}

/// `s` raised to the power `-ONE / k`, for `s` in `[1, 2 * ONE]`.
pub open spec fn pow_neg_inv_spec(s: int, k: int) -> int {
    exp_spec(0 - (ln_spec(s) * ONE) / k)
}

proof fn lemma_halved_bounds(x: int, n: nat)
    requires
        0 <= x,
    ensures
        0 <= halved(x, n) <= x,
    decreases n,
{
    if n > 0 {
        lemma_halved_bounds(x / 2, (n - 1) as nat);
    }
}

/// The saturating exponential stays within `[0, POW_MAX]` for every
/// argument.
pub proof fn lemma_exp_spec_nonneg(y: int)
    ensures
        0 <= exp_spec(y) <= POW_MAX,
{
    if y >= 0 {
        let q = y / (LN2_FX as int);
        let w = y % (LN2_FX as int);
        if q < 4 {
            vstd::arithmetic::mul::lemma_mul_nonnegative(exp_poly_spec(w), pow2_small(q));
            assert(exp_poly_spec(w) * pow2_small(q) >= 0);
        }
    } else {
        let q = (-y) / (LN2_FX as int);
        let w = LN2_FX - (-y) % (LN2_FX as int);
        lemma_halved_bounds(exp_poly_spec(w), (q + 1) as nat);
    }
}

proof fn lemma_halved_zero(x: int, n: nat)
    requires
        0 <= x < pow2(n),
    ensures
        halved(x, n) == 0,
    decreases n,
{
    if n == 0 {
        lemma2_to64();
    } else {
        lemma_pow2_unfold(n);
        lemma_halved_zero(x / 2, (n - 1) as nat);
    }
}

/// Fixed-point natural logarithm of `s` in `[1, 2 * ONE]`.
pub fn ln_fx(s: i64) -> (r: i64)
    requires
        1 <= s <= 2 * ONE,
    ensures
        r == ln_spec(s as int),
        -14536340 <= r <= 1151402,
{
    let mut v: i64 = s;
    let mut e: i64 = 0;
    proof {
        lemma2_to64();
    }
    while v < ONE
        invariant
            1 <= v <= 2 * ONE,
            0 <= e <= 20,
            v as int >= pow2(e as nat),
            ln_spec(s as int) == ln_spec(v as int) - e * LN2_FX,
        decreases 2 * ONE - v,
    {
        proof {
            lemma2_to64();
            if e >= 20 {
                if e > 20 {
                    lemma_pow2_strictly_increases(20, e as nat);
                }
                assert(v as int >= pow2(20));
                assert(false);
            }
            lemma_pow2_unfold((e + 1) as nat);
        }
        v = v * 2;
        e = e + 1;
    }
    let num: i64 = (v - ONE) * ONE;
    let den: i64 = v + ONE;
    let w: i64 = num / den;
    proof {
        lemma_div_is_ordered(0, num as int, den as int);
        lemma_div_is_ordered_by_denominator(num as int, 2 * ONE as int, den as int);
        lemma_div_is_ordered(num as int, ONE as int * ONE as int, 2 * ONE as int);
        assert(0 <= (w as int) * (w as int) <= 274877906944) by (nonlinear_arith)
            requires
                0 <= w as int <= 524288;
    }
    let w2: i64 = (w * w) / ONE;
    proof {
        lemma_div_is_ordered(0, (w as int) * (w as int), ONE as int);
        lemma_div_is_ordered((w as int) * (w as int), 274877906944, ONE as int);
        assert(0 <= (w as int) * (w2 as int) <= 137438953472) by (nonlinear_arith)
            requires
                0 <= w as int <= 524288,
                0 <= w2 as int <= 262144;
    }
    let w3: i64 = (w * w2) / ONE;
    proof {
        lemma_div_is_ordered(0, (w as int) * (w2 as int), ONE as int);
        lemma_div_is_ordered((w as int) * (w2 as int), 137438953472, ONE as int);
        assert(0 <= (w3 as int) * (w2 as int) <= 34359738368) by (nonlinear_arith)
            requires
                0 <= w3 as int <= 131072,
                0 <= w2 as int <= 262144;
    }
    let w5: i64 = (w3 * w2) / ONE;
    proof {
        lemma_div_is_ordered(0, (w3 as int) * (w2 as int), ONE as int);
        lemma_div_is_ordered((w3 as int) * (w2 as int), 34359738368, ONE as int);
        assert(0 <= (w5 as int) * (w2 as int) <= 8589934592) by (nonlinear_arith)
            requires
                0 <= w5 as int <= 32768,
                0 <= w2 as int <= 262144;
    }
    let w7: i64 = (w5 * w2) / ONE;
    proof {
        lemma_div_is_ordered(0, (w5 as int) * (w2 as int), ONE as int);
    }
    let series: i64 = 2 * (w + w3 / 3 + w5 / 5 + w7 / 7);
    series - e * LN2_FX
}

fn exp_poly(w: i64) -> (r: i64)
    requires
        0 <= w <= LN2_FX,
    ensures
        r == exp_poly_spec(w as int),
        ONE <= r <= 2 * ONE,
{
    proof {
        assert(0 <= (w as int) * (w as int) <= 528262951489) by (nonlinear_arith)
            requires
                0 <= w as int <= 726817;
    }
    let w2: i64 = (w * w) / ONE;
    proof {
        lemma_div_is_ordered(0, (w as int) * (w as int), ONE as int);
        lemma_div_is_ordered((w as int) * (w as int), 528262951489, ONE as int);
        assert(0 <= (w2 as int) * (w as int) <= 366163136430) by (nonlinear_arith)
            requires
                0 <= w2 as int <= 503790,
                0 <= w as int <= 726817;
    }
    let w3: i64 = (w2 * w) / ONE;
    proof {
        lemma_div_is_ordered(0, (w2 as int) * (w as int), ONE as int);
        lemma_div_is_ordered((w2 as int) * (w as int), 366163136430, ONE as int);
        assert(0 <= (w3 as int) * (w as int) <= 253804496400) by (nonlinear_arith)
            requires
                0 <= w3 as int <= 349200,
                0 <= w as int <= 726817;
    }
    let w4: i64 = (w3 * w) / ONE;
    proof {
        lemma_div_is_ordered(0, (w3 as int) * (w as int), ONE as int);
        lemma_div_is_ordered((w3 as int) * (w as int), 253804496400, ONE as int);
        assert(0 <= (w4 as int) * (w as int) <= 175923147582) by (nonlinear_arith)
            requires
                0 <= w4 as int <= 242046,
                0 <= w as int <= 726817;
    }
    let w5: i64 = (w4 * w) / ONE;
    proof {
        lemma_div_is_ordered(0, (w4 as int) * (w as int), ONE as int);
        lemma_div_is_ordered((w4 as int) * (w as int), 175923147582, ONE as int);
        assert(0 <= (w5 as int) * (w as int) <= 121940268541) by (nonlinear_arith)
            requires
                0 <= w5 as int <= 167773,
                0 <= w as int <= 726817;
    }
    let w6: i64 = (w5 * w) / ONE;
    proof {
        lemma_div_is_ordered(0, (w5 as int) * (w as int), ONE as int);
        lemma_div_is_ordered((w5 as int) * (w as int), 121940268541, ONE as int);
        assert(0 <= (w6 as int) * (w as int) <= 84522275747) by (nonlinear_arith)
            requires
                0 <= w6 as int <= 116291,
                0 <= w as int <= 726817;
    }
    let w7: i64 = (w6 * w) / ONE;
    proof {
        lemma_div_is_ordered(0, (w6 as int) * (w as int), ONE as int);
    }
    let v: i64 = ONE + w + w2 / 2 + w3 / 6 + w4 / 24 + w5 / 120 + w6 / 720 + w7 / 5040;
    clamp_fx(v, ONE, 2 * ONE)
}

/// Fixed-point exponential with saturation at `POW_MAX`.
pub fn exp_fx(y: i64) -> (r: i64)
    requires
        -0x4000_0000_0000_0000 <= y <= 0x4000_0000_0000_0000,
    ensures
        r == exp_spec(y as int),
        0 <= r <= POW_MAX,
{
    if y >= 0 {
        let q: i64 = y / LN2_FX;
        let w: i64 = y % LN2_FX;
        proof {
            lemma_div_is_ordered(0, y as int, LN2_FX as int);
            lemma_mod_bound(y as int, LN2_FX as int);
        }
        if q >= 4 {
            POW_MAX
        } else {
            let ep: i64 = exp_poly(w);
            let m: i64 = if q == 0 {
                ep
            } else if q == 1 {
                ep * 2
            } else if q == 2 {
                ep * 4
            } else {
                ep * 8
            };
            min_fx(m, POW_MAX)
        }
    } else {
        let a: i64 = -y;
        let q: i64 = a / LN2_FX;
        let w: i64 = LN2_FX - a % LN2_FX;
        proof {
            lemma_div_is_ordered(0, a as int, LN2_FX as int);
            lemma_mod_bound(a as int, LN2_FX as int);
        }
        let ep: i64 = exp_poly(w);
        let cnt: i64 = q + 1;
        if cnt >= 22 {
            proof {
                lemma2_to64();
                lemma_pow2_strictly_increases(21, cnt as nat);
                lemma_halved_zero(ep as int, cnt as nat);
            }
            0
        } else {
            let mut acc: i64 = ep;
            let mut i: i64 = 0;
            while i < cnt
                invariant
                    0 <= i <= cnt <= 21,
                    0 <= acc <= 2 * ONE,
                    halved(acc as int, (cnt - i) as nat) == halved(ep as int, cnt as nat),
                decreases cnt - i,
            {
                acc = acc / 2;
                i = i + 1;
            }
            acc
        }
    }
}

/// `b` raised to the fixed-point power `k / ONE`, for a base in `[0, ONE]`.
pub fn pow_frac(b: i64, k: i64) -> (r: i64)
    requires
        0 <= b <= ONE,
        1 <= k <= K_LIMIT,
    ensures
        r == pow_frac_spec(b as int, k as int),
        0 <= r <= ONE,
{
    if b <= 0 {
        0
    } else if b >= ONE {
        ONE
    } else {
        let l: i64 = ln_fx(b);
        proof {
            assert(-487758632058880 <= (k as int) * (l as int) <= 487758632058880)
                by (nonlinear_arith)
                requires
                    1 <= k as int <= 33554432,
                    -14536340 <= l as int <= 1151402;
        }
        let e: i64 = mul_div_one(k, l);
        proof {
            lemma_div_is_ordered(-487758632058880, (k as int) * (l as int), ONE as int);
            lemma_div_is_ordered((k as int) * (l as int), 487758632058880, ONE as int);
        }
        let x: i64 = exp_fx(e);
        min_fx(x, ONE)
    }
}

/// `s` raised to the power `-ONE / k`, for `s` in `[1, 2 * ONE]`.
pub fn pow_neg_inv(s: i64, k: i64) -> (r: i64)
    requires
        1 <= s <= 2 * ONE,
        1 <= k <= K_LIMIT,
    ensures
        r == pow_neg_inv_spec(s as int, k as int),
        0 <= r <= POW_MAX,
{
    let l: i64 = ln_fx(s);
    let num: i64 = l * ONE;
    let e: i64 = div_floor(num, k);
    proof {
        let nn = num as int;
        let kk = k as int;
        vstd::arithmetic::div_mod::lemma_fundamental_div_mod(nn, kk);
        vstd::arithmetic::div_mod::lemma_mod_bound(nn, kk);
        assert(-15242457251841 <= nn / kk <= 15242457251841) by (nonlinear_arith)
            requires
                nn == kk * (nn / kk) + nn % kk,
                0 <= nn % kk < kk,
                1 <= kk <= 33554432,
                -15242457251840 <= nn <= 15242457251840;
    }
    exp_fx(-e)
}

} // verus!
