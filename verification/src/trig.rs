use vstd::prelude::*;
use crate::fixed::{ONE, TAU_FX, QUARTER_TURN, EIGHTH_TURN, clamp_i, abs_i, max_i, clamp_fx};
use crate::angle::{norm_excl_spec, normalized_angle_unsigned_excl};
use vstd::arithmetic::div_mod::{lemma_div_is_ordered, lemma_mod_bound, lemma_fundamental_div_mod};

verus! {

/// Lower clamp for the cosine polynomial on the first octant.  The true
/// cosine there stays above 0.707, so the clamp is inert; it gives the
/// divisions downstream a guaranteed positive denominator.
pub const COS_OCT_MIN: i64 = 655360;

/// Truncated Taylor series for the sine of `y`, valid on the first octant
/// `[0, EIGHTH_TURN]`, with a defensive clamp into `[0, ONE]`.
pub open spec fn sin_poly_spec(y: int) -> int {
    let u = (y * y) / (ONE as int);
    let p1 = (y * u) / (ONE as int);
    let p2 = (p1 * u) / (ONE as int);
    let p3 = (p2 * u) / (ONE as int);
    clamp_i(y - p1 / 6 + p2 / 120 - p3 / 5040, 0, ONE as int)
}

/// Truncated Taylor series for the cosine of `y`, valid on the first octant
/// `[0, EIGHTH_TURN]`, with a defensive clamp into `[COS_OCT_MIN, ONE]`.
pub open spec fn cos_poly_spec(y: int) -> int {
    let u = (y * y) / (ONE as int);
    let u2 = (u * u) / (ONE as int);
    let u3 = (u2 * u) / (ONE as int);
    clamp_i(ONE - u / 2 + u2 / 24 - u3 / 720, COS_OCT_MIN as int, ONE as int)
}

/// Cosine over one quadrant `[0, QUARTER_TURN)`, folded onto the octant
/// polynomials.
pub open spec fn cos_base_spec(y: int) -> int {
    if y <= EIGHTH_TURN {
        cos_poly_spec(y)
    } else {
        sin_poly_spec(QUARTER_TURN - y)
    }
}

/// Sine over one quadrant `[0, QUARTER_TURN)`, folded onto the octant
/// polynomials.
pub open spec fn sin_base_spec(y: int) -> int {
    if y <= EIGHTH_TURN {
        sin_poly_spec(y)
    } else {
        cos_poly_spec(QUARTER_TURN - y)
    }
}

/// Fixed-point cosine of an arbitrary angle: normalize to one turn, split
/// into quadrant and in-quadrant offset, apply the quadrant sign pattern.
pub open spec fn cos_fx_spec(a: int) -> int {
    let n = norm_excl_spec(a);
    let q = n / (QUARTER_TURN as int);
    let y = n % (QUARTER_TURN as int);
    if q == 0 {
        cos_base_spec(y)
    } else if q == 1 {
        -sin_base_spec(y)
    } else if q == 2 {
        -cos_base_spec(y)
    } else {
        sin_base_spec(y)
    }
}

/// Fixed-point sine of an arbitrary angle.
pub open spec fn sin_fx_spec(a: int) -> int {
    let n = norm_excl_spec(a);
    let q = n / (QUARTER_TURN as int);
    let y = n % (QUARTER_TURN as int);
    if q == 0 {
        sin_base_spec(y)
    } else if q == 1 {
        cos_base_spec(y)
    } else if q == 2 {
        -sin_base_spec(y)
    } else {
        -cos_base_spec(y)
    }
}

fn sin_poly(y: i64) -> (r: i64)
    requires
        0 <= y <= EIGHTH_TURN,
    ensures
        r == sin_poly_spec(y as int),
        0 <= r <= ONE,
{
    proof {
        assert(0 <= (y as int) * (y as int) <= 678231308304) by (nonlinear_arith)
            requires
                0 <= y as int <= 823548;
    }
    let yy: i64 = y * y;
    let u: i64 = yy / ONE;
    proof {
        lemma_div_is_ordered(0, yy as int, ONE as int);
        lemma_div_is_ordered(yy as int, 678231308304, ONE as int);
        assert(0 <= (y as int) * (u as int) <= 532679905428) by (nonlinear_arith)
            requires
                0 <= y as int <= 823548,
                0 <= u as int <= 646811;
    }
    let p1: i64 = (y * u) / ONE;
    proof {
        lemma_div_is_ordered(0, (y as int) * (u as int), ONE as int);
        lemma_div_is_ordered((y as int) * (u as int), 532679905428, ONE as int);
        assert(0 <= (p1 as int) * (u as int) <= 328581928433) by (nonlinear_arith)
            requires
                0 <= p1 as int <= 508003,
                0 <= u as int <= 646811;
    }
    let p2: i64 = (p1 * u) / ONE;
    proof {
        lemma_div_is_ordered(0, (p1 as int) * (u as int), ONE as int);
        lemma_div_is_ordered((p1 as int) * (u as int), 328581928433, ONE as int);
        assert(0 <= (p2 as int) * (u as int) <= 202684694960) by (nonlinear_arith)
            requires
                0 <= p2 as int <= 313360,
                0 <= u as int <= 646811;
    }
    let p3: i64 = (p2 * u) / ONE;
    proof {
        lemma_div_is_ordered(0, (p2 as int) * (u as int), ONE as int);
    }
    let v: i64 = y - p1 / 6 + p2 / 120 - p3 / 5040;
    clamp_fx(v, 0, ONE)
}

fn cos_poly(y: i64) -> (r: i64)
    requires
        0 <= y <= EIGHTH_TURN,
    ensures
        r == cos_poly_spec(y as int),
        COS_OCT_MIN <= r <= ONE,
{
    proof {
        assert(0 <= (y as int) * (y as int) <= 678231308304) by (nonlinear_arith)
            requires
                0 <= y as int <= 823548;
    }
    let yy: i64 = y * y;
    let u: i64 = yy / ONE;
    proof {
        lemma_div_is_ordered(0, yy as int, ONE as int);
        lemma_div_is_ordered(yy as int, 678231308304, ONE as int);
        assert(0 <= (u as int) * (u as int) <= 418364469721) by (nonlinear_arith)
            requires
                0 <= u as int <= 646811;
    }
    let u2: i64 = (u * u) / ONE;
    proof {
        lemma_div_is_ordered(0, (u as int) * (u as int), ONE as int);
        lemma_div_is_ordered((u as int) * (u as int), 418364469721, ONE as int);
        assert(0 <= (u2 as int) * (u as int) <= 258066593213) by (nonlinear_arith)
            requires
                0 <= u2 as int <= 398983,
                0 <= u as int <= 646811;
    }
    let u3: i64 = (u2 * u) / ONE;
    proof {
        lemma_div_is_ordered(0, (u2 as int) * (u as int), ONE as int);
    }
    let v: i64 = ONE - u / 2 + u2 / 24 - u3 / 720;
    clamp_fx(v, COS_OCT_MIN, ONE)
}

/// Fixed-point cosine and sine of an arbitrary angle.  Beyond pinning both
/// results to their defining series, the contract guarantees that at least
/// one of the two has magnitude `COS_OCT_MIN` or more, which keeps the
/// polar-shape divisions away from zero.
pub fn cos_sin_fx(angle: i64) -> (r: (i64, i64))
    requires
        -0x4000_0000_0000_0000 <= angle <= 0x4000_0000_0000_0000,
    ensures
        r.0 == cos_fx_spec(angle as int),
        r.1 == sin_fx_spec(angle as int),
        -ONE <= r.0 <= ONE,
        -ONE <= r.1 <= ONE,
        max_i(abs_i(r.0 as int), abs_i(r.1 as int)) >= COS_OCT_MIN,
{
    let n: i64 = normalized_angle_unsigned_excl(angle);
    let q: i64 = n / QUARTER_TURN;
    let y: i64 = n % QUARTER_TURN;
    proof {
        lemma_div_is_ordered(0, n as int, QUARTER_TURN as int);
        lemma_div_is_ordered(n as int, (TAU_FX - 1) as int, QUARTER_TURN as int);
        lemma_mod_bound(n as int, QUARTER_TURN as int);
        lemma_fundamental_div_mod(n as int, QUARTER_TURN as int);
    }
    let (cb, sb): (i64, i64) = if y <= EIGHTH_TURN {
        (cos_poly(y), sin_poly(y))
    } else {
        (sin_poly(QUARTER_TURN - y), cos_poly(QUARTER_TURN - y))
    };
    if q == 0 {
        (cb, sb)
    } else if q == 1 {
        (-sb, cb)
    } else if q == 2 {
        (-cb, -sb)
    } else {
        (sb, -cb)
    }
}

} // verus!
