use vstd::prelude::*;
use crate::fixed::{
    ONE, TAU_FX, QUARTER_TURN, EVAL_LIMIT, abs_i, min_i, max_i, clamp_i, abs_fx, min_fx, max_fx,
    clamp_fx, div_floor, mul_div_one,
};
use crate::angle::{norm_excl_spec, normalized_angle_unsigned_excl};
use crate::trig::{cos_fx_spec, sin_fx_spec, cos_sin_fx};
use crate::power::{
    K_LIMIT, pow_frac_spec, pow_neg_inv_spec, pow_frac, pow_neg_inv, lemma_exp_spec_nonneg,
};
use vstd::arithmetic::div_mod::{
    lemma_div_is_ordered, lemma_div_is_ordered_by_denominator, lemma_div_pos_is_pos,
    lemma_div_multiples_vanish, lemma_fundamental_div_mod, lemma_mod_bound,
};
use vstd::arithmetic::mul::lemma_mul_nonnegative;

verus! {

/// Floor for the denominator of the fixed-point reciprocal; keeps the
/// division away from zero and caps the result at `4 * ONE`.  The polar
/// functions that divide always have a cosine of at least `COS_OCT_MIN`
/// below them, so the floor is inert on valid inputs.
pub const MIN_DENOM: i64 = 262144;

/// Largest admissible rotation offset inside a shape descriptor.
pub const OFFSET_LIMIT: i64 = 0x40_0000_0000;

/// Largest admissible magnitude of a blend weight.
pub const T_LIMIT: i64 = 33554432;

/// Largest admissible side count of a polygon descriptor.
pub const SIDES_LIMIT: usize = 1024;

/// Largest admissible sample count of a custom shape table.
pub const SAMPLES_LIMIT: usize = 4096;

/// Budget on `|theta| + rot_sum()` for one evaluation; every angle a
/// rotation chain can produce stays below it.
pub const THETA_BUDGET: i64 = 0x4000_0000_0000;

/// A polar shape descriptor: a small expression tree whose leaves are
/// closed-form polar curves and whose interior nodes rotate or blend their
/// children.  Evaluation yields a radius multiplier per angle, non-negative
/// whenever every blend weight interpolates.
///
/// A user-supplied radius function enters as a `Custom` table of fixed-point
/// radius samples spread evenly over one turn; the host application samples
/// its callback into such a table.
pub enum WidgetShape {
    Circle,
    Square,
    Squircle(i64),
    Polygon(usize),
    SuperPolygon(usize, i64),
    Rotated(Box<WidgetShape>, i64),
    Mix(Box<WidgetShape>, Box<WidgetShape>, i64),
    Custom(Vec<i64>),
}

/// Error raised when a descriptor breaks a parameter invariant.
#[derive(Clone, Copy, PartialEq, Eq, Structural, Debug)]
pub enum ShapeError {
    InvalidParameter,
}

/// The fixed-point reciprocal of `d`, with the denominator floored at
/// `MIN_DENOM`; the floor caps the result at `4 * ONE`.
pub open spec fn recip_spec(d: int) -> int {
    (ONE * ONE) / max_i(d, MIN_DENOM as int)
}

/// Radius of the regular `n`-gon circumscribing the unit circle, at angle
/// `theta`: the distance from the angle of the nearest corner is folded out
/// of a half-turn of `n * theta / 2`, and the flat side's cosine divides the
/// unit radius.
pub open spec fn polygon_spec(n: int, theta: int) -> int {
    let phi = (n * theta) / 2;
    let m = norm_excl_spec(phi);
    let d = min_i(m, TAU_FX - m);
    let inner = (2 * abs_i(QUARTER_TURN - d)) / n;
    recip_spec(cos_fx_spec(inner))
}

/// Radius of the superellipse-family curve with exponent `k` at the folded
/// angle `phi`: `(|cos phi|^k + |sin phi|^k) ^ (-1/k)`.
pub open spec fn superellipse_spec(phi: int, k: int) -> int {
    let a = pow_frac_spec(abs_i(cos_fx_spec(phi)), k);
    let b = pow_frac_spec(abs_i(sin_fx_spec(phi)), k);
    pow_neg_inv_spec(max_i(a + b, 1), k)
}

impl WidgetShape {
    /// Parameter invariants of a descriptor: positive squircle exponents,
    /// at least three polygon sides, super-polygon exponents within two,
    /// machine bounds on offsets, weights and tables, and valid children.
    pub open spec fn wf(&self) -> bool
        decreases self,
    {
        match self {
            WidgetShape::Circle => true,
            WidgetShape::Square => true,
            WidgetShape::Squircle(k) => 1 <= *k <= K_LIMIT,
            WidgetShape::Polygon(n) => 3 <= *n <= SIDES_LIMIT,
            WidgetShape::SuperPolygon(n, k) => 3 <= *n <= SIDES_LIMIT && 1 <= *k <= 2 * ONE,
            WidgetShape::Rotated(child, off) => {
                &&& -OFFSET_LIMIT <= *off <= OFFSET_LIMIT
                &&& child.wf()
            },
            WidgetShape::Mix(a, b, t) => {
                &&& -T_LIMIT <= *t <= T_LIMIT
                &&& a.wf()
                &&& b.wf()
            },
            WidgetShape::Custom(tbl) => {
                &&& 1 <= tbl.len() <= SAMPLES_LIMIT
                &&& forall|i: int| 0 <= i < tbl@.len() ==> 0 <= #[trigger] tbl@[i] <= EVAL_LIMIT
            },
        }
    }

    /// The largest total rotation offset any path through the descriptor can
    /// accumulate.
    pub open spec fn rot_sum(&self) -> int
        decreases self,
    {
        match self {
            WidgetShape::Rotated(child, off) => abs_i(*off as int) + child.rot_sum(),
            WidgetShape::Mix(a, b, _t) => max_i(a.rot_sum(), b.rot_sum()),
            _ => 0,
        }
    }

    /// Restriction under which every blend stays an interpolation: all `Mix`
    /// weights lie in `[0, ONE]`.  Extrapolated weights are admitted by
    /// `wf` but can produce negative radii.
    pub open spec fn interpolative(&self) -> bool
        decreases self,
    {
        match self {
            WidgetShape::Rotated(child, _off) => child.interpolative(),
            WidgetShape::Mix(a, b, t) => 0 <= *t <= ONE && a.interpolative() && b.interpolative(),
            _ => true,
        }
    }
}

/// Every path through a descriptor accumulates a non-negative total offset.
pub proof fn lemma_rot_sum_nonneg(shape: WidgetShape)
    ensures
        shape.rot_sum() >= 0,
    decreases shape,
{
    match shape {
        WidgetShape::Rotated(child, _off) => lemma_rot_sum_nonneg(*child),
        WidgetShape::Mix(a, b, _t) => {
            lemma_rot_sum_nonneg(*a);
            lemma_rot_sum_nonneg(*b);
        },
        _ => {},
    }
}

/// One arm of the evaluator, before the range clamp.
pub open spec fn eval_arm_spec(shape: WidgetShape, theta: int) -> int
    decreases shape, 0int,
{
    match shape {
        WidgetShape::Circle => ONE as int,
        WidgetShape::Square => recip_spec(
            max_i(abs_i(cos_fx_spec(theta)), abs_i(sin_fx_spec(theta))),
        ),
        WidgetShape::Squircle(k) => superellipse_spec(theta, k as int),
        WidgetShape::Polygon(n) => polygon_spec(n as int, theta),
        WidgetShape::SuperPolygon(n, k) => superellipse_spec((n * theta) / 4, k as int),
        WidgetShape::Rotated(child, off) => eval_spec(*child, theta - off),
        WidgetShape::Mix(a, b, t) => {
            let ea = eval_spec(*a, theta);
            let eb = eval_spec(*b, theta);
            (ea * (ONE - t)) / (ONE as int) + (eb * (t as int)) / (ONE as int)
        },
        WidgetShape::Custom(tbl) => {
            let idx = (norm_excl_spec(theta) * tbl@.len()) / (TAU_FX as int);
            tbl@[idx] as int
        },
    }
}

/// The radius multiplier of `shape` at angle `theta`: the evaluator arm,
/// clamped into the representable range `[-EVAL_LIMIT, EVAL_LIMIT]`.
pub open spec fn eval_spec(shape: WidgetShape, theta: int) -> int
    decreases shape, 1int,
{
    clamp_i(eval_arm_spec(shape, theta), -EVAL_LIMIT as int, EVAL_LIMIT as int)
}

fn recip(d: i64) -> (r: i64)
    requires
        -0x4000_0000_0000_0000 <= d <= 0x4000_0000_0000_0000,
    ensures
        r == recip_spec(d as int),
        0 <= r <= 4 * ONE,
{
    let m: i64 = max_fx(d, MIN_DENOM);
    proof {
        lemma_div_pos_is_pos(ONE as int * ONE as int, m as int);
        lemma_div_is_ordered_by_denominator(ONE as int * ONE as int, MIN_DENOM as int, m as int);
    }
    (ONE * ONE) / m
}

impl WidgetShape {
    /// Evaluate the radius multiplier of this shape at the angle `theta`,
    /// in fixed-point units.  The angle budget in the precondition is a
    /// machine limit: it admits every angle within many turns plus the
    /// largest admissible rotation chain.
    pub fn eval(&self, theta: i64) -> (r: i64)
        requires
            self.wf(),
            abs_i(theta as int) + self.rot_sum() <= THETA_BUDGET,
        ensures
            r == eval_spec(*self, theta as int),
            -EVAL_LIMIT <= r <= EVAL_LIMIT,
        decreases self,
    {
        proof {
            lemma_rot_sum_nonneg(*self);
        }
        match self {
            WidgetShape::Circle => ONE,
            WidgetShape::Square => {
                let (c, s) = cos_sin_fx(theta);
                let m: i64 = max_fx(abs_fx(c), abs_fx(s));
                recip(m)
            },
            WidgetShape::Squircle(k) => {
                let (c, s) = cos_sin_fx(theta);
                let pa: i64 = pow_frac(abs_fx(c), *k);
                let pb: i64 = pow_frac(abs_fx(s), *k);
                pow_neg_inv(max_fx(pa + pb, 1), *k)
            },
            WidgetShape::Polygon(n) => {
                proof {
                    assert(-72057594037927936 <= (*n as int) * (theta as int)
                        <= 72057594037927936) by (nonlinear_arith)
                        requires
                            0 <= *n as int <= 1024,
                            -0x4000_0000_0000 <= theta as int <= 0x4000_0000_0000;
                }
                let prod: i64 = (*n as i64) * theta;
                let phi: i64 = div_floor(prod, 2);
                proof {
                    lemma_div_is_ordered(-72057594037927936, prod as int, 2);
                    lemma_div_is_ordered(prod as int, 72057594037927936, 2);
                }
                let m: i64 = normalized_angle_unsigned_excl(phi);
                let d: i64 = min_fx(m, TAU_FX - m);
                let a: i64 = abs_fx(QUARTER_TURN - d);
                let inner: i64 = div_floor(2 * a, *n as i64);
                proof {
                    lemma_div_pos_is_pos(2 * a as int, *n as int);
                    lemma_div_is_ordered(2 * a as int, 2 * TAU_FX as int, *n as int);
                }
                let (c, _s) = cos_sin_fx(inner);
                recip(c)
            },
            WidgetShape::SuperPolygon(n, k) => {
                proof {
                    assert(-72057594037927936 <= (*n as int) * (theta as int)
                        <= 72057594037927936) by (nonlinear_arith)
                        requires
                            0 <= *n as int <= 1024,
                            -0x4000_0000_0000 <= theta as int <= 0x4000_0000_0000;
                }
                let prod: i64 = (*n as i64) * theta;
                let phi: i64 = div_floor(prod, 4);
                proof {
                    lemma_div_is_ordered(-72057594037927936, prod as int, 4);
                    lemma_div_is_ordered(prod as int, 72057594037927936, 4);
                }
                let (c, s) = cos_sin_fx(phi);
                let pa: i64 = pow_frac(abs_fx(c), *k);
                let pb: i64 = pow_frac(abs_fx(s), *k);
                pow_neg_inv(max_fx(pa + pb, 1), *k)
            },
            WidgetShape::Rotated(child, off) => (&**child).eval(theta - *off),
            WidgetShape::Mix(a, b, t) => {
                let ea: i64 = (&**a).eval(theta);
                let eb: i64 = (&**b).eval(theta);
                let wa: i64 = ONE - *t;
                proof {
                    assert(-38046409652025950208 <= (ea as int) * (wa as int)
                        <= 38046409652025950208) by (nonlinear_arith)
                        requires
                            -0x100_0000_0000 <= ea as int <= 0x100_0000_0000,
                            -34603008 <= wa as int <= 34603008;
                    assert(-36893488147419103232 <= (eb as int) * (*t as int)
                        <= 36893488147419103232) by (nonlinear_arith)
                        requires
                            -0x100_0000_0000 <= eb as int <= 0x100_0000_0000,
                            -33554432 <= *t as int <= 33554432;
                }
                let ta: i64 = mul_div_one(ea, wa);
                let tb: i64 = mul_div_one(eb, *t);
                proof {
                    lemma_div_is_ordered(-38046409652025950208, (ea as int) * (wa as int), ONE as int);
                    lemma_div_is_ordered((ea as int) * (wa as int), 38046409652025950208, ONE as int);
                    lemma_div_is_ordered(-36893488147419103232, (eb as int) * (*t as int), ONE as int);
                    lemma_div_is_ordered((eb as int) * (*t as int), 36893488147419103232, ONE as int);
                }
                clamp_fx(ta + tb, -EVAL_LIMIT, EVAL_LIMIT)
            },
            WidgetShape::Custom(tbl) => {
                let m: i64 = normalized_angle_unsigned_excl(theta);
                let len: usize = tbl.len();
                proof {
                    assert(0 <= (m as int) * (len as int) <= 26986016768) by (nonlinear_arith)
                        requires
                            0 <= m as int <= 6588383,
                            0 <= len as int <= 4096;
                }
                let prod: i64 = m * (len as i64);
                let idx: i64 = prod / TAU_FX;
                proof {
                    lemma_div_pos_is_pos(prod as int, TAU_FX as int);
                    lemma_fundamental_div_mod(prod as int, TAU_FX as int);
                    lemma_mod_bound(prod as int, TAU_FX as int);
                    assert(idx < len) by (nonlinear_arith)
                        requires
                            (prod as int) == (m as int) * (len as int),
                            (prod as int) == (TAU_FX as int) * (idx as int) + (prod as int) % (
                            TAU_FX as int),
                            0 <= (prod as int) % (TAU_FX as int),
                            (prod as int) % (TAU_FX as int) < (TAU_FX as int),
                            0 <= (m as int),
                            (m as int) < (TAU_FX as int),
                            1 <= (len as int);
                }
                tbl[idx as usize]
            },
        }
    }

    /// Check every parameter invariant of this descriptor: returns `Ok`
    /// exactly on well-formed descriptors and `InvalidParameter` otherwise.
    #[verifier::loop_isolation(false)]
    pub fn validate(&self) -> (r: Result<(), ShapeError>)
        ensures
            r is Ok <==> self.wf(),
        decreases self,
    {
        match self {
            WidgetShape::Circle => Ok(()),
            WidgetShape::Square => Ok(()),
            WidgetShape::Squircle(k) => {
                if 1 <= *k && *k <= K_LIMIT {
                    Ok(())
                } else {
                    Err(ShapeError::InvalidParameter)
                }
            },
            WidgetShape::Polygon(n) => {
                if 3 <= *n && *n <= SIDES_LIMIT {
                    Ok(())
                } else {
                    Err(ShapeError::InvalidParameter)
                }
            },
            WidgetShape::SuperPolygon(n, k) => {
                if 3 <= *n && *n <= SIDES_LIMIT && 1 <= *k && *k <= 2 * ONE {
                    Ok(())
                } else {
                    Err(ShapeError::InvalidParameter)
                }
            },
            WidgetShape::Rotated(child, off) => {
                if -OFFSET_LIMIT <= *off && *off <= OFFSET_LIMIT {
                    (&**child).validate()
                } else {
                    Err(ShapeError::InvalidParameter)
                }
            },
            WidgetShape::Mix(a, b, t) => {
                if -T_LIMIT <= *t && *t <= T_LIMIT {
                    let ra = (&**a).validate();
                    if ra.is_err() {
                        return ra;
                    }
                    (&**b).validate()
                } else {
                    Err(ShapeError::InvalidParameter)
                }
            },
            WidgetShape::Custom(tbl) => {
                if tbl.len() < 1 || tbl.len() > SAMPLES_LIMIT {
                    return Err(ShapeError::InvalidParameter);
                }
                let mut j: usize = 0;
                while j < tbl.len()
                    invariant
                        0 <= j <= tbl@.len(),
                        forall|i: int| 0 <= i < j ==> 0 <= #[trigger] tbl@[i] <= EVAL_LIMIT,
                        1 <= tbl@.len() <= SAMPLES_LIMIT,
                    decreases tbl@.len() - j,
                {
                    let v: i64 = tbl[j];
                    if v < 0 || v > EVAL_LIMIT {
                        proof {
                            assert(!(0 <= tbl@[j as int] <= EVAL_LIMIT));
                        }
                        return Err(ShapeError::InvalidParameter);
                    }
                    j += 1;
                }
                Ok(())
            },
        }
    }
}

/// Given valid parameters, and blend weights that interpolate rather than
/// extrapolate, the radius multiplier is non-negative at every angle (and
/// bounded above, hence finite).
pub proof fn lemma_eval_nonneg(shape: WidgetShape, theta: int)
    requires
        shape.wf(),
        shape.interpolative(),
    ensures
        0 <= eval_spec(shape, theta) <= EVAL_LIMIT,
    decreases shape,
{
    match shape {
        WidgetShape::Circle => {},
        WidgetShape::Square => {
            let d = max_i(abs_i(cos_fx_spec(theta)), abs_i(sin_fx_spec(theta)));
            lemma_div_pos_is_pos(ONE as int * ONE as int, max_i(d, MIN_DENOM as int));
        },
        WidgetShape::Squircle(k) => {
            let a = pow_frac_spec(abs_i(cos_fx_spec(theta)), k as int);
            let b = pow_frac_spec(abs_i(sin_fx_spec(theta)), k as int);
            let s = max_i(a + b, 1);
            lemma_exp_spec_nonneg(0 - (crate::power::ln_spec(s) * ONE) / (k as int));
        },
        WidgetShape::Polygon(n) => {
            let phi = (n * theta) / 2;
            let m = norm_excl_spec(phi);
            let d = min_i(m, TAU_FX - m);
            let inner = (2 * abs_i(QUARTER_TURN - d)) / (n as int);
            lemma_div_pos_is_pos(
                ONE as int * ONE as int,
                max_i(cos_fx_spec(inner), MIN_DENOM as int),
            );
        },
        WidgetShape::SuperPolygon(n, k) => {
            let phi = (n * theta) / 4;
            let a = pow_frac_spec(abs_i(cos_fx_spec(phi)), k as int);
            let b = pow_frac_spec(abs_i(sin_fx_spec(phi)), k as int);
            let s = max_i(a + b, 1);
            lemma_exp_spec_nonneg(0 - (crate::power::ln_spec(s) * ONE) / (k as int));
        },
        WidgetShape::Rotated(child, off) => {
            lemma_eval_nonneg(*child, theta - off);
        },
        WidgetShape::Mix(a, b, t) => {
            lemma_eval_nonneg(*a, theta);
            lemma_eval_nonneg(*b, theta);
            let ea = eval_spec(*a, theta);
            let eb = eval_spec(*b, theta);
            lemma_mul_nonnegative(ea, ONE - t);
            lemma_mul_nonnegative(eb, t as int);
            lemma_div_pos_is_pos(ea * (ONE - t), ONE as int);
            lemma_div_pos_is_pos(eb * (t as int), ONE as int);
        },
        WidgetShape::Custom(tbl) => {
            let m = norm_excl_spec(theta);
            lemma_mod_bound(theta, TAU_FX as int);
            lemma_mul_nonnegative(m, tbl@.len() as int);
            let prod = m * tbl@.len();
            let idx = prod / (TAU_FX as int);
            lemma_div_pos_is_pos(prod, TAU_FX as int);
            lemma_fundamental_div_mod(prod, TAU_FX as int);
            lemma_mod_bound(prod, TAU_FX as int);
            assert(idx < tbl@.len()) by (nonlinear_arith)
                requires
                    prod == m * tbl@.len(),
                    prod == TAU_FX * idx + prod % (TAU_FX as int),
                    0 <= prod % (TAU_FX as int) < TAU_FX,
                    0 <= m < TAU_FX,
                    1 <= tbl@.len();
        },
    }
}

/// The evaluator's result always lies in the representable range.
pub proof fn lemma_eval_bounded(shape: WidgetShape, theta: int)
    ensures
        -EVAL_LIMIT <= eval_spec(shape, theta) <= EVAL_LIMIT,
{
}

/// A circle's radius multiplier is exactly one, at every angle.
pub proof fn lemma_circle_unit(theta: int)
    ensures
        eval_spec(WidgetShape::Circle, theta) == ONE,
{
}

/// Rotating a shape shifts its angular argument and changes nothing else:
/// the rotated shape at `theta` equals the child at `theta - offset`.
pub proof fn lemma_rotated_shift(m: WidgetShape, theta: int)
    requires
        m is Rotated,
    ensures
        eval_spec(m, theta) == eval_spec(*m->Rotated_0, theta - m->Rotated_1),
{
}

/// Blending is exact at its endpoints: weight zero yields the first shape's
/// radius and weight `ONE` the second's, at every angle.
pub proof fn lemma_mix_endpoints(m: WidgetShape, theta: int)
    requires
        m is Mix,
    ensures
        m->Mix_2 == 0 ==> eval_spec(m, theta) == eval_spec(*m->Mix_0, theta),
        m->Mix_2 == ONE ==> eval_spec(m, theta) == eval_spec(*m->Mix_1, theta),
{
    let ea = eval_spec(*m->Mix_0, theta);
    let eb = eval_spec(*m->Mix_1, theta);
    lemma_div_multiples_vanish(ea, ONE as int);
    lemma_div_multiples_vanish(eb, ONE as int);
    lemma_div_multiples_vanish(0, ONE as int);
    assert(ea * (ONE as int) == (ONE as int) * ea) by (nonlinear_arith);
    assert(eb * (ONE as int) == (ONE as int) * eb) by (nonlinear_arith);
    assert(ea * 0 == 0) by (nonlinear_arith);
    assert(eb * 0 == 0) by (nonlinear_arith);
}

} // verus!
