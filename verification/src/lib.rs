//! Polar-shape evaluation and tessellation for non-rectangular widget
//! outlines.
//!
//! A widget outline is a closed curve, star-shaped about its center, given by
//! a radius multiplier as a function of angle.  This crate evaluates such
//! shape descriptors (circle, square, squircle, regular polygon,
//! super-polygon, rotated and blended composites, sampled custom curves) and
//! tessellates them into plain fill-and-outline draw commands for an abstract
//! painter sink.  All arithmetic is fixed-point: scalars carry 20 fractional
//! bits in an `i64`.

mod angle;
mod common;
mod fixed;
mod paint;
mod power;
mod shape;
mod trig;

pub use angle::{norm_excl_spec, norm_incl_spec};
pub use angle::{normalized_angle_unsigned_excl, normalized_angle_unsigned_incl};
pub use angle::{lemma_norm_excl_periodic, lemma_norm_incl_endpoint};
pub use fixed::{ONE, TAU_FX, HALF_TURN, QUARTER_TURN, EIGHTH_TURN, EVAL_LIMIT};
pub use fixed::{abs_i, min_i, max_i, clamp_i};
pub use fixed::{abs_fx, min_fx, max_fx, clamp_fx, div_floor, mul_div_one};
pub use common::{Orientation, Winding, WrapMode};
pub use paint::{RESOLUTION, ANGLE_STEP, ARC_EPSILON, INNER_RADIUS_FLOOR, COORD_LIMIT, RADIUS_LIMIT, PAINT_ANGLE_LIMIT, PAINT_ROT_SUM_LIMIT};
pub use paint::{PaintPoint, PaintColor, PaintStroke, DrawCommand};
pub use paint::{sample_point_spec, outline_point_spec, arc_angle_spec, arc_point_spec, paint_shape, paint_arc};
pub use power::{LN2_FX, POW_MAX, K_LIMIT, ln_spec, exp_spec, pow_frac_spec, pow_neg_inv_spec};
pub use power::{ln_fx, exp_fx, pow_frac, pow_neg_inv, lemma_exp_spec_nonneg};
pub use shape::{WidgetShape, ShapeError, MIN_DENOM, OFFSET_LIMIT, T_LIMIT, SIDES_LIMIT, SAMPLES_LIMIT, THETA_BUDGET};
pub use shape::{recip_spec, polygon_spec, superellipse_spec, eval_arm_spec, eval_spec};
pub use shape::{lemma_eval_bounded, lemma_circle_unit, lemma_rotated_shift, lemma_mix_endpoints};
pub use shape::{lemma_eval_nonneg, lemma_rot_sum_nonneg};
pub use trig::{COS_OCT_MIN, cos_fx_spec, sin_fx_spec, cos_sin_fx};
