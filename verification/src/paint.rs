use vstd::prelude::*;
use crate::fixed::{ONE, abs_i, max_i, abs_fx, max_fx, div_floor, div_floor_128};
use crate::trig::{cos_fx_spec, sin_fx_spec, cos_sin_fx};
use crate::shape::{WidgetShape, eval_spec, lemma_rot_sum_nonneg};
use vstd::arithmetic::div_mod::lemma_div_is_ordered;

verus! {

/// Number of angular samples per full turn of tessellated outline.
pub const RESOLUTION: usize = 32;

/// Angular step between successive outline samples: one turn divided by
/// `RESOLUTION`.
pub const ANGLE_STEP: i64 = 205887;

/// Spans smaller than this (about a thousandth of a radian) are treated as
/// degenerate and drawn as a single line segment, so that no near-zero-area
/// polygon ever reaches the fill renderer.
pub const ARC_EPSILON: i64 = 1049;

/// Floor applied to an arc band's inner radius (about a tenth of a pixel),
/// keeping the inner ring of the band away from a degenerate point.
pub const INNER_RADIUS_FLOOR: i64 = 104858;

/// Bound on center coordinates handed to the tessellator.
pub const COORD_LIMIT: i64 = 0x40_0000_0000;

/// Bound on radii handed to the tessellator.
pub const RADIUS_LIMIT: i64 = 0x4_0000_0000;

/// Bound on rotation, start and end angles handed to the tessellator.
pub const PAINT_ANGLE_LIMIT: i64 = 0x40_0000_0000;

/// Bound on the rotation chains of descriptors handed to the tessellator.
pub const PAINT_ROT_SUM_LIMIT: i64 = 0x100_0000_0000;

/// A point of the painting surface, in fixed-point pixel units.
#[derive(Clone, Copy, PartialEq, Eq, Structural, Debug)]
pub struct PaintPoint {
    pub x: i64,
    pub y: i64,
}

/// An sRGBA fill or stroke color.
#[derive(Clone, Copy, PartialEq, Eq, Structural, Debug)]
pub struct PaintColor {
    pub r: u8,
    pub g: u8,
    pub b: u8,
    pub a: u8,
}

/// Stroke style of outline primitives: line width in fixed-point pixel
/// units, plus a color.
#[derive(Clone, Copy, PartialEq, Eq, Structural, Debug)]
pub struct PaintStroke {
    pub width: i64,
    pub color: PaintColor,
}

/// One draw command for the abstract painter sink.  Filled primitives carry
/// the fill color; line primitives carry the stroke style.
#[derive(Debug)]
pub enum DrawCommand {
    FillTriangle { a: PaintPoint, b: PaintPoint, c: PaintPoint, color: PaintColor },
    FillQuad { a: PaintPoint, b: PaintPoint, c: PaintPoint, d: PaintPoint, color: PaintColor },
    LineSegment { a: PaintPoint, b: PaintPoint, stroke: PaintStroke },
    ClosedPolyline { points: Vec<PaintPoint>, stroke: PaintStroke },
}

/// The outline point of `shape` seen from `center` at `angle`: the unit
/// direction of `angle` scaled by the nominal radius and by the shape's
/// radius multiplier at `angle - rotation`.
pub open spec fn sample_point_spec(
    shape: WidgetShape,
    center: PaintPoint,
    radius: int,
    rotation: int,
    angle: int,
) -> PaintPoint {
    let rad = eval_spec(shape, angle - rotation);
    let qx = ((cos_fx_spec(angle) * radius) * rad) / (ONE as int * ONE as int);
    let qy = ((sin_fx_spec(angle) * radius) * rad) / (ONE as int * ONE as int);
    PaintPoint { x: (center.x + qx) as i64, y: (center.y + qy) as i64 }
}

/// The `i`-th of the `RESOLUTION` evenly spaced full-outline sample points.
pub open spec fn outline_point_spec(
    shape: WidgetShape,
    center: PaintPoint,
    radius: int,
    rotation: int,
    i: int,
) -> PaintPoint {
    sample_point_spec(shape, center, radius, rotation, i * ANGLE_STEP)
}

/// The `i`-th of `RESOLUTION + 1` angles interpolated from `start` to `end`,
/// both ends inclusive.
pub open spec fn arc_angle_spec(start: int, end: int, i: int) -> int {
    start + ((end - start) * i) / (RESOLUTION as int)
}

/// The `i`-th sample point of an arc at the given radius.
pub open spec fn arc_point_spec(
    shape: WidgetShape,
    center: PaintPoint,
    radius: int,
    rotation: int,
    start: int,
    end: int,
    i: int,
) -> PaintPoint {
    sample_point_spec(shape, center, radius, rotation, arc_angle_spec(start, end, i))
}

fn scale_point(center: PaintPoint, c: i64, s: i64, radius: i64, rad: i64) -> (r: PaintPoint)
    requires
        -ONE <= c <= ONE,
        -ONE <= s <= ONE,
        0 <= radius <= RADIUS_LIMIT,
        -0x100_0000_0000 <= rad <= 0x100_0000_0000,
        -COORD_LIMIT <= center.x <= COORD_LIMIT,
        -COORD_LIMIT <= center.y <= COORD_LIMIT,
    ensures
        r.x == center.x + ((c * radius) * rad) / (ONE as int * ONE as int),
        r.y == center.y + ((s * radius) * rad) / (ONE as int * ONE as int),
{
    proof {
        assert(-18014398509481984 <= (c as int) * (radius as int) <= 18014398509481984)
            by (nonlinear_arith)
            requires
                -1048576 <= c as int <= 1048576,
                0 <= radius as int <= 0x4_0000_0000;
        assert(-18014398509481984 <= (s as int) * (radius as int) <= 18014398509481984)
            by (nonlinear_arith)
            requires
                -1048576 <= s as int <= 1048576,
                0 <= radius as int <= 0x4_0000_0000;
    }
    let cr: i64 = c * radius;
    let sr: i64 = s * radius;
    proof {
        assert(-19807040628566084398385987584 <= (cr as int) * (rad as int)
            <= 19807040628566084398385987584) by (nonlinear_arith)
            requires
                -18014398509481984 <= cr as int <= 18014398509481984,
                -0x100_0000_0000 <= rad as int <= 0x100_0000_0000;
        assert(-19807040628566084398385987584 <= (sr as int) * (rad as int)
            <= 19807040628566084398385987584) by (nonlinear_arith)
            requires
                -18014398509481984 <= sr as int <= 18014398509481984,
                -0x100_0000_0000 <= rad as int <= 0x100_0000_0000;
    }
    let px: i128 = (cr as i128) * (rad as i128);
    let py: i128 = (sr as i128) * (rad as i128);
    let qx: i128 = div_floor_128(px, (ONE as i128) * (ONE as i128));
    let qy: i128 = div_floor_128(py, (ONE as i128) * (ONE as i128));
    proof {
        lemma_div_is_ordered(
            -19807040628566084398385987584,
            px as int,
            ONE as int * ONE as int,
        );
        lemma_div_is_ordered(
            px as int,
            19807040628566084398385987584,
            ONE as int * ONE as int,
        );
        lemma_div_is_ordered(
            -19807040628566084398385987584,
            py as int,
            ONE as int * ONE as int,
        );
        lemma_div_is_ordered(
            py as int,
            19807040628566084398385987584,
            ONE as int * ONE as int,
        );
    }
    PaintPoint { x: center.x + (qx as i64), y: center.y + (qy as i64) }
}

/// Tessellate the full outline of `shape` around `center`: `RESOLUTION`
/// filled triangles fanned from the center over circularly adjacent outline
/// points, followed by one closed outline polyline through all the points,
/// emitted last so it is drawn on top of the fill.
#[verifier::loop_isolation(false)]
pub fn paint_shape(
    shape: &WidgetShape,
    center: PaintPoint,
    radius: i64,
    fill: PaintColor,
    stroke: PaintStroke,
    rotation: i64,
) -> (out: Vec<DrawCommand>)
    requires
        shape.wf(),
        shape.rot_sum() <= PAINT_ROT_SUM_LIMIT,
        -PAINT_ANGLE_LIMIT <= rotation <= PAINT_ANGLE_LIMIT,
        -COORD_LIMIT <= center.x <= COORD_LIMIT,
        -COORD_LIMIT <= center.y <= COORD_LIMIT,
        0 <= radius <= RADIUS_LIMIT,
    ensures
        out.len() == RESOLUTION + 1,
        forall|i: int|
            0 <= i < RESOLUTION ==> (#[trigger] out@[i] matches DrawCommand::FillTriangle {
                a,
                b,
                c,
                color,
            } && a == center && b == outline_point_spec(
                *shape,
                center,
                radius as int,
                rotation as int,
                i,
            ) && c == outline_point_spec(
                *shape,
                center,
                radius as int,
                rotation as int,
                if i + 1 == RESOLUTION {
                    0int
                } else {
                    i + 1
                },
            ) && color == fill),
        (out@[RESOLUTION as int] matches DrawCommand::ClosedPolyline { points, stroke: st }
            && points.len() == RESOLUTION && st == stroke && forall|i: int|
            0 <= i < RESOLUTION ==> #[trigger] points@[i] == outline_point_spec(
                *shape,
                center,
                radius as int,
                rotation as int,
                i,
            )),
{
    proof {
        lemma_rot_sum_nonneg(*shape);
    }
    let mut pts: Vec<PaintPoint> = Vec::new();
    let mut i: usize = 0;
    while i < RESOLUTION
        invariant
            0 <= i <= RESOLUTION,
            pts@.len() == i,
            forall|j: int|
                0 <= j < i ==> #[trigger] pts@[j] == outline_point_spec(
                    *shape,
                    center,
                    radius as int,
                    rotation as int,
                    j,
                ),
        decreases RESOLUTION - i,
    {
        let angle: i64 = (i as i64) * ANGLE_STEP;
        let (c, s) = cos_sin_fx(angle);
        let rad: i64 = shape.eval(angle - rotation);
        let p: PaintPoint = scale_point(center, c, s, radius, rad);
        pts.push(p);
        i += 1;
    }
    let mut out: Vec<DrawCommand> = Vec::new();
    let mut i: usize = 0;
    while i < RESOLUTION
        invariant
            0 <= i <= RESOLUTION,
            out@.len() == i,
            forall|j: int|
                0 <= j < i ==> (#[trigger] out@[j] matches DrawCommand::FillTriangle {
                    a,
                    b,
                    c,
                    color,
                } && a == center && b == outline_point_spec(
                    *shape,
                    center,
                    radius as int,
                    rotation as int,
                    j,
                ) && c == outline_point_spec(
                    *shape,
                    center,
                    radius as int,
                    rotation as int,
                    if j + 1 == RESOLUTION {
                        0int
                    } else {
                        j + 1
                    },
                ) && color == fill),
        decreases RESOLUTION - i,
    {
        let p1: PaintPoint = pts[i];
        let p2: PaintPoint = if i + 1 == RESOLUTION {
            pts[0]
        } else {
            pts[i + 1]
        };
        out.push(DrawCommand::FillTriangle { a: center, b: p1, c: p2, color: fill });
        i += 1;
    }
    out.push(DrawCommand::ClosedPolyline { points: pts, stroke });
    out
}

/// Tessellate an annular arc band between two radii over an angular span.
///
/// A span within `ARC_EPSILON` is degenerate: the band collapses to a single
/// line segment from the inner to the outer radius at the start angle, and
/// no fill primitive is emitted.  Otherwise the band is sampled at
/// `RESOLUTION + 1` angles linearly interpolated from start to end (both
/// inclusive), filled as a ruled strip of quads between the outer arc and
/// the floored inner arc, and outlined by one closed polyline tracing the
/// outer arc forward and the inner arc in reverse.
#[verifier::loop_isolation(false)]
pub fn paint_arc(
    shape: &WidgetShape,
    center: PaintPoint,
    inner_radius: i64,
    outer_radius: i64,
    start_angle: i64,
    end_angle: i64,
    fill: PaintColor,
    stroke: PaintStroke,
    rotation: i64,
) -> (out: Vec<DrawCommand>)
    requires
        shape.wf(),
        shape.rot_sum() <= PAINT_ROT_SUM_LIMIT,
        -PAINT_ANGLE_LIMIT <= rotation <= PAINT_ANGLE_LIMIT,
        -PAINT_ANGLE_LIMIT <= start_angle <= PAINT_ANGLE_LIMIT,
        -PAINT_ANGLE_LIMIT <= end_angle <= PAINT_ANGLE_LIMIT,
        -COORD_LIMIT <= center.x <= COORD_LIMIT,
        -COORD_LIMIT <= center.y <= COORD_LIMIT,
        0 <= inner_radius <= RADIUS_LIMIT,
        0 <= outer_radius <= RADIUS_LIMIT,
    ensures
        abs_i(start_angle - end_angle) <= ARC_EPSILON ==> (out.len() == 1 && (
        out@[0] matches DrawCommand::LineSegment { a, b, stroke: st } && a == sample_point_spec(
            *shape,
            center,
            inner_radius as int,
            rotation as int,
            start_angle as int,
        ) && b == sample_point_spec(
            *shape,
            center,
            outer_radius as int,
            rotation as int,
            start_angle as int,
        ) && st == stroke)),
        abs_i(start_angle - end_angle) > ARC_EPSILON ==> ({
            let inner_eff = max_i(inner_radius as int, INNER_RADIUS_FLOOR as int);
            &&& out.len() == RESOLUTION + 1
            &&& forall|i: int|
                0 <= i < RESOLUTION ==> (#[trigger] out@[i] matches DrawCommand::FillQuad {
                    a,
                    b,
                    c,
                    d,
                    color,
                } && a == arc_point_spec(
                    *shape,
                    center,
                    outer_radius as int,
                    rotation as int,
                    start_angle as int,
                    end_angle as int,
                    i,
                ) && b == arc_point_spec(
                    *shape,
                    center,
                    inner_eff,
                    rotation as int,
                    start_angle as int,
                    end_angle as int,
                    i,
                ) && c == arc_point_spec(
                    *shape,
                    center,
                    inner_eff,
                    rotation as int,
                    start_angle as int,
                    end_angle as int,
                    i + 1,
                ) && d == arc_point_spec(
                    *shape,
                    center,
                    outer_radius as int,
                    rotation as int,
                    start_angle as int,
                    end_angle as int,
                    i + 1,
                ) && color == fill)
            &&& (out@[RESOLUTION as int] matches DrawCommand::ClosedPolyline {
                points,
                stroke: st,
            } && st == stroke && points.len() == 2 * (RESOLUTION + 1) && (forall|i: int|
                0 <= i <= RESOLUTION ==> #[trigger] points@[i] == arc_point_spec(
                    *shape,
                    center,
                    outer_radius as int,
                    rotation as int,
                    start_angle as int,
                    end_angle as int,
                    i,
                )) && (forall|i: int|
                0 <= i <= RESOLUTION ==> #[trigger] points@[RESOLUTION + 1 + i]
                    == arc_point_spec(
                    *shape,
                    center,
                    inner_eff,
                    rotation as int,
                    start_angle as int,
                    end_angle as int,
                    RESOLUTION - i,
                )))
        }),
{
    proof {
        lemma_rot_sum_nonneg(*shape);
    }
    let span: i64 = start_angle - end_angle;
    let aspan: i64 = abs_fx(span);
    if aspan <= ARC_EPSILON {
        let (c, s) = cos_sin_fx(start_angle);
        let rad: i64 = shape.eval(start_angle - rotation);
        let a: PaintPoint = scale_point(center, c, s, inner_radius, rad);
        let b: PaintPoint = scale_point(center, c, s, outer_radius, rad);
        let mut out: Vec<DrawCommand> = Vec::new();
        out.push(DrawCommand::LineSegment { a, b, stroke });
        out
    } else {
        let inner_eff: i64 = max_fx(inner_radius, INNER_RADIUS_FLOOR);
        let diff: i64 = end_angle - start_angle;
        let mut outer_arc: Vec<PaintPoint> = Vec::new();
        let mut inner_arc: Vec<PaintPoint> = Vec::new();
        let mut i: usize = 0;
        while i <= RESOLUTION
            invariant
                0 <= i <= RESOLUTION + 1,
                outer_arc@.len() == i,
                inner_arc@.len() == i,
                forall|j: int|
                    0 <= j < i ==> #[trigger] outer_arc@[j] == arc_point_spec(
                        *shape,
                        center,
                        outer_radius as int,
                        rotation as int,
                        start_angle as int,
                        end_angle as int,
                        j,
                    ),
                forall|j: int|
                    0 <= j < i ==> #[trigger] inner_arc@[j] == arc_point_spec(
                        *shape,
                        center,
                        inner_eff as int,
                        rotation as int,
                        start_angle as int,
                        end_angle as int,
                        j,
                    ),
            decreases RESOLUTION + 1 - i,
        {
            proof {
                assert(-17592186044416 <= (diff as int) * (i as int) <= 17592186044416)
                    by (nonlinear_arith)
                    requires
                        -549755813888 <= diff as int <= 549755813888,
                        0 <= i as int <= 32;
            }
            let prod: i64 = diff * (i as i64);
            let delta: i64 = div_floor(prod, RESOLUTION as i64);
            proof {
                lemma_div_is_ordered(-17592186044416, prod as int, 32);
                lemma_div_is_ordered(prod as int, 17592186044416, 32);
            }
            let angle: i64 = start_angle + delta;
            let (c, s) = cos_sin_fx(angle);
            let rad: i64 = shape.eval(angle - rotation);
            outer_arc.push(scale_point(center, c, s, outer_radius, rad));
            inner_arc.push(scale_point(center, c, s, inner_eff, rad));
            i += 1;
        }
        let mut out: Vec<DrawCommand> = Vec::new();
        let mut i: usize = 0;
        while i < RESOLUTION
            invariant
                0 <= i <= RESOLUTION,
                out@.len() == i,
                forall|j: int|
                    0 <= j < i ==> (#[trigger] out@[j] matches DrawCommand::FillQuad {
                        a,
                        b,
                        c,
                        d,
                        color,
                    } && a == arc_point_spec(
                        *shape,
                        center,
                        outer_radius as int,
                        rotation as int,
                        start_angle as int,
                        end_angle as int,
                        j,
                    ) && b == arc_point_spec(
                        *shape,
                        center,
                        inner_eff as int,
                        rotation as int,
                        start_angle as int,
                        end_angle as int,
                        j,
                    ) && c == arc_point_spec(
                        *shape,
                        center,
                        inner_eff as int,
                        rotation as int,
                        start_angle as int,
                        end_angle as int,
                        j + 1,
                    ) && d == arc_point_spec(
                        *shape,
                        center,
                        outer_radius as int,
                        rotation as int,
                        start_angle as int,
                        end_angle as int,
                        j + 1,
                    ) && color == fill),
            decreases RESOLUTION - i,
        {
            out.push(
                DrawCommand::FillQuad {
                    a: outer_arc[i],
                    b: inner_arc[i],
                    c: inner_arc[i + 1],
                    d: outer_arc[i + 1],
                    color: fill,
                },
            );
            i += 1;
        }
        let mut pts: Vec<PaintPoint> = Vec::new();
        let mut i: usize = 0;
        while i <= RESOLUTION
            invariant
                0 <= i <= RESOLUTION + 1,
                pts@.len() == i,
                forall|j: int| 0 <= j < i ==> #[trigger] pts@[j] == outer_arc@[j],
            decreases RESOLUTION + 1 - i,
        {
            pts.push(outer_arc[i]);
            i += 1;
        }
        let mut j: usize = 0;
        while j <= RESOLUTION
            invariant
                0 <= j <= RESOLUTION + 1,
                pts@.len() == RESOLUTION + 1 + j,
                forall|t: int| 0 <= t <= RESOLUTION ==> #[trigger] pts@[t] == outer_arc@[t],
                forall|t: int|
                    0 <= t < j ==> #[trigger] pts@[RESOLUTION + 1 + t] == inner_arc@[
                        RESOLUTION - t],
            decreases RESOLUTION + 1 - j,
        {
            pts.push(inner_arc[RESOLUTION - j]);
            j += 1;
        }
        out.push(DrawCommand::ClosedPolyline { points: pts, stroke });
        out
    }
}

} // verus!
