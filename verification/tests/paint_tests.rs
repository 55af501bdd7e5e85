use polar_shapes::{
    paint_arc, paint_shape, DrawCommand, PaintColor, PaintPoint, PaintStroke, WidgetShape, ONE,
    QUARTER_TURN, RESOLUTION,
};

fn red() -> PaintColor {
    PaintColor { r: 255, g: 0, b: 0, a: 255 }
}

fn thin_stroke() -> PaintStroke {
    PaintStroke { width: ONE, color: PaintColor { r: 0, g: 0, b: 0, a: 255 } }
}

fn origin() -> PaintPoint {
    PaintPoint { x: 0, y: 0 }
}

#[test]
fn full_outline_emits_a_fan_and_one_closed_polyline() {
    let shape = WidgetShape::Polygon(6);
    let out = paint_shape(&shape, origin(), 100 * ONE, red(), thin_stroke(), 0);
    assert_eq!(out.len(), RESOLUTION + 1);
    for cmd in out.iter().take(RESOLUTION) {
        assert!(matches!(cmd, DrawCommand::FillTriangle { .. }));
    }
    match &out[RESOLUTION] {
        DrawCommand::ClosedPolyline { points, stroke } => {
            assert_eq!(points.len(), RESOLUTION);
            assert_eq!(*stroke, thin_stroke());
        }
        _ => panic!("last command must be the closed outline"),
    }
}

#[test]
fn full_outline_fan_shares_center_and_wraps_around() {
    let shape = WidgetShape::Circle;
    let center = PaintPoint { x: 10 * ONE, y: -5 * ONE };
    let out = paint_shape(&shape, center, 100 * ONE, red(), thin_stroke(), 0);
    let mut firsts: Vec<PaintPoint> = Vec::new();
    let mut seconds: Vec<PaintPoint> = Vec::new();
    for cmd in out.iter().take(RESOLUTION) {
        match cmd {
            DrawCommand::FillTriangle { a, b, c, color } => {
                assert_eq!(*a, center);
                assert_eq!(*color, red());
                firsts.push(*b);
                seconds.push(*c);
            }
            _ => panic!("fan triangle expected"),
        }
    }
    match &out[RESOLUTION] {
        DrawCommand::ClosedPolyline { points, .. } => {
            for i in 0..RESOLUTION {
                assert_eq!(firsts[i], points[i]);
                assert_eq!(seconds[i], points[(i + 1) % RESOLUTION]);
            }
            assert_eq!(points[0], PaintPoint { x: center.x + 100 * ONE, y: center.y });
            assert_eq!(points[8], PaintPoint { x: center.x, y: center.y + 100 * ONE });
            assert_eq!(points[16], PaintPoint { x: center.x - 100 * ONE, y: center.y });
        }
        _ => panic!("last command must be the closed outline"),
    }
}

#[test]
fn degenerate_arc_collapses_to_one_line_segment() {
    let shape = WidgetShape::Circle;
    let out = paint_arc(
        &shape,
        origin(),
        20 * ONE,
        100 * ONE,
        QUARTER_TURN,
        QUARTER_TURN,
        red(),
        thin_stroke(),
        0,
    );
    assert_eq!(out.len(), 1);
    match &out[0] {
        DrawCommand::LineSegment { a, b, stroke } => {
            assert_eq!(*stroke, thin_stroke());
            assert_eq!(a.x, 0);
            assert_eq!(b.x, 0);
            assert!((a.y - 20 * ONE).abs() <= 64);
            assert!((b.y - 100 * ONE).abs() <= 64);
        }
        _ => panic!("degenerate arc must be a single line segment"),
    }
    let fills = out
        .iter()
        .filter(|c| matches!(c, DrawCommand::FillTriangle { .. } | DrawCommand::FillQuad { .. }))
        .count();
    assert_eq!(fills, 0);
}

#[test]
fn quarter_arc_emits_quad_strip_and_band_outline() {
    let shape = WidgetShape::Circle;
    let out = paint_arc(
        &shape,
        origin(),
        20 * ONE,
        100 * ONE,
        0,
        QUARTER_TURN,
        red(),
        thin_stroke(),
        0,
    );
    assert_eq!(out.len(), RESOLUTION + 1);
    let quads = out
        .iter()
        .filter(|c| matches!(c, DrawCommand::FillQuad { .. }))
        .count();
    assert_eq!(quads, RESOLUTION);
    match &out[RESOLUTION] {
        DrawCommand::ClosedPolyline { points, stroke } => {
            assert_eq!(points.len(), 2 * (RESOLUTION + 1));
            assert_eq!(*stroke, thin_stroke());
            assert_eq!(points[0], PaintPoint { x: 100 * ONE, y: 0 });
            assert_eq!(points[2 * RESOLUTION + 1], PaintPoint { x: 20 * ONE, y: 0 });
        }
        _ => panic!("last command must be the closed band outline"),
    }
}

#[test]
fn quad_strip_is_ruled_between_the_two_arcs() {
    let shape = WidgetShape::Circle;
    let out = paint_arc(
        &shape,
        origin(),
        20 * ONE,
        100 * ONE,
        0,
        QUARTER_TURN,
        red(),
        thin_stroke(),
        0,
    );
    let mut prev: Option<(PaintPoint, PaintPoint)> = None;
    for cmd in out.iter().take(RESOLUTION) {
        match cmd {
            DrawCommand::FillQuad { a, b, c, d, color } => {
                assert_eq!(*color, red());
                if let Some((prev_outer, prev_inner)) = prev {
                    assert_eq!(prev_outer, *a);
                    assert_eq!(prev_inner, *b);
                }
                prev = Some((*d, *c));
            }
            _ => panic!("quad expected"),
        }
    }
}

#[test]
fn zero_inner_radius_is_floored_away_from_the_center() {
    let shape = WidgetShape::Circle;
    let out = paint_arc(
        &shape,
        origin(),
        0,
        100 * ONE,
        0,
        QUARTER_TURN,
        red(),
        thin_stroke(),
        0,
    );
    match &out[0] {
        DrawCommand::FillQuad { b, .. } => {
            assert!(b.x > 0, "inner arc must sit strictly outside the center");
        }
        _ => panic!("quad expected"),
    }
}
