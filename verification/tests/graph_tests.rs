use graph_rs::equation::{Point, Polynomial, Term};
use graph_rs::fixed::Fixed;
use graph_rs::graph::{Graph, PixelPoint, StrokeClass, Viewport};

fn fx(raw: i64) -> Fixed {
    Fixed::from_raw(raw)
}

fn standard_graph(scale_raw: i64) -> Graph {
    Graph::new(
        Viewport {
            width: 1000,
            height: 600,
        },
        fx(scale_raw),
        PixelPoint { x: fx(0), y: fx(0) },
    )
}

fn linear_eq() -> Polynomial {
    // 0.5x + 1
    Polynomial::new(vec![
        Term::new(fx(500_000), 1),
        Term::new(fx(1_000_000), 0),
    ])
}

fn quadratic_eq() -> Polynomial {
    Polynomial::new(vec![Term::new(fx(1_000_000), 2)])
}

#[test]
fn transform_maps_origin_to_viewport_center() {
    let g = standard_graph(50_000_000);
    let px = g.convert_point_to_px(Point { x: fx(0), y: fx(0) });
    assert_eq!(px.x, fx(500_000_000));
    assert_eq!(px.y, fx(300_000_000));

    // One unit right and up moves 50 pixels right and 50 pixels up
    // (pixel y shrinks).
    let px = g.convert_point_to_px(Point {
        x: fx(1_000_000),
        y: fx(1_000_000),
    });
    assert_eq!(px.x, fx(550_000_000));
    assert_eq!(px.y, fx(250_000_000));
}

#[test]
fn transform_round_trip_is_close() {
    let g = standard_graph(50_000_000);
    // Math points with a fractional part survive the round trip to
    // within a few millionths of a unit: one truncation going out,
    // one coming back.
    for &(x, y) in &[
        (1_234_567i64, -7_654_321i64),
        (0, 0),
        (999_999, 1),
        (-500_000, 500_000),
    ] {
        let p = Point { x: fx(x), y: fx(y) };
        let px = g.convert_point_to_px(p);
        let back = g.convert_px_to_point(px);
        assert!((back.x.raw - x).abs() <= 2, "x drifted: {}", back.x.raw);
        assert!((back.y.raw - y).abs() <= 2, "y drifted: {}", back.y.raw);
    }

    // A panned view round-trips just as well.
    let mut g = standard_graph(7_500_000);
    g.offset = PixelPoint {
        x: fx(123_456_789),
        y: fx(-987_654_321),
    };
    let p = Point {
        x: fx(2_718_281),
        y: fx(-3_141_592),
    };
    let back = g.convert_px_to_point(g.convert_point_to_px(p));
    assert!((back.x.raw - p.x.raw).abs() <= 2);
    assert!((back.y.raw - p.y.raw).abs() <= 2);
}

#[test]
fn visible_ranges_cover_the_viewport() {
    // 1000x600 viewport at 50 px/unit, origin centered: ten units fit
    // on each side of x, six on each side of y.
    let g = standard_graph(50_000_000);
    assert_eq!(g.get_x_range(), (-10, 10));
    assert_eq!(g.get_y_range(), (-6, 6));

    // A partial unit at the edge still counts (ceiling).
    let g = standard_graph(45_000_000);
    assert_eq!(g.get_x_range(), (-12, 12));
}

#[test]
fn linear_fast_path_emits_two_samples() {
    // A linear polynomial yields exactly two samples at any scale.
    for &scale in &[2_000_000i64, 50_000_000, 777_000_000, 9_000_000_000] {
        let g = standard_graph(scale);
        let line = g.graph_poly(&linear_eq());
        assert_eq!(line.class, StrokeClass::Curve);
        assert_eq!(line.points.len(), 2, "scale {}", scale);
    }
}

#[test]
fn curve_sampling_density_follows_scale() {
    let g = standard_graph(50_000_000);
    let line = g.graph_poly(&quadratic_eq());
    // Range -10..10 at 50 samples per unit: (10 - (-10)) * 50 samples.
    assert_eq!(line.points.len(), 1000);

    // The density caps at 5000 samples per unit.
    let g = standard_graph(6_000_000_000);
    let line = g.graph_poly(&quadratic_eq());
    let (min_x, max_x) = g.get_x_range();
    assert_eq!(line.points.len(), ((max_x - min_x) * 5000) as usize);
}

#[test]
fn minor_ticks_vanish_at_low_scale() {
    // At five or fewer pixels per unit only major lines are emitted.
    let g = standard_graph(5_000_000);
    let ticks = g.draw_tick_marks();
    assert!(!ticks.is_empty());
    for line in &ticks {
        assert_eq!(line.class, StrokeClass::MajorTick);
    }

    // Above five, minor lines appear too.
    let g = standard_graph(5_000_001);
    let ticks = g.draw_tick_marks();
    assert!(ticks.iter().any(|l| l.class == StrokeClass::MinorTick));
    assert!(ticks.iter().any(|l| l.class == StrokeClass::MajorTick));
}

#[test]
fn major_ticks_and_axes_always_present() {
    for &scale in &[2_000_000i64, 5_000_000, 50_000_000] {
        let g = standard_graph(scale);
        let batch = g.init_graph();
        // The axes head the batch.
        assert_eq!(batch[0].class, StrokeClass::Axis);
        assert_eq!(batch[1].class, StrokeClass::Axis);
        // The origin's major line is in range at every scale.
        assert!(
            batch.iter().any(|l| l.class == StrokeClass::MajorTick),
            "scale {}",
            scale
        );
    }
}

#[test]
fn render_canvas_emits_grid_then_curves() {
    let g = standard_graph(50_000_000);
    let eqs = vec![linear_eq(), quadratic_eq()];
    let batch = graph_rs::graph::render_canvas(
        Viewport {
            width: 1000,
            height: 600,
        },
        fx(50_000_000),
        PixelPoint { x: fx(0), y: fx(0) },
        &eqs,
    );
    let grid_len = g.init_graph().len();
    assert_eq!(batch.len(), grid_len + 2);
    assert_eq!(batch[grid_len].class, StrokeClass::Curve);
    assert_eq!(batch[grid_len].points.len(), 2);
    assert_eq!(batch[grid_len + 1].class, StrokeClass::Curve);
    assert_eq!(batch[grid_len + 1].points.len(), 1000);
}
