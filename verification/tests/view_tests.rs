use graph_rs::fixed::Fixed;
use graph_rs::graph::PixelPoint;
use graph_rs::view::{ViewState, DEFAULT_SCALE_RAW};

fn fx(raw: i64) -> Fixed {
    Fixed::from_raw(raw)
}

#[test]
fn zoom_in_strictly_increases_scale() {
    // Repeated inward scroll steps (factor above one) strictly grow the
    // scale.
    let mut view = ViewState::new(fx(DEFAULT_SCALE_RAW));
    let factor = fx(1_200_000); // exp(0.2 * delta) for a positive delta
    let mut last = view.scale.raw;
    for _ in 0..20 {
        let redraw = view.zoom(factor);
        assert!(redraw);
        assert!(view.scale.raw > last);
        last = view.scale.raw;
    }
}

#[test]
fn zoom_out_never_reaches_one() {
    // Outward steps shrink the scale but the guard never lets it reach
    // one pixel per unit.
    let mut view = ViewState::new(fx(DEFAULT_SCALE_RAW));
    let factor = fx(500_000); // exp(0.2 * delta) for a negative delta
    for _ in 0..50 {
        view.zoom(factor);
        assert!(view.scale.raw > 1_000_000);
    }
    // Once at the floor further outward steps are rejected outright.
    let before = view.scale.raw;
    let redraw = view.zoom(factor);
    assert!(!redraw);
    assert_eq!(view.scale.raw, before);
}

#[test]
fn zoom_rescales_offset_proportionally() {
    // Doubling the scale doubles the offset: the anchored point keeps
    // its place.
    let mut view = ViewState::new(fx(50_000_000));
    view.offset = PixelPoint {
        x: fx(30_000_000),
        y: fx(-10_000_000),
    };
    let redraw = view.zoom(fx(2_000_000));
    assert!(redraw);
    assert_eq!(view.scale.raw, 100_000_000);
    assert_eq!(view.offset.x.raw, 60_000_000);
    assert_eq!(view.offset.y.raw, -20_000_000);
}

#[test]
fn drag_accumulates_pointer_moves() {
    let mut view = ViewState::new(fx(DEFAULT_SCALE_RAW));

    // Moves outside a drag change nothing.
    let redraw = view.cursor_moved(PixelPoint {
        x: fx(5_000_000),
        y: fx(5_000_000),
    });
    assert!(!redraw);
    assert_eq!(view.offset.x.raw, 0);

    view.mouse_pressed();
    assert!(view.dragging);

    // The first move of a drag only records the position.
    let redraw = view.cursor_moved(PixelPoint {
        x: fx(100_000_000),
        y: fx(50_000_000),
    });
    assert!(!redraw);
    assert_eq!(view.offset.x.raw, 0);

    // Each further move pans by the move since the previous position.
    let redraw = view.cursor_moved(PixelPoint {
        x: fx(110_000_000),
        y: fx(45_000_000),
    });
    assert!(redraw);
    assert_eq!(view.offset.x.raw, 10_000_000);
    assert_eq!(view.offset.y.raw, -5_000_000);

    let redraw = view.cursor_moved(PixelPoint {
        x: fx(111_000_000),
        y: fx(46_000_000),
    });
    assert!(redraw);
    assert_eq!(view.offset.x.raw, 11_000_000);
    assert_eq!(view.offset.y.raw, -4_000_000);

    // Release ends the drag and forgets the position.
    view.mouse_released();
    assert!(!view.dragging);
    assert!(view.previous_position.is_none());
    let redraw = view.cursor_moved(PixelPoint {
        x: fx(200_000_000),
        y: fx(200_000_000),
    });
    assert!(!redraw);
    assert_eq!(view.offset.x.raw, 11_000_000);
}
