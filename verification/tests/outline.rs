use embolden::{GlyphOutline, PathEl};

type P = (i32, i32);

fn square(outline: &mut GlyphOutline<P>) {
    outline.move_to((0, 0));
    outline.line_to((10, 0));
    outline.line_to((10, 10));
    outline.line_to((0, 10));
    outline.close();
}

fn square_elements() -> Vec<PathEl<P>> {
    vec![
        PathEl::MoveTo((0, 0)),
        PathEl::LineTo((10, 0)),
        PathEl::LineTo((10, 10)),
        PathEl::LineTo((0, 10)),
        PathEl::ClosePath,
    ]
}

#[test]
fn new_outline_is_empty() {
    let mut outline: GlyphOutline<P> = GlyphOutline::new();
    assert!(outline.emit().is_empty());
    assert!(outline.synthetic_weight_overlay(true).is_empty());
    assert!(outline.emit().is_empty());
}

#[test]
fn default_is_empty() {
    let mut outline: GlyphOutline<P> = GlyphOutline::default();
    assert!(outline.emit().is_empty());
    assert!(outline.synthetic_weight_overlay(true).is_empty());
}

#[test]
fn emit_replays_every_command() {
    let mut outline: GlyphOutline<P> = GlyphOutline::new();
    outline.move_to((1, 2));
    outline.line_to((3, 4));
    outline.quad_to((5, 6), (7, 8));
    outline.curve_to((9, 10), (11, 12), (13, 14));
    outline.close();
    outline.line_to((15, 16));
    assert_eq!(
        outline.emit(),
        vec![
            PathEl::MoveTo((1, 2)),
            PathEl::LineTo((3, 4)),
            PathEl::QuadTo((5, 6), (7, 8)),
            PathEl::CurveTo((9, 10), (11, 12), (13, 14)),
            PathEl::ClosePath,
            PathEl::LineTo((15, 16)),
        ]
    );
}

#[test]
fn closed_contour_is_emboldened() {
    let mut outline: GlyphOutline<P> = GlyphOutline::new();
    square(&mut outline);
    assert_eq!(outline.synthetic_weight_overlay(true), vec![square_elements()]);
}

#[test]
fn zero_strength_overlay_is_empty() {
    let mut outline: GlyphOutline<P> = GlyphOutline::new();
    square(&mut outline);
    assert!(outline.synthetic_weight_overlay(false).is_empty());
    assert_eq!(outline.emit(), square_elements());
}

#[test]
fn unclosed_contour_is_not_emboldened() {
    let mut outline: GlyphOutline<P> = GlyphOutline::new();
    outline.move_to((0, 0));
    outline.line_to((5, 5));
    outline.line_to((5, 0));
    assert!(outline.synthetic_weight_overlay(true).is_empty());
    assert_eq!(
        outline.emit(),
        vec![PathEl::MoveTo((0, 0)), PathEl::LineTo((5, 5)), PathEl::LineTo((5, 0))]
    );
}

#[test]
fn contours_come_in_order_and_open_ones_are_skipped() {
    let mut outline: GlyphOutline<P> = GlyphOutline::new();
    square(&mut outline);
    outline.move_to((20, 20));
    outline.line_to((30, 20));
    outline.move_to((40, 40));
    outline.curve_to((41, 41), (42, 42), (43, 40));
    outline.close();
    let second = vec![
        PathEl::MoveTo((40, 40)),
        PathEl::CurveTo((41, 41), (42, 42), (43, 40)),
        PathEl::ClosePath,
    ];
    assert_eq!(outline.synthetic_weight_overlay(true), vec![square_elements(), second]);
}

#[test]
fn move_then_close_is_a_closed_contour() {
    let mut outline: GlyphOutline<P> = GlyphOutline::new();
    outline.move_to((7, 7));
    outline.close();
    assert_eq!(
        outline.synthetic_weight_overlay(true),
        vec![vec![PathEl::MoveTo((7, 7)), PathEl::ClosePath]]
    );
}

#[test]
fn lone_move_is_dropped() {
    let mut outline: GlyphOutline<P> = GlyphOutline::new();
    outline.move_to((1, 1));
    outline.move_to((2, 2));
    outline.line_to((3, 3));
    outline.close();
    assert_eq!(
        outline.synthetic_weight_overlay(true),
        vec![vec![PathEl::MoveTo((2, 2)), PathEl::LineTo((3, 3)), PathEl::ClosePath]]
    );
    assert_eq!(
        outline.emit(),
        vec![
            PathEl::MoveTo((1, 1)),
            PathEl::MoveTo((2, 2)),
            PathEl::LineTo((3, 3)),
            PathEl::ClosePath,
        ]
    );
}

#[test]
fn segments_after_close_join_no_contour() {
    let mut outline: GlyphOutline<P> = GlyphOutline::new();
    square(&mut outline);
    outline.line_to((5, 5));
    outline.close();
    assert_eq!(outline.synthetic_weight_overlay(true), vec![square_elements()]);
    let mut emitted = square_elements();
    emitted.push(PathEl::LineTo((5, 5)));
    emitted.push(PathEl::ClosePath);
    assert_eq!(outline.emit(), emitted);
}

#[test]
fn overlay_is_stable() {
    let mut outline: GlyphOutline<P> = GlyphOutline::new();
    square(&mut outline);
    outline.move_to((3, 3));
    outline.line_to((4, 4));
    let first = outline.synthetic_weight_overlay(true);
    let second = outline.synthetic_weight_overlay(true);
    assert_eq!(first, second);
    assert_eq!(first, vec![square_elements()]);
}

#[test]
fn overlay_finishes_the_open_contour() {
    let mut outline: GlyphOutline<P> = GlyphOutline::new();
    outline.move_to((0, 0));
    outline.line_to((1, 0));
    outline.synthetic_weight_overlay(false);
    // The contour was finished unclosed, so this close records nothing more.
    outline.close();
    assert!(outline.synthetic_weight_overlay(true).is_empty());
    assert_eq!(
        outline.emit(),
        vec![PathEl::MoveTo((0, 0)), PathEl::LineTo((1, 0)), PathEl::ClosePath]
    );
}

#[test]
fn path_element_clone_is_equal() {
    let el: PathEl<P> = PathEl::QuadTo((1, 2), (3, 4));
    assert_eq!(el.clone(), el);
}
