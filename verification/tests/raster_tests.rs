use icy_draw::canvas::Canvas;
use icy_draw::cell::{Attribute, Cell};
use icy_draw::drag::{plotted, scan_shape, shade_after, Brush, DrawMode, Shape};
use icy_draw::edit_state::{DragState, EditState};
use icy_draw::error::EditError;
use icy_draw::geometry::{Position, Size, MAX_COORD};
use icy_draw::layer::Layer;
use icy_draw::raster::ScanLines;
use icy_draw::tools::DrawEllipseFilledTool;
use std::collections::BTreeSet;

fn cells(lines: &ScanLines) -> BTreeSet<(i32, i32)> {
    let mut set = BTreeSet::new();
    for span in &lines.spans {
        for x in span.x_start..=span.x_end {
            set.insert((x, span.y));
        }
    }
    set
}

fn shape(kind: Shape, a: (i32, i32), b: (i32, i32)) -> BTreeSet<(i32, i32)> {
    cells(&scan_shape(kind, Position::new(a.0, a.1), Position::new(b.0, b.1)).unwrap())
}

fn set_of(points: &[(i32, i32)]) -> BTreeSet<(i32, i32)> {
    points.iter().copied().collect()
}

fn one_layer(width: i32, height: i32) -> EditState {
    let mut canvas = Canvas::new(Size::new(width, height));
    canvas.insert_layer(0, Layer::new("layer", Size::new(width, height))).unwrap();
    EditState::new(canvas)
}

fn star() -> Brush {
    Brush { draw_mode: DrawMode::Char, use_fore: true, use_back: true, char_code: '*' }
}

#[test]
fn line_exact_cells() {
    assert_eq!(
        shape(Shape::Line, (0, 0), (4, 2)),
        set_of(&[(0, 0), (1, 1), (2, 1), (3, 2), (4, 2)])
    );
    assert_eq!(
        shape(Shape::Line, (0, 0), (1, 3)),
        set_of(&[(0, 0), (0, 1), (1, 2), (1, 3)])
    );
    assert_eq!(shape(Shape::Line, (2, 2), (2, 2)), set_of(&[(2, 2)]));
    assert_eq!(shape(Shape::Line, (0, 3), (3, 0)), set_of(&[(0, 3), (1, 2), (2, 1), (3, 0)]));
    assert_eq!(shape(Shape::Line, (-2, 0), (1, 0)), set_of(&[(-2, 0), (-1, 0), (0, 0), (1, 0)]));
}

#[test]
fn line_is_symmetric_in_its_endpoints() {
    let ends = [(0, 0), (7, 3), (-4, 5), (2, -9), (5, 5), (0, 6), (6, 0)];
    for a in ends {
        for b in ends {
            assert_eq!(shape(Shape::Line, a, b), shape(Shape::Line, b, a));
            let line = shape(Shape::Line, a, b);
            assert!(line.contains(&a));
            assert!(line.contains(&b));
        }
    }
}

#[test]
fn rectangle_filled_and_outline() {
    let filled = shape(Shape::RectangleFilled, (1, 1), (3, 3));
    let mut expected = BTreeSet::new();
    for y in 1..=3 {
        for x in 1..=3 {
            expected.insert((x, y));
        }
    }
    assert_eq!(filled, expected);
    let outline = shape(Shape::Rectangle, (3, 3), (1, 1));
    expected.remove(&(2, 2));
    assert_eq!(outline, expected);
    assert_eq!(shape(Shape::Rectangle, (0, 0), (0, 2)), set_of(&[(0, 0), (0, 1), (0, 2)]));
}

#[test]
fn ellipse_exact_cells() {
    assert_eq!(
        shape(Shape::EllipseFilled, (0, 0), (3, 2)),
        set_of(&[(1, 0), (2, 0), (0, 1), (1, 1), (2, 1), (3, 1), (1, 2), (2, 2)])
    );
    assert_eq!(
        shape(Shape::Ellipse, (0, 0), (4, 4)),
        set_of(&[
            (1, 0), (2, 0), (3, 0),
            (0, 1), (4, 1),
            (0, 2), (4, 2),
            (0, 3), (4, 3),
            (1, 4), (2, 4), (3, 4),
        ])
    );
    assert_eq!(shape(Shape::EllipseFilled, (5, 5), (5, 5)), set_of(&[(5, 5)]));
    assert_eq!(shape(Shape::Ellipse, (0, 0), (0, 3)), set_of(&[(0, 0), (0, 1), (0, 2), (0, 3)]));
}

#[test]
fn ellipse_is_symmetric_under_both_mirrors() {
    for (a, b) in [((0, 0), (9, 5)), ((2, 1), (8, 12)), ((-3, -3), (4, 2)), ((0, 0), (1, 9))] {
        for kind in [Shape::Ellipse, Shape::EllipseFilled] {
            let e = shape(kind, a, b);
            assert_eq!(e, shape(kind, b, a));
            for &(x, y) in &e {
                assert!(e.contains(&(a.0 + b.0 - x, y)));
                assert!(e.contains(&(x, a.1 + b.1 - y)));
            }
        }
    }
}

#[test]
fn ellipse_outline_is_the_boundary_of_the_filled_ellipse() {
    let filled = shape(Shape::EllipseFilled, (0, 0), (10, 6));
    let outline = shape(Shape::Ellipse, (0, 0), (10, 6));
    for &(x, y) in &filled {
        let inner = filled.contains(&(x - 1, y))
            && filled.contains(&(x + 1, y))
            && filled.contains(&(x, y - 1))
            && filled.contains(&(x, y + 1));
        assert_eq!(outline.contains(&(x, y)), !inner);
    }
    assert!(outline.is_subset(&filled));
}

#[test]
fn shapes_reject_positions_that_are_not_addressable() {
    let far = Position::new(MAX_COORD + 1, 0);
    let near = Position::new(0, 0);
    for kind in [Shape::Line, Shape::Rectangle, Shape::RectangleFilled, Shape::Ellipse, Shape::EllipseFilled] {
        assert!(matches!(scan_shape(kind, near, far), Err(EditError::InvalidPosition)));
        assert!(matches!(scan_shape(kind, far, near), Err(EditError::InvalidPosition)));
    }
    let mut lines = ScanLines::new();
    assert_eq!(lines.add_line(near, far), Err(EditError::InvalidPosition));
    assert_eq!(lines.spans.len(), 0);
    assert!(Position::new(MAX_COORD, -MAX_COORD).addressable());
}

#[test]
fn scan_lines_accumulate_shapes() {
    let mut lines = ScanLines::new();
    lines.add_line(Position::new(0, 0), Position::new(2, 0)).unwrap();
    lines.add_rectangle(Position::new(5, 5), Position::new(5, 5), true).unwrap();
    lines.add_ellipse(Position::new(8, 8), Position::new(8, 8), false).unwrap();
    assert_eq!(cells(&lines), set_of(&[(0, 0), (1, 0), (2, 0), (5, 5), (8, 8)]));
}

#[test]
fn plotted_cell_by_draw_mode() {
    let base = Cell::new('a', Attribute::plain().with_foreground(1).with_background(2));
    let caret = Attribute::plain().with_foreground(10).with_background(11);
    let mut brush = Brush { draw_mode: DrawMode::Line, use_fore: true, use_back: false, char_code: '*' };
    let c = plotted(base, caret, brush);
    assert_eq!(c.ch, '\u{00DB}');
    assert_eq!(c.attribute.foreground, 10);
    assert_eq!(c.attribute.background, 2);
    brush.draw_mode = DrawMode::Char;
    assert_eq!(plotted(base, caret, brush).ch, '*');
    brush.draw_mode = DrawMode::Colorize;
    brush.use_back = true;
    brush.use_fore = false;
    let c = plotted(base, caret, brush);
    assert_eq!(c.ch, 'a');
    assert_eq!(c.attribute.foreground, 1);
    assert_eq!(c.attribute.background, 11);
    brush.draw_mode = DrawMode::Shade;
    assert_eq!(plotted(base, caret, brush).ch, '\u{00B0}');
}

#[test]
fn shade_ramp_steps() {
    assert_eq!(shade_after('x'), '\u{00B0}');
    assert_eq!(shade_after('\u{00B0}'), '\u{00B1}');
    assert_eq!(shade_after('\u{00B1}'), '\u{00B2}');
    assert_eq!(shade_after('\u{00B2}'), '\u{00DB}');
    assert_eq!(shade_after('\u{00DB}'), '\u{00DB}');
}

#[test]
fn filled_rectangle_drag_paints_exactly_its_cells_in_one_transaction() {
    let mut state = one_layer(6, 6);
    assert_eq!(state.begin_drag(Position::new(1, 1)), Ok(()));
    assert_eq!(state.update_drag(Position::new(5, 5), Shape::RectangleFilled, star()), Ok(()));
    assert_eq!(state.update_drag(Position::new(3, 3), Shape::RectangleFilled, star()), Ok(()));
    // nothing touches the layer while the drag is in progress
    assert_eq!(state.get_char(Position::new(2, 2)), Cell::transparent());
    assert_eq!(state.overlay_cell(Position::new(2, 2)).ch, '*');
    assert_eq!(state.overlay_cell(Position::new(4, 4)), Cell::transparent());
    assert_eq!(state.undo_stack_len(), 0);
    assert_eq!(state.end_drag("rectangle"), Ok(()));
    for y in 0..6 {
        for x in 0..6 {
            let inside = (1..=3).contains(&x) && (1..=3).contains(&y);
            let c = state.get_char(Position::new(x, y));
            if inside {
                assert_eq!(c.ch, '*');
            } else {
                assert_eq!(c, Cell::transparent());
            }
        }
    }
    assert_eq!(state.undo_stack_len(), 1);
    assert_eq!(state.get_drag(), DragState::Idle);
    state.undo().unwrap();
    assert_eq!(state.get_char(Position::new(2, 2)), Cell::transparent());
}

#[test]
fn degenerate_drag_makes_no_transaction() {
    let mut state = one_layer(6, 6);
    state.begin_drag(Position::new(2, 2)).unwrap();
    state.update_drag(Position::new(4, 4), Shape::RectangleFilled, star()).unwrap();
    state.update_drag(Position::new(2, 2), Shape::RectangleFilled, star()).unwrap();
    assert_eq!(state.overlay_cell(Position::new(2, 2)).ch, '*');
    assert_eq!(state.end_drag("nothing"), Ok(()));
    assert_eq!(state.undo_stack_len(), 0);
    assert_eq!(state.get_drag(), DragState::Idle);
    for y in 0..6 {
        for x in 0..6 {
            assert_eq!(state.get_char(Position::new(x, y)), Cell::transparent());
        }
    }
    assert_eq!(state.overlay_cell(Position::new(2, 2)), Cell::transparent());
}

#[test]
fn drag_is_clipped_to_the_layer() {
    let mut state = one_layer(3, 3);
    state.begin_drag(Position::new(-2, -2)).unwrap();
    state.update_drag(Position::new(10, 1), Shape::RectangleFilled, star()).unwrap();
    state.end_drag("clipped").unwrap();
    for y in 0..3 {
        for x in 0..3 {
            let c = state.get_char(Position::new(x, y));
            assert_eq!(c.ch == '*', y <= 1);
        }
    }
}

#[test]
fn drag_positions_must_be_addressable() {
    let mut state = one_layer(3, 3);
    assert_eq!(state.begin_drag(Position::new(0, MAX_COORD + 1)), Err(EditError::InvalidPosition));
    assert_eq!(state.get_drag(), DragState::Idle);
    state.begin_drag(Position::new(0, 0)).unwrap();
    assert_eq!(
        state.update_drag(Position::new(-MAX_COORD - 1, 0), Shape::Line, star()),
        Err(EditError::InvalidPosition)
    );
    assert_eq!(
        state.get_drag(),
        DragState::Dragging { start: Position::new(0, 0), cur: Position::new(0, 0) }
    );
}

#[test]
fn drag_calls_without_a_drag_do_nothing() {
    let mut state = one_layer(3, 3);
    assert_eq!(state.update_drag(Position::new(1, 1), Shape::Line, star()), Ok(()));
    assert_eq!(state.draw_shape(Shape::Line, star()), Ok(()));
    assert_eq!(state.end_drag("none"), Ok(()));
    assert_eq!(state.undo_stack_len(), 0);
}

#[test]
fn each_update_repaints_the_overlay_from_scratch() {
    let mut state = one_layer(8, 8);
    state.begin_drag(Position::new(0, 0)).unwrap();
    state.update_drag(Position::new(7, 7), Shape::RectangleFilled, star()).unwrap();
    state.update_drag(Position::new(1, 1), Shape::RectangleFilled, star()).unwrap();
    assert_eq!(state.overlay_cell(Position::new(5, 5)), Cell::transparent());
    assert_eq!(state.overlay_cell(Position::new(1, 1)).ch, '*');
}

#[test]
fn ellipse_tool_drags_a_filled_ellipse() {
    let mut tool = DrawEllipseFilledTool::new();
    assert!(!tool.use_caret());
    assert!(!tool.use_selection());
    tool.draw_mode = DrawMode::Char;
    tool.char_code = '@';
    tool.toggle_back();
    assert!(!tool.use_back);
    let mut state = one_layer(5, 5);
    state.set_caret_attribute(Attribute::plain().with_foreground(6).with_background(7));
    state.begin_drag(Position::new(4, 4)).unwrap();
    state.set_drag(DragState::Dragging { start: Position::new(4, 4), cur: Position::new(0, 0) });
    assert_eq!(tool.handle_drag(&mut state), Ok(()));
    assert_eq!(tool.handle_drag_end(&mut state), Ok(()));
    let expected = shape(Shape::EllipseFilled, (0, 0), (4, 4));
    assert_eq!(expected.len(), 21);
    for y in 0..5 {
        for x in 0..5 {
            let c = state.get_char(Position::new(x, y));
            if expected.contains(&(x, y)) {
                assert_eq!(c.ch, '@');
                assert_eq!(c.attribute.foreground, 6);
                assert_eq!(c.attribute.background, 0);
            } else {
                assert_eq!(c, Cell::transparent());
            }
        }
    }
    assert_eq!(state.undo_stack_len(), 1);
}

#[test]
fn ellipse_tool_discards_a_degenerate_drag() {
    let tool = DrawEllipseFilledTool::new();
    let mut state = one_layer(5, 5);
    state.begin_drag(Position::new(2, 2)).unwrap();
    tool.handle_drag(&mut state).unwrap();
    assert_eq!(state.overlay_cell(Position::new(2, 2)).ch, '\u{00DB}');
    tool.handle_drag_end(&mut state).unwrap();
    assert_eq!(state.undo_stack_len(), 0);
    assert_eq!(state.get_char(Position::new(2, 2)), Cell::transparent());
}

#[test]
fn drag_onto_a_locked_layer_fails_and_drops_the_overlay() {
    let mut canvas = Canvas::new(Size::new(3, 3));
    let mut layer = Layer::new("locked", Size::new(3, 3));
    layer.set_locked(true);
    canvas.insert_layer(0, layer).unwrap();
    let mut state = EditState::new(canvas);
    state.begin_drag(Position::new(0, 0)).unwrap();
    state.update_drag(Position::new(2, 2), Shape::Line, star()).unwrap();
    assert_eq!(state.end_drag("locked"), Err(EditError::LayerLocked));
    assert_eq!(state.undo_stack_len(), 0);
    assert_eq!(state.overlay_cell(Position::new(1, 1)), Cell::transparent());
    assert_eq!(state.get_drag(), DragState::Idle);
}
