use icy_draw::canvas::Canvas;
use icy_draw::cell::{Attribute, Cell, ChannelMask};
use icy_draw::edit_state::EditState;
use icy_draw::error::EditError;
use icy_draw::geometry::{Position, Size};
use icy_draw::layer::Layer;
use icy_draw::tools::{FillTool, FillType, PipetteTool};

fn one_layer(width: i32, height: i32) -> EditState {
    let mut canvas = Canvas::new(Size::new(width, height));
    canvas.insert_layer(0, Layer::new("layer", Size::new(width, height))).unwrap();
    EditState::new(canvas)
}

fn plain(ch: char) -> Cell {
    Cell::new(ch, Attribute::plain())
}

fn char_only() -> ChannelMask {
    ChannelMask::new(true, false, false)
}

fn count_char(state: &EditState, width: i32, height: i32, ch: char) -> usize {
    let mut n = 0;
    for y in 0..height {
        for x in 0..width {
            if state.get_char(Position::new(x, y)).ch == ch {
                n += 1;
            }
        }
    }
    n
}

#[test]
fn fill_of_empty_layer_sets_every_cell_once() {
    let mut state = one_layer(10, 10);
    assert_eq!(state.fill(Position::new(0, 0), char_only(), plain('#')), Ok(()));
    assert_eq!(count_char(&state, 10, 10, '#'), 100);
    assert_eq!(state.undo_stack_len(), 1);
    // the fill wrote the character only
    assert_eq!(state.get_char(Position::new(3, 3)).attribute, Attribute::unset());
    // a second identical fill is a no-op
    assert_eq!(state.fill(Position::new(0, 0), char_only(), plain('#')), Ok(()));
    assert_eq!(state.undo_stack_len(), 1);
    assert_eq!(count_char(&state, 10, 10, '#'), 100);
    state.undo().unwrap();
    assert_eq!(count_char(&state, 10, 10, '#'), 0);
    assert_eq!(state.undo_stack_len(), 0);
}

#[test]
fn fill_is_idempotent_on_a_uniform_region() {
    let mut state = one_layer(4, 4);
    state.fill(Position::new(1, 1), char_only(), plain('a')).unwrap();
    let before = state.undo_stack_len();
    state.fill(Position::new(2, 2), char_only(), plain('a')).unwrap();
    assert_eq!(state.undo_stack_len(), before);
    assert_eq!(count_char(&state, 4, 4, 'a'), 16);
}

#[test]
fn fill_does_not_cross_diagonals_on_a_checkerboard() {
    let mut state = one_layer(4, 4);
    state.begin_atomic_undo("board");
    for y in 0..4 {
        for x in 0..4 {
            let ch = if (x + y) % 2 == 0 { 'x' } else { 'o' };
            state.set_char(Position::new(x, y), plain(ch)).unwrap();
        }
    }
    state.end_atomic_undo();
    state.fill(Position::new(0, 0), char_only(), plain('#')).unwrap();
    assert_eq!(count_char(&state, 4, 4, '#'), 1);
    assert_eq!(state.get_char(Position::new(0, 0)).ch, '#');
    assert_eq!(state.get_char(Position::new(1, 1)).ch, 'x');
    assert_eq!(count_char(&state, 4, 4, 'x'), 7);
    assert_eq!(count_char(&state, 4, 4, 'o'), 8);
}

#[test]
fn fill_stays_inside_a_walled_region() {
    let mut state = one_layer(5, 5);
    state.begin_atomic_undo("wall");
    for i in 0..5 {
        state.set_char(Position::new(2, i), plain('|')).unwrap();
    }
    state.end_atomic_undo();
    state.fill(Position::new(0, 2), char_only(), plain('.')).unwrap();
    assert_eq!(count_char(&state, 5, 5, '.'), 10);
    assert_eq!(count_char(&state, 5, 5, '|'), 5);
    for y in 0..5 {
        assert_eq!(state.get_char(Position::new(3, y)), Cell::transparent());
        assert_eq!(state.get_char(Position::new(4, y)), Cell::transparent());
    }
    assert_eq!(state.undo_stack_len(), 2);
}

#[test]
fn fill_matches_on_colours_independently() {
    let mut state = one_layer(3, 1);
    let red = Attribute::plain().with_foreground(4);
    let blue = Attribute::plain().with_foreground(1);
    state.set_char(Position::new(0, 0), Cell::new('a', red)).unwrap();
    state.set_char(Position::new(1, 0), Cell::new('b', red)).unwrap();
    state.set_char(Position::new(2, 0), Cell::new('a', blue)).unwrap();
    let target = Cell::new('z', Attribute::plain().with_foreground(9).with_background(5));
    state.fill(Position::new(0, 0), ChannelMask::new(false, true, false), target).unwrap();
    assert_eq!(state.get_char(Position::new(0, 0)), Cell::new('a', red.with_foreground(9)));
    assert_eq!(state.get_char(Position::new(1, 0)), Cell::new('b', red.with_foreground(9)));
    assert_eq!(state.get_char(Position::new(2, 0)), Cell::new('a', blue));
}

#[test]
fn fill_with_combined_channels_requires_all_to_match() {
    let mut state = one_layer(3, 1);
    let red = Attribute::plain().with_foreground(4);
    state.set_char(Position::new(0, 0), Cell::new('a', red)).unwrap();
    state.set_char(Position::new(1, 0), Cell::new('a', Attribute::plain())).unwrap();
    state.set_char(Position::new(2, 0), Cell::new('a', red)).unwrap();
    let target = Cell::new('b', Attribute::plain().with_foreground(2));
    state.fill(Position::new(0, 0), ChannelMask::new(true, true, false), target).unwrap();
    assert_eq!(state.get_char(Position::new(0, 0)), Cell::new('b', red.with_foreground(2)));
    assert_eq!(state.get_char(Position::new(1, 0)), Cell::new('a', Attribute::plain()));
    assert_eq!(state.get_char(Position::new(2, 0)), Cell::new('a', red));
}

#[test]
fn fill_with_empty_matcher_is_reported() {
    let mut state = one_layer(2, 2);
    assert_eq!(
        state.fill(Position::new(0, 0), ChannelMask::new(false, false, false), plain('#')),
        Err(EditError::EmptyMatcher)
    );
    assert_eq!(state.undo_stack_len(), 0);
    assert_eq!(count_char(&state, 2, 2, '#'), 0);
}

#[test]
fn fill_failure_modes() {
    let mut none = EditState::new(Canvas::new(Size::new(2, 2)));
    assert_eq!(none.fill(Position::new(0, 0), char_only(), plain('#')), Err(EditError::LayerOutOfRange));
    let mut canvas = Canvas::new(Size::new(2, 2));
    let mut layer = Layer::new("locked", Size::new(2, 2));
    layer.set_locked(true);
    canvas.insert_layer(0, layer).unwrap();
    let mut locked = EditState::new(canvas);
    assert_eq!(locked.fill(Position::new(0, 0), char_only(), plain('#')), Err(EditError::LayerLocked));
    assert_eq!(locked.get_char(Position::new(0, 0)), Cell::transparent());
}

#[test]
fn fill_seed_outside_the_layer_does_nothing() {
    let mut state = one_layer(2, 2);
    assert_eq!(state.fill(Position::new(5, 5), char_only(), plain('#')), Ok(()));
    assert_eq!(state.fill(Position::new(-1, 0), char_only(), plain('#')), Ok(()));
    assert_eq!(state.undo_stack_len(), 0);
    assert_eq!(count_char(&state, 2, 2, '#'), 0);
}

#[test]
fn fill_seed_is_given_in_canvas_coordinates() {
    let mut canvas = Canvas::new(Size::new(10, 10));
    let mut layer = Layer::new("moved", Size::new(2, 2));
    layer.set_offset(Position::new(3, 4));
    canvas.insert_layer(0, layer).unwrap();
    let mut state = EditState::new(canvas);
    assert_eq!(state.fill(Position::new(0, 0), char_only(), plain('#')), Ok(()));
    assert_eq!(count_char(&state, 2, 2, '#'), 0);
    assert_eq!(state.fill(Position::new(4, 5), char_only(), plain('#')), Ok(()));
    assert_eq!(count_char(&state, 2, 2, '#'), 4);
}

#[test]
fn fill_inside_a_transaction_joins_it() {
    let mut state = one_layer(2, 2);
    state.begin_atomic_undo("outer");
    state.fill(Position::new(0, 0), char_only(), plain('#')).unwrap();
    assert!(state.in_transaction());
    assert_eq!(state.undo_stack_len(), 0);
    state.end_atomic_undo();
    assert_eq!(state.undo_stack_len(), 1);
    state.undo().unwrap();
    assert_eq!(count_char(&state, 2, 2, '#'), 0);
}

#[test]
fn fill_tool_builds_its_matcher() {
    let mut tool = FillTool::new();
    assert!(!tool.use_caret());
    assert_eq!(tool.matcher(), ChannelMask::new(true, true, true));
    tool.toggle_fore();
    assert_eq!(tool.matcher(), ChannelMask::new(true, false, true));
    tool.fill_type = FillType::Colorize;
    tool.toggle_back();
    assert_eq!(tool.matcher(), ChannelMask::new(false, false, false));
    let mut state = one_layer(2, 2);
    assert_eq!(tool.handle_click(&mut state, 1, Position::new(0, 0)), Err(EditError::EmptyMatcher));
    assert_eq!(tool.handle_click(&mut state, 2, Position::new(0, 0)), Ok(()));
}

#[test]
fn fill_tool_click_fills_with_caret_attribute() {
    let tool = FillTool::new();
    let mut state = one_layer(3, 3);
    let attribute = Attribute::plain().with_foreground(12).with_background(3);
    state.set_caret_attribute(attribute);
    assert_eq!(tool.handle_click(&mut state, 3, Position::new(1, 1)), Ok(()));
    assert_eq!(count_char(&state, 3, 3, '\u{00B0}'), 0);
    assert_eq!(tool.handle_click(&mut state, 1, Position::new(1, 1)), Ok(()));
    assert_eq!(count_char(&state, 3, 3, '\u{00B0}'), 9);
    let c = state.get_char(Position::new(2, 0));
    assert_eq!(c.attribute.foreground, 12);
    assert_eq!(c.attribute.background, 3);
    assert_eq!(state.undo_stack_len(), 1);
}

#[test]
fn pipette_picks_up_the_shown_attribute() {
    let tool = PipetteTool::new();
    assert!(!tool.use_caret());
    assert!(!tool.use_selection());
    let mut state = one_layer(3, 3);
    let attribute = Attribute::plain().with_foreground(14);
    state.set_char(Position::new(1, 1), Cell::new('p', attribute)).unwrap();
    tool.handle_click(&mut state, 2, Position::new(1, 1));
    assert_eq!(state.get_caret().attribute, Attribute::plain());
    tool.handle_click(&mut state, 1, Position::new(1, 1));
    assert_eq!(state.get_caret().attribute, attribute);
    tool.handle_click(&mut state, 1, Position::new(0, 0));
    assert_eq!(state.get_caret().attribute, Attribute::plain());
}
