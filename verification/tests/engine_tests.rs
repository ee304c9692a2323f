use icy_draw::canvas::Canvas;
use icy_draw::cell::{Attribute, Cell, ChannelMask};
use icy_draw::edit_state::{Caret, DragState, EditState};
use icy_draw::error::EditError;
use icy_draw::geometry::{Position, Rectangle, Size};
use icy_draw::layer::{Layer, Role, MAX_DIM};
use icy_draw::palette::{Color, Palette};

fn state_with_layers(count: usize, width: i32, height: i32) -> EditState {
    let mut canvas = Canvas::new(Size::new(width, height));
    for i in 0..count {
        let layer = Layer::new("layer", Size::new(width, height));
        canvas.insert_layer(i, layer).unwrap();
    }
    EditState::new(canvas)
}

fn cell(ch: char) -> Cell {
    Cell::new(ch, Attribute::plain())
}

fn snapshot(state: &EditState) -> Vec<Vec<Cell>> {
    let canvas = state.get_buffer();
    let mut all = Vec::new();
    for layer in &canvas.layers {
        let mut cells = Vec::new();
        for y in 0..layer.get_height() {
            for x in 0..layer.get_width() {
                cells.push(layer.get(Position::new(x, y)));
            }
        }
        all.push(cells);
    }
    all
}

#[test]
fn replace_copies_only_masked_channels() {
    let template = Cell::new('a', Attribute::plain().with_foreground(1).with_background(2));
    let source = Cell::new('b', Attribute::plain().with_foreground(3).with_background(4));
    let only_char = Cell::replace(template, source, ChannelMask::new(true, false, false));
    assert_eq!(only_char.ch, 'b');
    assert_eq!(only_char.attribute.foreground, 1);
    assert_eq!(only_char.attribute.background, 2);
    let colors = Cell::replace(template, source, ChannelMask::new(false, true, true));
    assert_eq!(colors.ch, 'a');
    assert_eq!(colors.attribute.foreground, 3);
    assert_eq!(colors.attribute.background, 4);
    let none = Cell::replace(template, source, ChannelMask::new(false, false, false));
    assert_eq!(none, template);
}

#[test]
fn cells_compare_by_full_equality() {
    let a = Cell::new('a', Attribute::plain());
    let b = Cell::new('a', Attribute::plain().with_foreground(9));
    assert!(Cell::equals(a, a));
    assert!(!Cell::equals(a, b));
    assert!(Cell::transparent().transparent_here());
    assert!(!Cell::blank().transparent_here());
}

#[test]
fn layer_get_outside_is_transparent() {
    let layer = Layer::new("l", Size::new(4, 3));
    assert_eq!(layer.get(Position::new(-1, 0)), Cell::transparent());
    assert_eq!(layer.get(Position::new(4, 0)), Cell::transparent());
    assert_eq!(layer.get(Position::new(0, 3)), Cell::transparent());
    assert_eq!(layer.get_width(), 4);
    assert_eq!(layer.get_height(), 3);
}

#[test]
fn layer_set_clips_and_honours_lock() {
    let mut layer = Layer::new("l", Size::new(4, 3));
    layer.set(Position::new(1, 2), cell('x'));
    assert_eq!(layer.get(Position::new(1, 2)), cell('x'));
    layer.set(Position::new(7, 7), cell('y'));
    layer.set_locked(true);
    layer.set(Position::new(0, 0), cell('z'));
    assert_eq!(layer.get(Position::new(0, 0)), Cell::transparent());
    layer.put(Position::new(0, 0), cell('z'));
    assert_eq!(layer.get(Position::new(0, 0)), cell('z'));
}

#[test]
fn layer_move_by_fails_when_position_locked() {
    let mut layer = Layer::new("l", Size::new(2, 2));
    assert_eq!(layer.move_by(Position::new(3, -4)), Ok(()));
    assert_eq!(layer.get_offset(), Position::new(3, -4));
    layer.set_position_locked(true);
    assert_eq!(layer.move_by(Position::new(1, 1)), Err(EditError::LayerLocked));
    assert_eq!(layer.get_offset(), Position::new(3, -4));
}

#[test]
fn layer_move_by_rejects_unrepresentable_offset() {
    let mut layer = Layer::new("l", Size::new(2, 2));
    layer.set_offset(Position::new(i32::MAX, 0));
    assert_eq!(layer.move_by(Position::new(1, 0)), Err(EditError::InvalidPosition));
    assert_eq!(layer.get_offset(), Position::new(i32::MAX, 0));
}

#[test]
fn layer_resize_keeps_content_and_fills_new_area() {
    let mut layer = Layer::new("l", Size::new(2, 2));
    layer.set(Position::new(1, 1), cell('q'));
    layer.resize(Size::new(3, 3));
    assert_eq!(layer.get(Position::new(1, 1)), cell('q'));
    assert_eq!(layer.get(Position::new(2, 2)), Cell::transparent());
    layer.set_has_alpha_channel(false);
    layer.resize(Size::new(4, 1));
    assert_eq!(layer.get_width(), 4);
    assert_eq!(layer.get_height(), 1);
    assert_eq!(layer.get(Position::new(3, 0)), Cell::blank());
    assert_eq!(layer.get(Position::new(1, 1)), Cell::transparent());
}

#[test]
fn layer_dimensions_are_clamped() {
    let layer = Layer::new("l", Size::new(-5, MAX_DIM + 10));
    assert_eq!(layer.get_width(), 0);
    assert_eq!(layer.get_height(), MAX_DIM);
}

#[test]
fn canvas_index_checks() {
    let mut canvas = Canvas::new(Size::new(4, 4));
    assert!(matches!(canvas.layer_at(0), Err(EditError::IndexOutOfRange)));
    assert_eq!(
        canvas.insert_layer(1, Layer::new("a", Size::new(1, 1))),
        Err(EditError::IndexOutOfRange)
    );
    canvas.insert_layer(0, Layer::new("a", Size::new(1, 1))).unwrap();
    canvas.insert_layer(1, Layer::new("b", Size::new(2, 2))).unwrap();
    assert_eq!(canvas.swap(0, 2), Err(EditError::IndexOutOfRange));
    canvas.swap(0, 1).unwrap();
    assert_eq!(canvas.layer_at(0).unwrap().title().as_str(), "b");
    assert_eq!(canvas.layer_at(1).unwrap().title().as_str(), "a");
    assert!(matches!(canvas.remove_layer(2), Err(EditError::IndexOutOfRange)));
    let removed = canvas.remove_layer(0).unwrap();
    assert_eq!(removed.title().as_str(), "b");
    assert_eq!(canvas.layer_count(), 1);
}

#[test]
fn composite_takes_topmost_visible_cell() {
    let mut canvas = Canvas::new(Size::new(4, 4));
    let mut bottom = Layer::new("bottom", Size::new(4, 4));
    bottom.set(Position::new(1, 1), cell('b'));
    bottom.set(Position::new(2, 2), cell('c'));
    let mut top = Layer::new("top", Size::new(2, 2));
    top.set_offset(Position::new(1, 1));
    top.set(Position::new(0, 0), cell('t'));
    canvas.insert_layer(0, bottom).unwrap();
    canvas.insert_layer(1, top).unwrap();
    assert_eq!(canvas.composite_cell(Position::new(1, 1)), cell('t'));
    assert_eq!(canvas.composite_cell(Position::new(2, 2)), cell('c'));
    assert_eq!(canvas.composite_cell(Position::new(0, 0)), Cell::blank());
    assert_eq!(canvas.composite_cell(Position::new(9, 9)), Cell::blank());
    canvas.layers[1].set_visible(false);
    assert_eq!(canvas.composite_cell(Position::new(1, 1)), cell('b'));
}

#[test]
fn set_current_layer_out_of_range_fails_and_changes_nothing() {
    let mut state = state_with_layers(3, 4, 4);
    assert_eq!(state.set_current_layer(1), Ok(()));
    assert_eq!(state.set_current_layer(5), Err(EditError::IndexOutOfRange));
    assert_eq!(state.get_current_layer(), 1);
    assert_eq!(state.undo_stack_len(), 1);
}

#[test]
fn set_char_failure_modes() {
    let mut state = state_with_layers(0, 4, 4);
    assert_eq!(state.set_char(Position::new(0, 0), cell('x')), Err(EditError::LayerOutOfRange));
    let mut state = state_with_layers(1, 4, 4);
    assert_eq!(state.set_char(Position::new(4, 0), cell('x')), Err(EditError::InvalidPosition));
    assert_eq!(state.set_char(Position::new(0, -1), cell('x')), Err(EditError::InvalidPosition));
    assert_eq!(state.undo_stack_len(), 0);
    let mut canvas = Canvas::new(Size::new(4, 4));
    let mut locked = Layer::new("locked", Size::new(4, 4));
    locked.set_locked(true);
    canvas.insert_layer(0, locked).unwrap();
    let mut state = EditState::new(canvas);
    assert_eq!(state.set_char(Position::new(0, 0), cell('x')), Err(EditError::LayerLocked));
    assert_eq!(state.get_char(Position::new(0, 0)), Cell::transparent());
    assert_eq!(state.undo_stack_len(), 0);
}

#[test]
fn undo_and_redo_on_empty_stacks_fail() {
    let mut state = state_with_layers(1, 2, 2);
    assert_eq!(state.undo(), Err(EditError::NothingToUndo));
    assert_eq!(state.redo(), Err(EditError::NothingToRedo));
    assert!(!state.can_undo());
    assert!(!state.can_redo());
}

#[test]
fn single_mutator_is_one_transaction() {
    let mut state = state_with_layers(1, 2, 2);
    state.set_char(Position::new(0, 0), cell('a')).unwrap();
    state.set_char(Position::new(1, 0), cell('b')).unwrap();
    assert_eq!(state.undo_stack_len(), 2);
    state.undo().unwrap();
    assert_eq!(state.get_char(Position::new(0, 0)), cell('a'));
    assert_eq!(state.get_char(Position::new(1, 0)), Cell::transparent());
    assert_eq!(state.redo_stack_len(), 1);
}

#[test]
fn atomic_transaction_undoes_as_one_unit() {
    let mut state = state_with_layers(1, 3, 1);
    state.begin_atomic_undo("three");
    state.set_char(Position::new(0, 0), cell('a')).unwrap();
    state.begin_atomic_undo("nested");
    state.set_char(Position::new(1, 0), cell('b')).unwrap();
    state.end_atomic_undo();
    assert!(state.in_transaction());
    state.set_char(Position::new(2, 0), cell('c')).unwrap();
    state.end_atomic_undo();
    assert!(!state.in_transaction());
    assert_eq!(state.undo_stack_len(), 1);
    state.undo().unwrap();
    for x in 0..3 {
        assert_eq!(state.get_char(Position::new(x, 0)), Cell::transparent());
    }
    state.redo().unwrap();
    assert_eq!(state.get_char(Position::new(0, 0)), cell('a'));
    assert_eq!(state.get_char(Position::new(1, 0)), cell('b'));
    assert_eq!(state.get_char(Position::new(2, 0)), cell('c'));
}

#[test]
fn empty_transaction_leaves_the_journal_alone() {
    let mut state = state_with_layers(1, 2, 2);
    state.set_char(Position::new(0, 0), cell('a')).unwrap();
    state.undo().unwrap();
    state.begin_atomic_undo("nothing");
    state.end_atomic_undo();
    assert_eq!(state.undo_stack_len(), 0);
    assert_eq!(state.redo_stack_len(), 1);
    state.end_atomic_undo();
    assert_eq!(state.redo_stack_len(), 1);
}

#[test]
fn new_transaction_clears_the_redo_stack() {
    let mut state = state_with_layers(1, 2, 2);
    state.set_char(Position::new(0, 0), cell('a')).unwrap();
    state.undo().unwrap();
    assert!(state.can_redo());
    state.set_char(Position::new(1, 1), cell('b')).unwrap();
    assert!(!state.can_redo());
    assert_eq!(state.redo(), Err(EditError::NothingToRedo));
}

#[test]
fn undo_commits_an_open_transaction_first() {
    let mut state = state_with_layers(1, 2, 2);
    state.begin_atomic_undo("open");
    state.set_char(Position::new(0, 0), cell('a')).unwrap();
    assert_eq!(state.redo(), Err(EditError::NothingToRedo));
    assert_eq!(state.undo(), Ok(()));
    assert!(!state.in_transaction());
    assert_eq!(state.get_char(Position::new(0, 0)), Cell::transparent());
    assert_eq!(state.redo_stack_len(), 1);
}

#[test]
fn undo_redo_round_trip_restores_everything() {
    let mut state = state_with_layers(2, 4, 3);
    let start = snapshot(&state);
    state.set_char(Position::new(0, 0), cell('a')).unwrap();
    state.set_current_layer(1).unwrap();
    state.set_char(Position::new(3, 2), cell('b')).unwrap();
    state.move_layer(Position::new(5, -2)).unwrap();
    state.set_layer_visible(0, false).unwrap();
    state.swap_layers(0, 1).unwrap();
    state.insert_layer(1, Layer::new("new", Size::new(2, 2))).unwrap();
    state.remove_layer(0).unwrap();
    state.switch_to_palette(Palette::from_colors(vec![Color::new(1, 2, 3)]));
    state.set_size(Size::new(9, 9));
    let n = state.undo_stack_len();
    assert_eq!(n, 10);
    let end = snapshot(&state);
    let end_titles: Vec<String> =
        state.get_buffer().layers.iter().map(|l| l.title().clone()).collect();
    for _ in 0..n {
        state.undo().unwrap();
    }
    assert_eq!(snapshot(&state), start);
    assert_eq!(state.get_current_layer(), 0);
    assert_eq!(state.get_buffer().layer_count(), 2);
    assert_eq!(state.get_buffer().palette.len(), 0);
    assert_eq!(state.get_buffer().size, Size::new(4, 3));
    assert!(state.get_buffer().layers[0].is_visible());
    assert_eq!(state.get_buffer().layers[1].get_offset(), Position::new(0, 0));
    for _ in 0..n {
        state.redo().unwrap();
    }
    assert_eq!(snapshot(&state), end);
    let titles: Vec<String> =
        state.get_buffer().layers.iter().map(|l| l.title().clone()).collect();
    assert_eq!(titles, end_titles);
    assert_eq!(state.get_current_layer(), 1);
    assert_eq!(state.get_buffer().palette.len(), 1);
    assert_eq!(state.get_buffer().size, Size::new(9, 9));
    assert_eq!(state.undo_stack_len(), n);
    assert_eq!(state.redo_stack_len(), 0);
}

#[test]
fn switch_to_palette_is_undone_wholesale() {
    let mut state = state_with_layers(1, 2, 2);
    state.switch_to_palette(Palette::from_colors(vec![Color::new(1, 1, 1), Color::new(2, 2, 2)]));
    state.switch_to_palette(Palette::from_colors(vec![Color::new(9, 9, 9)]));
    assert_eq!(state.undo_stack_len(), 2);
    state.undo().unwrap();
    assert_eq!(state.get_buffer().palette.colors, vec![Color::new(1, 1, 1), Color::new(2, 2, 2)]);
    state.undo().unwrap();
    assert_eq!(state.get_buffer().palette.len(), 0);
}

#[test]
fn move_layer_failure_modes() {
    let mut state = state_with_layers(0, 2, 2);
    assert_eq!(state.move_layer(Position::new(1, 1)), Err(EditError::LayerOutOfRange));
    let mut canvas = Canvas::new(Size::new(2, 2));
    let mut layer = Layer::new("pinned", Size::new(2, 2));
    layer.set_position_locked(true);
    canvas.insert_layer(0, layer).unwrap();
    let mut state = EditState::new(canvas);
    assert_eq!(state.move_layer(Position::new(1, 1)), Err(EditError::LayerLocked));
    assert_eq!(state.undo_stack_len(), 0);
}

#[test]
fn layer_mutators_check_their_indices() {
    let mut state = state_with_layers(2, 2, 2);
    assert_eq!(state.set_layer_visible(2, false), Err(EditError::IndexOutOfRange));
    assert_eq!(state.swap_layers(0, 2), Err(EditError::IndexOutOfRange));
    assert_eq!(
        state.insert_layer(3, Layer::new("x", Size::new(1, 1))),
        Err(EditError::IndexOutOfRange)
    );
    assert_eq!(state.remove_layer(2), Err(EditError::IndexOutOfRange));
    assert_eq!(state.undo_stack_len(), 0);
    assert_eq!(state.get_buffer().layer_count(), 2);
}

#[test]
fn palette_insert_finds_or_appends() {
    let mut palette = Palette::from_colors(vec![Color::new(0, 0, 0), Color::new(1, 2, 3)]);
    assert_eq!(palette.insert_color_rgb(1, 2, 3), Ok(1));
    assert_eq!(palette.len(), 2);
    assert_eq!(palette.insert_color_rgb(7, 8, 9), Ok(2));
    assert_eq!(palette.len(), 3);
    assert_eq!(palette.get_rgb(2), Ok(Color::new(7, 8, 9)));
    assert_eq!(palette.get_rgb(3), Err(EditError::IndexOutOfRange));
    assert_eq!(palette.position_of(Color::new(5, 5, 5)), None);
    let other = Palette::from_colors(palette.colors.clone());
    assert!(palette.are_colors_equal(&other));
    assert!(!palette.are_colors_equal(&Palette::from_colors(vec![])));
}

#[test]
fn rectangle_from_pt_is_inclusive_and_order_free() {
    let a = Position::new(3, 1);
    let b = Position::new(1, 4);
    let r = Rectangle::from_pt(a, b).unwrap();
    assert_eq!(r, Rectangle::from_pt(b, a).unwrap());
    assert_eq!(r.start, Position::new(1, 1));
    assert_eq!(r.size, Size::new(3, 4));
    assert!(r.contains(a));
    assert!(r.contains(b));
    assert!(!r.contains(Position::new(4, 1)));
    assert_eq!(
        Rectangle::from_pt(Position::new(i32::MIN, 0), Position::new(i32::MAX, 0)),
        None
    );
}

#[test]
fn rectangle_intersection() {
    let a = Rectangle::new(Position::new(0, 0), Size::new(5, 5));
    let b = Rectangle::new(Position::new(3, 2), Size::new(10, 2));
    let c = a.intersect(&b);
    assert_eq!(c, Rectangle::new(Position::new(3, 2), Size::new(2, 2)));
    let apart = Rectangle::new(Position::new(20, 20), Size::new(1, 1));
    let none = a.intersect(&apart);
    assert_eq!(none.size, Size::new(0, 0));
    assert_eq!(c.right(), 5);
    assert_eq!(c.bottom(), 4);
    assert_eq!(
        c.relative_to(Position::new(1, 1)),
        Some(Rectangle::new(Position::new(2, 1), Size::new(2, 2)))
    );
}

#[test]
fn caret_is_not_journaled() {
    let mut state = state_with_layers(1, 2, 2);
    state.set_caret(Caret {
        position: Position::new(1, 1),
        attribute: Attribute::plain().with_foreground(4),
        font_page: 2,
    });
    state.set_caret_position(Position::new(0, 1));
    assert_eq!(state.get_caret().position, Position::new(0, 1));
    assert_eq!(state.get_caret().attribute.foreground, 4);
    assert_eq!(state.get_caret().font_page, 2);
    assert_eq!(state.undo_stack_len(), 0);
}

#[test]
fn reload_empties_the_journal() {
    let mut state = state_with_layers(2, 2, 2);
    state.set_current_layer(1).unwrap();
    state.set_char(Position::new(0, 0), cell('a')).unwrap();
    state.reload(Canvas::new(Size::new(1, 1)));
    assert_eq!(state.undo_stack_len(), 0);
    assert_eq!(state.get_buffer().layer_count(), 0);
    assert_eq!(state.get_current_layer(), 1);
    assert_eq!(state.set_char(Position::new(0, 0), cell('a')), Err(EditError::LayerOutOfRange));
    assert!(!state.reset_current_layer(0));
}

#[test]
fn overlay_role_and_drag_state_start_idle() {
    let mut state = state_with_layers(1, 3, 3);
    assert_eq!(state.get_drag(), DragState::Idle);
    state.clear_overlay_layer();
    assert_eq!(state.overlay_cell(Position::new(0, 0)), Cell::transparent());
    state.overlay_put(Position::new(1, 1), cell('o'));
    assert_eq!(state.overlay_cell(Position::new(1, 1)), cell('o'));
    assert_eq!(state.get_char(Position::new(1, 1)), Cell::transparent());
    state.remove_overlay();
    assert_eq!(state.overlay_cell(Position::new(1, 1)), Cell::transparent());
    assert_eq!(Role::Overlay, Role::Overlay);
}

#[test]
fn join_overlay_stamps_only_non_transparent_cells() {
    let mut state = state_with_layers(1, 3, 3);
    state.set_char(Position::new(0, 0), cell('k')).unwrap();
    state.clear_overlay_layer();
    state.overlay_put(Position::new(1, 1), cell('o'));
    state.overlay_put(Position::new(2, 2), cell('p'));
    assert_eq!(state.join_overlay("join"), Ok(()));
    assert_eq!(state.undo_stack_len(), 2);
    assert_eq!(state.get_char(Position::new(0, 0)), cell('k'));
    assert_eq!(state.get_char(Position::new(1, 1)), cell('o'));
    assert_eq!(state.get_char(Position::new(2, 2)), cell('p'));
    assert_eq!(state.overlay_cell(Position::new(1, 1)), Cell::transparent());
    state.undo().unwrap();
    assert_eq!(state.get_char(Position::new(1, 1)), Cell::transparent());
    assert_eq!(state.get_char(Position::new(0, 0)), cell('k'));
    state.clear_overlay_layer();
    assert_eq!(state.join_overlay("nothing"), Ok(()));
    assert_eq!(state.undo_stack_len(), 1);
}
