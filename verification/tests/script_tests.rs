use icy_draw::canvas::{Canvas, Selection};
use icy_draw::cell::{Attribute, Cell};
use icy_draw::edit_state::EditState;
use icy_draw::error::EditError;
use icy_draw::geometry::{Position, Rectangle, Size};
use icy_draw::layer::Layer;
use icy_draw::layer_panel::{add_layer, delete_layer, move_layer_down, move_layer_up, toggle_visible};
use icy_draw::plugin::{script_bounds, Plugin, PluginError, ScriptBounds};
use icy_draw::script;
use icy_draw::script::ScriptError;

fn layers(count: usize) -> EditState {
    let mut canvas = Canvas::new(Size::new(8, 4));
    for i in 0..count {
        let name = format!("layer {}", i);
        canvas.insert_layer(i, Layer::new(name.as_str(), Size::new(8, 4))).unwrap();
    }
    EditState::new(canvas)
}

fn titles(state: &EditState) -> Vec<String> {
    state.get_buffer().layers.iter().map(|l| l.title().clone()).collect()
}

#[test]
fn plugin_title_is_read_from_the_comment() {
    let text = "-- Title: Mirror\nfor y = 0, 3 do end\n".to_string();
    let plugin = Plugin::load(text.clone()).unwrap();
    assert_eq!(plugin.title, "Mirror");
    assert_eq!(plugin.text, text);
    let spaced = Plugin::load("local x = 1\n--Title:Two words \nrest".to_string()).unwrap();
    assert_eq!(spaced.title, "Two words ");
}

#[test]
fn text_without_title_is_no_plugin() {
    assert!(matches!(Plugin::load("print('hi')".to_string()), Err(PluginError::NoPluginFile)));
    assert!(matches!(Plugin::load(String::new()), Err(PluginError::NoPluginFile)));
    assert!(matches!(
        Plugin::with_title("x".to_string(), None),
        Err(PluginError::NoPluginFile)
    ));
    let made = Plugin::with_title("x".to_string(), Some("t".to_string())).unwrap();
    assert_eq!(made.title, "t");
    assert_eq!(made.text, "x");
}

#[test]
fn script_bounds_with_and_without_selection() {
    let layer = Rectangle::new(Position::new(2, 1), Size::new(8, 4));
    assert_eq!(
        script_bounds(None, layer),
        ScriptBounds { start_x: 0, end_x: 8, start_y: 0, end_y: 4 }
    );
    let selection = Rectangle::new(Position::new(0, 0), Size::new(5, 3));
    assert_eq!(
        script_bounds(Some(selection), layer),
        ScriptBounds { start_x: 0, end_x: 2, start_y: 0, end_y: 1 }
    );
    let inner = Rectangle::new(Position::new(4, 2), Size::new(2, 2));
    assert_eq!(
        script_bounds(Some(inner), layer),
        ScriptBounds { start_x: 2, end_x: 3, start_y: 1, end_y: 2 }
    );
}

#[test]
fn run_plugin_opens_a_transaction_under_the_title() {
    let plugin = Plugin::load("-- Title: Stamp".to_string()).unwrap();
    let mut state = layers(1);
    state.set_selection(Some(Selection::from_rectangle(Rectangle::new(
        Position::new(1, 1),
        Size::new(3, 2),
    ))));
    let before = state.undo_stack_len();
    let bounds = plugin.run_plugin(&mut state).unwrap();
    assert_eq!(bounds, ScriptBounds { start_x: 1, end_x: 3, start_y: 1, end_y: 2 });
    assert!(state.in_transaction());
    script::set_char(&mut state, 1, 1, 'a' as u32).unwrap();
    script::set_char(&mut state, 2, 1, 'b' as u32).unwrap();
    state.end_atomic_undo();
    assert_eq!(state.undo_stack_len(), before + 1);
    state.undo().unwrap();
    assert_eq!(script::get_char(&state, 1, 1), Ok(0));
    let mut empty = layers(0);
    assert_eq!(plugin.run_plugin(&mut empty), Err(PluginError::NoLayerSelected));
    assert!(!empty.in_transaction());
}

#[test]
fn script_checks_the_current_layer() {
    let mut state = layers(0);
    let gone = ScriptError::CurrentLayerOutOfRange { layer: 0, count: 0 };
    assert_eq!(script::set_char(&mut state, 0, 0, 65), Err(gone));
    assert_eq!(script::get_char(&state, 0, 0), Err(gone));
    assert_eq!(script::set_fg(&mut state, 0, 0, 1), Err(gone));
    assert_eq!(script::get_fg(&state, 0, 0), Err(gone));
    assert_eq!(script::set_bg(&mut state, 0, 0, 1), Err(gone));
    assert_eq!(script::get_bg(&state, 0, 0), Err(gone));
    assert_eq!(script::check_current(&state), Err(gone));
}

#[test]
fn script_checks_layer_indices() {
    let mut state = layers(2);
    let bad = ScriptError::LayerOutOfRange { layer: 2, count: 2 };
    assert_eq!(script::set_layer(&mut state, 2), Err(bad));
    assert_eq!(script::get_layer(&state), 0);
    assert_eq!(script::set_layer(&mut state, 1), Ok(()));
    assert_eq!(script::get_layer(&state), 1);
    assert_eq!(script::set_layer_position(&mut state, 2, 1, 1), Err(bad));
    assert_eq!(script::get_layer_position(&state, 2), Err(bad));
    assert_eq!(script::set_layer_visible(&mut state, 2, false), Err(bad));
    assert_eq!(script::get_layer_visible(&state, 2), Err(bad));
    assert_eq!(script::check_layer(&state, 1), Ok(()));
    assert_eq!(script::layer_count(&state), 2);
}

#[test]
fn script_set_char_rejects_invalid_codes() {
    let mut state = layers(1);
    assert_eq!(
        script::set_char(&mut state, 0, 0, 0xD800),
        Err(ScriptError::InvalidChar { code: 0xD800 })
    );
    assert_eq!(
        script::set_char(&mut state, 0, 0, 0x110000),
        Err(ScriptError::InvalidChar { code: 0x110000 })
    );
    assert_eq!(script::set_char(&mut state, 0, 0, 0x263A), Ok(()));
    assert_eq!(script::get_char(&state, 0, 0), Ok(0x263A));
    assert_eq!(
        script::set_char(&mut state, 8, 0, 65),
        Err(ScriptError::Edit(EditError::InvalidPosition))
    );
}

#[test]
fn script_cell_colours() {
    let mut state = layers(1);
    script::set_fg_color(&mut state, 3);
    script::set_bg_color(&mut state, 4);
    assert_eq!(script::get_fg_color(&state), 3);
    assert_eq!(script::get_bg_color(&state), 4);
    script::set_char(&mut state, 1, 1, 'x' as u32).unwrap();
    assert_eq!(script::get_fg(&state, 1, 1), Ok(3));
    assert_eq!(script::get_bg(&state, 1, 1), Ok(4));
    script::set_fg(&mut state, 1, 1, 9).unwrap();
    script::set_bg(&mut state, 1, 1, 8).unwrap();
    assert_eq!(
        state.get_char(Position::new(1, 1)),
        Cell::new('x', Attribute::plain().with_foreground(9).with_background(8))
    );
    // outside the layer nothing happens and nothing is recorded
    let before = state.undo_stack_len();
    assert_eq!(script::set_fg(&mut state, 20, 20, 9), Ok(()));
    assert_eq!(state.undo_stack_len(), before);
    assert_eq!(script::get_fg(&state, 20, 20), Ok(0));
}

#[test]
fn script_print_types_at_the_caret() {
    let mut state = layers(1);
    script::gotoxy(&mut state, 6, 2);
    script::set_fg_color(&mut state, 5);
    script::print(&mut state, "abc");
    assert_eq!(script::get_char(&state, 6, 2), Ok('a' as u32));
    assert_eq!(script::get_char(&state, 7, 2), Ok('b' as u32));
    assert_eq!(script::get_fg(&state, 7, 2), Ok(5));
    assert_eq!(script::get_x(&state), 9);
    assert_eq!(script::get_y(&state), 2);
    assert_eq!(state.undo_stack_len(), 2);
    script::set_x(&mut state, i32::MAX);
    script::print(&mut state, "z");
    assert_eq!(script::get_x(&state), i32::MAX);
    script::set_y(&mut state, 1);
    assert_eq!(state.get_caret().position, Position::new(i32::MAX, 1));
}

#[test]
fn script_palette_colours() {
    let mut state = layers(1);
    assert_eq!(script::fg_rgb(&mut state, 10, 20, 30), Ok(0));
    assert_eq!(script::bg_rgb(&mut state, 1, 2, 3), Ok(1));
    assert_eq!(script::fg_rgb(&mut state, 1, 2, 3), Ok(1));
    assert_eq!(state.get_buffer().palette.len(), 2);
    assert_eq!(script::get_fg_color(&state), 1);
    assert_eq!(script::get_bg_color(&state), 1);
    assert_eq!(state.undo_stack_len(), 2);
}

#[test]
fn script_size_and_caret_fields() {
    let mut state = layers(1);
    assert_eq!(script::get_width(&state), 8);
    assert_eq!(script::get_height(&state), 4);
    script::set_width(&mut state, 80);
    script::set_height(&mut state, 25);
    assert_eq!(state.get_buffer().size, Size::new(80, 25));
    script::set_font_page(&mut state, 3);
    assert_eq!(script::get_font_page(&state), 3);
    script::gotoxy(&mut state, 2, 3);
    script::clear(&mut state);
    assert_eq!(state.get_caret().position, Position::new(0, 0));
    assert_eq!(script::get_font_page(&state), 0);
}

#[test]
fn script_layer_position_and_visibility() {
    let mut state = layers(2);
    assert_eq!(script::set_layer_position(&mut state, 1, 5, 6), Ok(()));
    // the position goes to the current layer
    assert_eq!(script::get_layer_position(&state, 0), Ok((5, 6)));
    assert_eq!(script::get_layer_position(&state, 1), Ok((0, 0)));
    assert_eq!(script::set_layer_visible(&mut state, 1, false), Ok(()));
    assert_eq!(script::get_layer_visible(&state, 1), Ok(false));
    assert_eq!(script::get_layer_visible(&state, 0), Ok(true));
}

#[test]
fn layer_panel_moves_the_current_layer() {
    let mut state = layers(3);
    move_layer_up(&mut state);
    assert_eq!(state.undo_stack_len(), 0);
    state.set_current_layer(1).unwrap();
    move_layer_up(&mut state);
    assert_eq!(titles(&state), vec!["layer 1", "layer 0", "layer 2"]);
    assert_eq!(state.get_current_layer(), 0);
    assert_eq!(state.undo_stack_len(), 2);
    move_layer_down(&mut state);
    move_layer_down(&mut state);
    assert_eq!(titles(&state), vec!["layer 0", "layer 2", "layer 1"]);
    assert_eq!(state.get_current_layer(), 2);
    move_layer_down(&mut state);
    assert_eq!(state.undo_stack_len(), 4);
    state.undo().unwrap();
    assert_eq!(titles(&state), vec!["layer 0", "layer 1", "layer 2"]);
    assert_eq!(state.get_current_layer(), 1);
}

#[test]
fn layer_panel_adds_and_deletes() {
    let mut state = layers(2);
    add_layer(&mut state);
    assert_eq!(titles(&state), vec!["New Layer", "layer 0", "layer 1"]);
    assert_eq!(state.get_buffer().layers[0].get_size(), Size::new(8, 4));
    state.set_current_layer(2).unwrap();
    delete_layer(&mut state);
    assert_eq!(titles(&state), vec!["New Layer", "layer 0"]);
    assert_eq!(state.get_current_layer(), 1);
    state.undo().unwrap();
    assert_eq!(state.get_buffer().layer_count(), 3);
    assert_eq!(state.get_current_layer(), 2);
    state.redo().unwrap();
    state.set_current_layer(0).unwrap();
    delete_layer(&mut state);
    assert_eq!(titles(&state), vec!["layer 0"]);
    assert_eq!(state.get_current_layer(), 0);
    delete_layer(&mut state);
    assert_eq!(state.get_buffer().layer_count(), 0);
    let n = state.undo_stack_len();
    delete_layer(&mut state);
    assert_eq!(state.undo_stack_len(), n);
}

#[test]
fn layer_panel_toggles_visibility() {
    let mut state = layers(1);
    toggle_visible(&mut state, 0);
    assert!(!state.get_buffer().layers[0].is_visible());
    toggle_visible(&mut state, 0);
    assert!(state.get_buffer().layers[0].is_visible());
    toggle_visible(&mut state, 4);
    assert_eq!(state.undo_stack_len(), 2);
}
