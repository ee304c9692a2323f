use icy_draw::canvas::Canvas;
use icy_draw::cell::Cell;
use icy_draw::char_table::{CharTableToolWindow, Message};
use icy_draw::drag::{Brush, DrawMode, Shape};
use icy_draw::edit_state::{DragState, EditState};
use icy_draw::geometry::{Position, Size};
use icy_draw::layer::Layer;
use icy_draw::window::{
    DocumentKind, DocumentTab, MainWindow, OpenAction, SixelCacheEntry, Tile, FIRST_TOOL,
};

fn window_with_two_tabs() -> MainWindow {
    let mut window = MainWindow::new();
    window.document_tree.tiles = vec![
        Some(Tile::Tabs { children: vec![1, 2], active: Some(1) }),
        Some(Tile::Pane(DocumentTab { path: Some("one.ans".to_string()), dirty: false })),
        Some(Tile::Pane(DocumentTab { path: Some("two.ans".to_string()), dirty: true })),
    ];
    window.document_tree.root = Some(0);
    window
}

#[test]
fn main_window_starts_empty() {
    let mut window = MainWindow::new();
    assert!(window.left_panel && window.right_panel && !window.bottom_panel);
    assert!(!window.is_closed && !window.is_fullscreen && !window.dialog_open);
    assert_eq!(window.selected_tool, FIRST_TOOL);
    assert_eq!(window.palette_mode, 0);
    assert_eq!(window.get_active_pane(), None);
    assert!(window.get_active_document().is_none());
    assert_eq!(window.enumerate_documents(), Vec::<usize>::new());
    assert_eq!(window.create_id(), 1);
    assert_eq!(window.create_id(), 2);
    assert_eq!(window.id, 2);
    assert!(window.left_panel && window.right_panel && !window.bottom_panel);
    assert_eq!(window.selected_tool, FIRST_TOOL);
    assert_eq!(window.document_tree.tiles.len(), 0);
}

#[test]
fn opening_an_open_file_brings_its_tab_to_the_front() {
    let mut window = window_with_two_tabs();
    assert_eq!(window.get_active_pane(), Some(1));
    assert_eq!(window.get_active_document().unwrap().path, Some("one.ans".to_string()));
    assert_eq!(window.open_file("two.ans", Some("ans")), OpenAction::Activated(2));
    assert_eq!(window.get_active_pane(), Some(2));
    assert!(window.get_active_document().unwrap().dirty);
    assert_eq!(window.enumerate_documents(), vec![2, 1]);
    assert_eq!(window.enumerate_tabs(), vec![0]);
}

#[test]
fn opening_a_new_file_says_how_to_read_it() {
    let mut window = window_with_two_tabs();
    assert_eq!(window.open_file("font.TDF", Some("TDF")), OpenAction::Load(DocumentKind::CharFont));
    assert_eq!(window.open_file("font.psf", Some("psf")), OpenAction::Load(DocumentKind::BitFont));
    assert_eq!(window.open_file("three.ans", Some("ans")), OpenAction::Load(DocumentKind::Ansi));
    assert_eq!(window.open_file("README", None), OpenAction::Load(DocumentKind::Ansi));
    assert_eq!(window.get_active_pane(), Some(1));
}

#[test]
fn sixel_cache_entries_are_plain_values() {
    let entry = SixelCacheEntry {
        pos: Position::new(1, 2),
        size: Size::new(30, 40),
        x_scale: 1,
        y_scale: 2,
        texture: 7,
    };
    let copy = entry;
    assert_eq!(copy, entry);
}

#[test]
fn char_table_frame_by_frame() {
    let mut table = CharTableToolWindow::new("IBM VGA", 32);
    // the click of the first frame finds no glyph under the pointer yet
    assert_eq!(table.show_plain_char_table(Some((1, 2)), true), None);
    assert_eq!(table.show_plain_char_table(Some((2, 2)), true), Some('A'));
    assert_eq!(table.click(), Some('B'));
    assert_eq!(table.show_plain_char_table(None, false), None);
    assert_eq!(table.click(), None);
}

#[test]
fn char_table_messages() {
    let pages = [0usize, 3, 7];
    let mut table = CharTableToolWindow::new("IBM VGA", 32);
    table.hover(1, 2);
    assert_eq!(
        table.show_char_table("IBM VGA", 3, &pages, 3, false, false, Some((1, 2)), true),
        Some(Message::CharTable('A'))
    );
    assert_eq!(
        table.show_char_table("IBM VGA", 3, &pages, 3, true, false, Some((1, 2)), false),
        Some(Message::SetFontPage(0))
    );
    assert_eq!(
        table.show_char_table("IBM VGA", 3, &pages, 3, true, true, None, false),
        Some(Message::SetFontPage(7))
    );
    assert_eq!(
        table.show_char_table("IBM VGA", 3, &pages, 7, false, true, None, false),
        Some(Message::SetFontPage(0))
    );
    assert_eq!(table.show_char_table("IBM VGA", 1, &pages, 3, true, true, None, false), None);
    table.hover(1, 2);
    // another font forgets the glyph under the pointer before the click counts
    assert_eq!(table.show_char_table("Topaz", 1, &pages, 3, false, false, Some((1, 2)), true), None);
    assert_eq!(table.font_name, "Topaz");
    assert_eq!(table.click(), Some('A'));
}

#[test]
fn cancelled_drag_merges_nothing() {
    let mut canvas = Canvas::new(Size::new(4, 4));
    canvas.insert_layer(0, Layer::new("layer", Size::new(4, 4))).unwrap();
    let mut state = EditState::new(canvas);
    let brush = Brush { draw_mode: DrawMode::Line, use_fore: true, use_back: true, char_code: ' ' };
    state.cancel_drag();
    state.begin_drag(Position::new(0, 0)).unwrap();
    state.update_drag(Position::new(3, 3), Shape::Line, brush).unwrap();
    assert_eq!(state.overlay_cell(Position::new(1, 1)).ch, '\u{00DB}');
    state.cancel_drag();
    assert_eq!(state.get_drag(), DragState::Idle);
    assert_eq!(state.overlay_cell(Position::new(1, 1)), Cell::transparent());
    assert_eq!(state.get_char(Position::new(1, 1)), Cell::transparent());
    assert_eq!(state.undo_stack_len(), 0);
}
