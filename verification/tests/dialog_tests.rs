use icy_draw::canvas::Canvas;
use icy_draw::cell::{Attribute, Cell};
use icy_draw::char_table::{
    cell_of_char, char_table_layer, hover_cell, hovered_char, next_font_page, prev_font_page,
    CharTableToolWindow,
};
use icy_draw::document::{Document, ModalDialog};
use icy_draw::edit_state::EditState;
use icy_draw::font_editor::{
    attribute_of, render_glyph, document_title, encode_glyph, forced_attribute, get_line_count, get_line_length, glyph_style,
    set_up_layers, CharFontEditor, DrawGlyphStyle, FontGlyph, FontType, GlyphFont,
};
use icy_draw::geometry::{Position, Size};
use icy_draw::layer::Layer;
use icy_draw::palette::{Color, Palette};
use icy_draw::palette_dialog::{
    PaletteFrame, archive_entry_kind, library_file_action, swatch_cell, swatch_columns, swatch_rows,
    ArchiveEntryKind, LibraryFileAction, PaletteSource, SelectPaletteDialog,
};
use icy_draw::strings::{ascii_lower, contains_bytes, contains_str, ends_with_ignore_case, equals_ignore_case};
use icy_draw::window::{
    check_base_f_key_modifier, create_id, document_kind, enter_paste_mode, read_outline_keys,
    update_sixels, CloseOutcome, DocumentKind, DocumentTab, DocumentTree, Modifiers,
    SixelCacheAction, Tile, Walk, BRUSH_TOOL, FIRST_TOOL, PASTE_TOOL,
};
use icy_draw::layer::Role;

fn named(title: &str, colors: Vec<Color>) -> Palette {
    let mut p = Palette::from_colors(colors);
    p.title = title.to_string();
    p
}

fn builtin() -> Vec<Palette> {
    vec![
        named("DOS default", vec![Color::new(0, 0, 0), Color::new(170, 0, 0)]),
        named("C64 default", vec![Color::new(1, 1, 1)]),
        named("Viewdata", vec![Color::new(0, 0, 0), Color::new(170, 0, 0)]),
    ]
}

fn pane(path: Option<&str>, dirty: bool) -> Option<Tile> {
    Some(Tile::Pane(DocumentTab { path: path.map(|p| p.to_string()), dirty }))
}

fn sample_tree() -> DocumentTree {
    // 0: linear [1, 4]; 1: tabs [2, 3] active 3; 2, 3, 5, 6: panes; 4: grid [5, 6]
    DocumentTree {
        tiles: vec![
            Some(Tile::Linear { children: vec![1, 4] }),
            Some(Tile::Tabs { children: vec![2, 3], active: Some(3) }),
            pane(Some("a.ans"), false),
            pane(Some("b.ans"), true),
            Some(Tile::Grid { children: vec![5, 6, 9] }),
            pane(None, false),
            pane(Some("a.ans"), false),
        ],
        root: Some(0),
    }
}

fn mods(alt: bool, ctrl: bool, shift: bool, command: bool) -> Modifiers {
    Modifiers { alt, ctrl, shift, mac_cmd: false, command }
}

fn keys(down: &[usize]) -> Vec<bool> {
    let mut pressed = vec![false; 12];
    for &k in down {
        pressed[k] = true;
    }
    pressed
}

#[test]
fn chooser_selects_the_builtin_palette_of_the_document() {
    let current = named("mine", vec![Color::new(1, 1, 1)]);
    let library = vec![named("Lib", vec![Color::new(9, 9, 9)])];
    let dialog = SelectPaletteDialog::new(&builtin(), &current, &library, "Extracted");
    assert_eq!(dialog.selected_palette, 1);
    assert_eq!(dialog.palettes.len(), 4);
    assert_eq!(dialog.palettes[0].source, PaletteSource::BuiltIn);
    assert_eq!(dialog.palettes[3].source, PaletteSource::Library);
    assert_eq!(dialog.palettes[3].palette.title, "Lib");
    let first = named("", vec![Color::new(0, 0, 0), Color::new(170, 0, 0)]);
    assert_eq!(SelectPaletteDialog::new(&builtin(), &first, &library, "x").selected_palette, 0);
}

#[test]
fn chooser_puts_an_unknown_palette_in_front() {
    let current = named("", vec![Color::new(5, 5, 5)]);
    let dialog = SelectPaletteDialog::new(&builtin(), &current, &vec![], "Extracted");
    assert_eq!(dialog.selected_palette, 0);
    assert_eq!(dialog.palettes.len(), 4);
    assert_eq!(dialog.palettes[0].source, PaletteSource::File);
    assert_eq!(dialog.palettes[0].palette.title, "Extracted");
    assert_eq!(dialog.palettes[0].palette.colors, vec![Color::new(5, 5, 5)]);
    assert_eq!(dialog.palettes[1].palette.title, "DOS default");
    let titled = named("Own", vec![Color::new(5, 5, 5)]);
    let dialog = SelectPaletteDialog::new(&builtin(), &titled, &vec![], "Extracted");
    assert_eq!(dialog.palettes[0].palette.title, "Own");
}

#[test]
fn chooser_filters_by_source_and_lower_cased_title() {
    let current = named("Ünïque", vec![Color::new(5, 5, 5)]);
    let library = vec![named("dos remix", vec![]), named("Other", vec![])];
    let mut dialog = SelectPaletteDialog::new(&builtin(), &current, &library, "x");
    assert_eq!(dialog.filtered(), vec![0, 1, 2, 3, 4, 5]);
    dialog.filter = "DOS".to_string();
    assert_eq!(dialog.filtered(), vec![1, 4]);
    dialog.show_builtin = false;
    assert_eq!(dialog.filtered(), vec![4]);
    dialog.show_library = false;
    assert_eq!(dialog.filtered(), Vec::<usize>::new());
    dialog.filter = "ÜNÏ".to_string();
    assert_eq!(dialog.filtered(), vec![0]);
    dialog.show_file = false;
    assert_eq!(dialog.filtered(), Vec::<usize>::new());
}

#[test]
fn chooser_commits_the_selected_palette() {
    let current = named("mine", vec![Color::new(5, 5, 5)]);
    let mut dialog = SelectPaletteDialog::new(&builtin(), &current, &vec![], "x");
    assert!(!dialog.should_commit());
    dialog.click(2);
    assert!(!dialog.should_commit());
    dialog.double_click(2);
    assert!(dialog.should_commit());
    let mut state = EditState::new(Canvas::new(Size::new(2, 2)));
    assert!(ModalDialog::commit(&dialog, &mut state));
    assert_eq!(state.get_buffer().palette.title, "C64 default");
    assert_eq!(state.undo_stack_len(), 1);
    dialog.click(40);
    assert!(!dialog.commit(&mut state));
    assert_eq!(state.undo_stack_len(), 1);
    state.undo().unwrap();
    assert_eq!(state.get_buffer().palette.len(), 0);
}

#[test]
fn swatch_grid_layout() {
    assert_eq!(swatch_columns(0), 8);
    assert_eq!(swatch_columns(16), 8);
    assert_eq!(swatch_columns(48), 8);
    assert_eq!(swatch_columns(49), 16);
    assert_eq!(swatch_columns(256), 48);
    assert_eq!(swatch_rows(0, 8), 1);
    assert_eq!(swatch_rows(16, 8), 2);
    assert_eq!(swatch_rows(17, 8), 3);
    assert_eq!(swatch_rows(256, 48), 6);
    assert_eq!(swatch_cell(0, 8), (0, 0));
    assert_eq!(swatch_cell(19, 8), (3, 2));
}

#[test]
fn archive_entries_and_library_files() {
    assert_eq!(archive_entry_kind("pack/inner.ZIP"), ArchiveEntryKind::NestedArchive);
    assert_eq!(archive_entry_kind("a.zip"), ArchiveEntryKind::NestedArchive);
    assert_eq!(archive_entry_kind("zip"), ArchiveEntryKind::PaletteFile);
    assert_eq!(archive_entry_kind("colors.gpl"), ArchiveEntryKind::PaletteFile);
    assert_eq!(library_file_action(None), LibraryFileAction::Skip);
    assert_eq!(library_file_action(Some("Zip")), LibraryFileAction::ImportAndUnpack);
    assert_eq!(library_file_action(Some("pal")), LibraryFileAction::Import);
}

#[test]
fn byte_search_and_comparison() {
    assert!(contains_bytes(b"hello world", b"lo w"));
    assert!(contains_bytes(b"hello", b""));
    assert!(contains_bytes(b"", b""));
    assert!(!contains_bytes(b"hello", b"hello!"));
    assert!(!contains_bytes(b"abcabd", b"abda"));
    assert!(contains_bytes(b"abcabd", b"abd"));
    assert!(contains_str("grüße", "üß"));
    assert!(!contains_str("grüße", "ue"));
    assert!(ends_with_ignore_case(b"FILE.ZiP", b".zip"));
    assert!(!ends_with_ignore_case(b"zip", b".zip"));
    assert!(equals_ignore_case(b"TDF", b"tdf"));
    assert!(!equals_ignore_case(b"tdfx", b"tdf"));
    assert_eq!(ascii_lower(b'A'), b'a');
    assert_eq!(ascii_lower(b'Z'), b'z');
    assert_eq!(ascii_lower(b'['), b'[');
    assert_eq!(ascii_lower(b'@'), b'@');
}

#[test]
fn font_pages_wrap_around() {
    let pages = [0usize, 5, 2, 9];
    assert_eq!(prev_font_page(&pages, 5), 2);
    assert_eq!(prev_font_page(&pages, 0), 9);
    assert_eq!(prev_font_page(&pages, 3), 2);
    assert_eq!(prev_font_page(&[], 4), 0);
    assert_eq!(next_font_page(&pages, 5), 9);
    assert_eq!(next_font_page(&pages, 9), 0);
    assert_eq!(next_font_page(&pages, 1), 2);
    assert_eq!(next_font_page(&[], 4), usize::MAX);
    assert_eq!(next_font_page(&[7], 7), 7);
    assert_eq!(prev_font_page(&[7], 7), 7);
}

#[test]
fn char_table_hover_and_cells() {
    assert_eq!(hovered_char(1, 2, 32), Some('A'));
    assert_eq!(hovered_char(0, 0, 16), Some('\0'));
    assert_eq!(hovered_char(0, 0xD800, 1), None);
    assert_eq!(hovered_char(usize::MAX, usize::MAX, usize::MAX), None);
    assert_eq!(cell_of_char('A', 32), (1, 2));
    assert_eq!(cell_of_char('A', 16), (1, 4));
    assert_eq!(hover_cell('x', 14), Cell::new('x', Attribute::plain().with_foreground(14)));
    let mut window = CharTableToolWindow::new("IBM VGA", 32);
    assert!(window.hover(1, 2));
    assert!(!window.hover(1, 2));
    assert_eq!(window.click(), Some('A'));
    assert!(!window.set_font("IBM VGA"));
    assert_eq!(window.click(), Some('A'));
    assert!(window.set_font("Topaz"));
    assert_eq!(window.click(), None);
    window.hover(2, 2);
    window.leave();
    assert_eq!(window.click(), None);
}

#[test]
fn char_table_layer_holds_the_first_256_glyphs() {
    let layer = char_table_layer(32);
    assert_eq!(layer.get_size(), Size::new(32, 8));
    for code in 0u32..256 {
        let (x, y) = ((code % 32) as i32, (code / 32) as i32);
        let c = layer.get(Position::new(x, y));
        assert_eq!(c.ch as u32, code);
        assert_eq!(c.attribute, Attribute::plain());
    }
    let odd = char_table_layer(100);
    assert_eq!(odd.get_size(), Size::new(100, 2));
    assert_eq!(odd.get(Position::new(99, 1)).ch as u32, 199);
}

#[test]
fn glyph_styles_and_titles() {
    assert_eq!(glyph_style(true, None, 'a'), DrawGlyphStyle::Normal);
    assert_eq!(glyph_style(false, None, 'a'), DrawGlyphStyle::GrayOut);
    assert_eq!(glyph_style(false, Some('a'), 'a'), DrawGlyphStyle::Selected);
    assert_eq!(glyph_style(true, Some('b'), 'a'), DrawGlyphStyle::Normal);
    assert_eq!(document_title(Some("font.tdf")), "font.tdf");
    assert_eq!(document_title(None), "Untitled");
    let caret = Attribute::plain().with_foreground(3);
    assert_eq!(forced_attribute(FontType::Block, caret), Some(caret));
    assert_eq!(forced_attribute(FontType::Outline, caret), Some(caret));
    assert_eq!(forced_attribute(FontType::Color, caret), None);
}

#[test]
fn glyph_canvas_layers() {
    let mut canvas = Canvas::new(Size::new(30, 12));
    canvas.insert_layer(0, Layer::new("old", Size::new(1, 1))).unwrap();
    set_up_layers(&mut canvas);
    assert_eq!(canvas.layer_count(), 2);
    let background = &canvas.layers[0];
    assert_eq!(background.title().as_str(), "background");
    assert!(background.is_locked() && background.is_position_locked());
    assert!(!background.has_alpha_channel());
    let edit = &canvas.layers[1];
    assert_eq!(edit.title().as_str(), "edit layer");
    assert!(!edit.is_locked() && edit.is_position_locked() && edit.has_alpha_channel());
    assert_eq!(edit.get_size(), Size::new(30, 12));
}

#[test]
fn glyph_is_encoded_row_by_row() {
    let mut canvas = Canvas::new(Size::new(30, 12));
    set_up_layers(&mut canvas);
    let attr = Attribute::plain().with_foreground(0x1E).with_background(0x13);
    canvas.layers[1].set(Position::new(0, 0), Cell::new('A', attr));
    canvas.layers[1].set(Position::new(2, 0), Cell::new('B', attr));
    canvas.layers[1].set(Position::new(1, 2), Cell::new('\u{2588}', attr));
    assert_eq!(get_line_length(&canvas, 0), 3);
    assert_eq!(get_line_length(&canvas, 1), 0);
    assert_eq!(get_line_length(&canvas, 2), 2);
    assert_eq!(get_line_count(&canvas), 3);
    let block = encode_glyph(&canvas, FontType::Block).unwrap();
    assert_eq!(block.size, Size::new(3, 2));
    assert_eq!(block.data, vec![b'A', b' ', b'B', 13, 13, b' ', 0x88]);
    let color = encode_glyph(&canvas, FontType::Color).unwrap();
    assert_eq!(
        color.data,
        vec![b'A', 0x3E, b' ', 0x07, b'B', 0x3E, 13, 13, b' ', 0x07, 0x88, 0x3E]
    );
    assert!(encode_glyph(&canvas, FontType::Outline).is_none());
    let empty = Canvas::new(Size::new(4, 4));
    let none = encode_glyph(&empty, FontType::Block).unwrap();
    assert_eq!(none.size, Size::new(0, 0));
    assert_eq!(none.data, Vec::<u8>::new());
}

#[test]
fn glyph_font_slots() {
    let mut font = GlyphFont { name: "f".to_string(), font_type: FontType::Block, glyphs: vec![] };
    assert!(!font.has_char(b'!'));
    assert!(font.set_glyph('#', FontGlyph { size: Size::new(1, 0), data: vec![1] }));
    assert_eq!(font.glyphs.len(), 3);
    assert!(font.has_char(b'#'));
    assert!(!font.has_char(b'!'));
    assert!(!font.has_char(b' '));
    assert!(!font.has_char(0x7F));
    assert!(!font.set_glyph(' ', FontGlyph { size: Size::new(1, 0), data: vec![] }));
    assert_eq!(GlyphFont::slot_of('~'), Some(93));
    assert_eq!(GlyphFont::slot_of('\u{7F}'), None);
}

#[test]
fn char_font_editor_saves_the_glyph_that_was_shown() {
    let font = GlyphFont { name: "f".to_string(), font_type: FontType::Block, glyphs: vec![] };
    let mut editor = CharFontEditor::new(Some("fonts.tdf".to_string()), vec![font]);
    assert_eq!(Document::get_title(&editor), "fonts.tdf");
    assert!(!Document::is_dirty(&editor));
    assert_eq!(Document::undo_stack_len(&editor), 0);
    assert!(!editor.can_undo() && !editor.can_redo());
    let styles = editor.show_char_selector();
    assert_eq!(styles.len(), 94);
    assert!(styles.iter().all(|s| *s == DrawGlyphStyle::GrayOut));
    editor.select_char('A');
    let styles = editor.show_char_selector();
    assert_eq!(styles[(b'A' - b'!') as usize], DrawGlyphStyle::Selected);
    assert_eq!(editor.get_ansi_editor().get_current_layer(), 1);
    assert_eq!(editor.get_ansi_editor().get_buffer().layer_count(), 2);
    assert_eq!(editor.undo(), Err(icy_draw::error::EditError::NothingToUndo));
    assert_eq!(editor.redo(), Err(icy_draw::error::EditError::NothingToRedo));
    editor.select_char('B');
    let styles = editor.show_char_selector();
    // the empty glyph of 'A' was read back when 'B' was put on the canvas
    assert_eq!(styles[(b'A' - b'!') as usize], DrawGlyphStyle::Normal);
    assert_eq!(styles[(b'B' - b'!') as usize], DrawGlyphStyle::Selected);
    editor.select_font(3);
    let styles = editor.show_char_selector();
    assert!(styles.iter().all(|s| *s == DrawGlyphStyle::GrayOut));
    assert_eq!(CharFontEditor::new(None, vec![]).get_title(), "Untitled");
}

#[test]
fn tree_walks() {
    let tree = sample_tree();
    assert_eq!(tree.enumerate_documents(), vec![6, 5, 3, 2]);
    assert_eq!(tree.enumerate_tabs(), vec![1]);
    assert_eq!(tree.walk(Walk::ShownPanes), vec![6, 5, 3]);
    assert_eq!(tree.get_active_pane(), Some(6));
    assert_eq!(DocumentTree::empty().get_active_pane(), None);
    assert_eq!(DocumentTree::empty().enumerate_documents(), Vec::<usize>::new());
    let only_tabs = DocumentTree {
        tiles: vec![Some(Tile::Tabs { children: vec![1, 2], active: None }), pane(None, false), pane(None, false)],
        root: Some(0),
    };
    assert_eq!(only_tabs.get_active_pane(), None);
    assert_eq!(only_tabs.enumerate_documents(), vec![2, 1]);
    let cyclic = DocumentTree {
        tiles: vec![Some(Tile::Linear { children: vec![0] })],
        root: Some(0),
    };
    assert_eq!(cyclic.enumerate_documents(), Vec::<usize>::new());
}

#[test]
fn open_documents_are_found_and_activated() {
    let mut tree = sample_tree();
    assert_eq!(tree.find_open("a.ans"), Some(2));
    assert_eq!(tree.find_open("b.ans"), Some(3));
    assert_eq!(tree.find_open("c.ans"), None);
    tree.activate(2);
    assert!(matches!(&tree.tiles[1], Some(Tile::Tabs { active: Some(2), .. })));
    assert_eq!(tree.walk(Walk::ShownPanes), vec![6, 5, 2]);
    tree.activate(6);
    assert!(matches!(&tree.tiles[1], Some(Tile::Tabs { active: Some(2), .. })));
}

#[test]
fn closing_tabs_stops_at_unsaved_changes() {
    let mut tree = sample_tree();
    assert_eq!(tree.request_close_tab(0), CloseOutcome::NotAPane);
    assert_eq!(tree.request_close_tab(20), CloseOutcome::NotAPane);
    assert_eq!(tree.request_close_tab(3), CloseOutcome::AskUser);
    assert!(tree.tiles[3].is_some());
    assert_eq!(tree.request_close_tab(5), CloseOutcome::Closed);
    assert!(tree.tiles[5].is_none());
    assert_eq!(tree.request_close_tab(5), CloseOutcome::NotAPane);
    let mut tree = sample_tree();
    assert_eq!(tree.close_tabs(&vec![2, 3, 6], None), Some(3));
    assert!(tree.tiles[2].is_none());
    assert!(tree.tiles[3].is_some());
    assert!(tree.tiles[6].is_some());
    let mut tree = sample_tree();
    assert_eq!(tree.close_tabs(&vec![2, 3, 6], Some(3)), None);
    assert!(tree.tiles[2].is_none() && tree.tiles[3].is_some() && tree.tiles[6].is_none());
}

#[test]
fn documents_are_classified_by_extension() {
    for ext in ["psf", "F16", "f14", "f8", "FON"] {
        assert_eq!(document_kind(ext), DocumentKind::BitFont);
    }
    assert_eq!(document_kind("tdf"), DocumentKind::CharFont);
    assert_eq!(document_kind("TDF"), DocumentKind::CharFont);
    assert_eq!(document_kind("ans"), DocumentKind::Ansi);
    assert_eq!(document_kind(""), DocumentKind::Ansi);
    assert_eq!(document_kind("f160"), DocumentKind::Ansi);
}

#[test]
fn outline_keys() {
    let command = mods(false, true, false, true);
    let alt = mods(true, false, false, false);
    let shifted = mods(false, true, true, true);
    let none = mods(false, false, false, false);
    assert!(check_base_f_key_modifier(command));
    assert!(check_base_f_key_modifier(alt));
    assert!(!check_base_f_key_modifier(shifted));
    assert!(!check_base_f_key_modifier(none));
    assert!(command.command_only());
    assert_eq!(read_outline_keys(&keys(&[0]), command), Some(0));
    assert_eq!(read_outline_keys(&keys(&[11]), alt), Some(11));
    assert_eq!(read_outline_keys(&keys(&[2, 7]), alt), Some(7));
    assert_eq!(read_outline_keys(&keys(&[2, 7]), none), None);
    assert_eq!(read_outline_keys(&keys(&[]), command), None);
    assert_eq!(read_outline_keys(&keys(&[0]), shifted), Some(12));
    assert_eq!(read_outline_keys(&keys(&[0, 2]), shifted), Some(14));
    assert_eq!(read_outline_keys(&keys(&[5]), shifted), None);
    assert_eq!(read_outline_keys(&keys(&[1]), mods(true, false, true, false)), Some(13));
    assert_eq!(read_outline_keys(&[true], command), Some(0));
    assert_eq!(read_outline_keys(&[], command), None);
}

#[test]
fn document_numbers_count_up() {
    let mut id = 0usize;
    assert_eq!(create_id(&mut id), 1);
    assert_eq!(create_id(&mut id), 2);
    let mut last = usize::MAX;
    assert_eq!(create_id(&mut last), usize::MAX);
}

#[test]
fn paste_mode_is_entered_for_a_pasted_top_layer() {
    let mut canvas = Canvas::new(Size::new(2, 2));
    canvas.insert_layer(0, Layer::new("base", Size::new(2, 2))).unwrap();
    let mut pasted = Layer::new("pasted", Size::new(1, 1));
    pasted.set_role(Role::Overlay);
    canvas.insert_layer(1, pasted).unwrap();
    let mut state = EditState::new(canvas);
    assert_eq!(enter_paste_mode(&mut state, PASTE_TOOL), None);
    assert_eq!(state.get_current_layer(), 0);
    assert_eq!(enter_paste_mode(&mut state, BRUSH_TOOL), Some(BRUSH_TOOL));
    assert_eq!(state.get_current_layer(), 1);
    let mut plain = EditState::new(Canvas::new(Size::new(2, 2)));
    assert_eq!(enter_paste_mode(&mut plain, FIRST_TOOL), None);
    plain.insert_layer(0, Layer::new("base", Size::new(2, 2))).unwrap();
    assert_eq!(enter_paste_mode(&mut plain, FIRST_TOOL), None);
}

#[test]
fn sixel_textures_follow_the_images() {
    assert_eq!(update_sixels(0, true), SixelCacheAction::Clear);
    assert_eq!(update_sixels(0, false), SixelCacheAction::Clear);
    assert_eq!(update_sixels(2, false), SixelCacheAction::Keep);
    assert_eq!(update_sixels(2, true), SixelCacheAction::Rebuild);
}

fn frame() -> PaletteFrame {
    PaletteFrame {
        clear_filter: false,
        toggle_library: false,
        toggle_builtin: false,
        clicked: None,
        double_clicked: None,
        select: false,
        cancel: false,
    }
}

fn block_font_with_a() -> GlyphFont {
    let mut font = GlyphFont { name: "f".to_string(), font_type: FontType::Block, glyphs: vec![] };
    font.set_glyph('A', FontGlyph { size: Size::new(2, 1), data: vec![65, 66, 13, 67] });
    font
}

#[test]
fn chooser_frame_closes_on_select_cancel_and_double_click() {
    let current = named("mine", vec![Color::new(5, 5, 5)]);
    let mut dialog = SelectPaletteDialog::new(&builtin(), &current, &vec![], "x");
    assert!(!dialog.show(frame()));
    assert!(!dialog.show(PaletteFrame { clicked: Some(2), ..frame() }));
    assert_eq!(dialog.selected_palette, 2);
    assert!(!dialog.do_select);
    assert!(dialog.show(PaletteFrame { cancel: true, ..frame() }));
    assert!(!dialog.do_select);
    assert!(!dialog.should_commit());
    assert!(dialog.show(PaletteFrame { double_clicked: Some(1), ..frame() }));
    assert_eq!(dialog.selected_palette, 1);
    assert!(dialog.do_select);
    let mut dialog = SelectPaletteDialog::new(&builtin(), &current, &vec![], "x");
    assert!(dialog.show(PaletteFrame { select: true, ..frame() }));
    assert!(dialog.do_select);
    assert_eq!(dialog.selected_palette, 0);
    let mut dialog = SelectPaletteDialog::new(&builtin(), &current, &vec![], "x");
    dialog.select();
    assert!(dialog.should_commit());
}

#[test]
fn chooser_frame_ignores_rows_that_are_not_listed() {
    let current = named("mine", vec![Color::new(5, 5, 5)]);
    let mut dialog = SelectPaletteDialog::new(&builtin(), &current, &vec![], "x");
    dialog.filter = "c64".to_string();
    assert!(dialog.is_listed(2));
    assert!(!dialog.is_listed(1));
    assert!(!dialog.is_listed(9));
    assert!(!dialog.show(PaletteFrame { clicked: Some(1), double_clicked: Some(1), ..frame() }));
    assert_eq!(dialog.selected_palette, 0);
    assert!(!dialog.do_select);
    // the switch acts before the rows are judged
    assert!(!dialog.show(PaletteFrame { toggle_builtin: true, double_clicked: Some(2), ..frame() }));
    assert!(!dialog.show_builtin);
    assert_eq!(dialog.selected_palette, 0);
    assert!(dialog.show(PaletteFrame {
        toggle_builtin: true,
        clear_filter: true,
        double_clicked: Some(1),
        ..frame()
    }));
    assert_eq!(dialog.filter, "");
    assert_eq!(dialog.selected_palette, 1);
    assert!(!dialog.show(PaletteFrame { toggle_library: true, ..frame() }));
    assert!(!dialog.show_library);
}

#[test]
fn glyph_bytes_are_drawn_row_by_row() {
    let caret = Attribute::plain().with_foreground(12);
    let mut layer = Layer::new("l", Size::new(3, 2));
    render_glyph(&mut layer, &vec![65, 66, 13, 67, 68, 69, 70, 13, 71], false, caret);
    assert_eq!(layer.get(Position::new(0, 0)), Cell::new('A', caret));
    assert_eq!(layer.get(Position::new(1, 0)), Cell::new('B', caret));
    assert_eq!(layer.get(Position::new(2, 0)), Cell::transparent());
    assert_eq!(layer.get(Position::new(0, 1)), Cell::new('C', caret));
    assert_eq!(layer.get(Position::new(2, 1)), Cell::new('E', caret));
    let mut colored = Layer::new("l", Size::new(3, 2));
    render_glyph(&mut colored, &vec![65, 0x3E, 13, 0xDB, 0x07, 66], true, caret);
    assert_eq!(
        colored.get(Position::new(0, 0)),
        Cell::new('A', attribute_of(0x3E))
    );
    assert_eq!(attribute_of(0x3E).foreground, 14);
    assert_eq!(attribute_of(0x3E).background, 3);
    assert_eq!(colored.get(Position::new(0, 1)).ch, '\u{00DB}');
    assert_eq!(colored.get(Position::new(0, 1)).attribute, attribute_of(0x07));
    // a character without its colour byte takes the given attribute
    assert_eq!(colored.get(Position::new(1, 1)), Cell::new('B', caret));
}

#[test]
fn selecting_a_character_draws_its_glyph() {
    let mut editor = CharFontEditor::new(None, vec![block_font_with_a()]);
    editor.select_char('A');
    let state = editor.get_ansi_editor();
    assert_eq!(state.get_current_layer(), 1);
    assert_eq!(state.get_char(Position::new(0, 0)).ch, 'A');
    assert_eq!(state.get_char(Position::new(1, 0)).ch, 'B');
    assert_eq!(state.get_char(Position::new(0, 1)).ch, 'C');
    assert_eq!(state.get_char(Position::new(1, 1)), Cell::transparent());
    assert_eq!(state.undo_stack_len(), 0);
    assert!(!state.can_undo());
    editor.select_char('B');
    assert_eq!(editor.get_ansi_editor().get_char(Position::new(0, 0)), Cell::transparent());
}

#[test]
fn selecting_two_characters_in_turn_keeps_the_first_glyph() {
    let mut editor = CharFontEditor::new(None, vec![block_font_with_a()]);
    editor.select_char('A');
    editor.select_char('B');
    editor.select_char('A');
    let state = editor.get_ansi_editor();
    assert_eq!(state.get_char(Position::new(0, 0)).ch, 'A');
    assert_eq!(state.get_char(Position::new(1, 0)).ch, 'B');
    assert_eq!(state.get_char(Position::new(0, 1)).ch, 'C');
}

#[test]
fn what_is_drawn_on_the_glyph_canvas_is_saved() {
    let mut editor = CharFontEditor::new(None, vec![block_font_with_a()]);
    editor.select_char('B');
    let attr = Attribute::plain();
    editor.get_ansi_editor_mut().set_char(Position::new(0, 0), Cell::new('x', attr)).unwrap();
    editor.get_ansi_editor_mut().set_char(Position::new(1, 1), Cell::new('y', attr)).unwrap();
    assert_eq!(editor.undo_stack_len(), 2);
    assert_eq!(editor.undo(), Ok(()));
    assert_eq!(editor.redo(), Ok(()));
    editor.select_char('A');
    assert_eq!(editor.undo(), Err(icy_draw::error::EditError::NothingToUndo));
    editor.select_char('B');
    let state = editor.get_ansi_editor();
    assert_eq!(state.get_char(Position::new(0, 0)).ch, 'x');
    assert_eq!(state.get_char(Position::new(1, 1)).ch, 'y');
    assert_eq!(state.get_char(Position::new(0, 1)).ch, ' ');
}

#[test]
fn layers_are_shown_as_the_font_asks() {
    let color = GlyphFont { name: "c".to_string(), font_type: FontType::Color, glyphs: vec![] };
    let mut editor = CharFontEditor::new(None, vec![block_font_with_a(), color]);
    let caret = Attribute::plain().with_foreground(9);
    editor.get_ansi_editor_mut().set_caret_attribute(caret);
    editor.apply_forced_attribute();
    for layer in &editor.get_ansi_editor().get_buffer().layers {
        assert_eq!(layer.forced_output_attribute(), Some(caret));
    }
    editor.select_font(1);
    editor.apply_forced_attribute();
    for layer in &editor.get_ansi_editor().get_buffer().layers {
        assert_eq!(layer.forced_output_attribute(), None);
    }
    editor.select_font(7);
    editor.apply_forced_attribute();
    assert_eq!(editor.get_ansi_editor().get_buffer().layer_count(), 2);
}

#[test]
fn forced_attribute_reaches_the_layers_in_the_journal() {
    let mut canvas = Canvas::new(Size::new(2, 2));
    canvas.insert_layer(0, Layer::new("a", Size::new(2, 2))).unwrap();
    let mut state = EditState::new(canvas);
    state.insert_layer(1, Layer::new("b", Size::new(2, 2))).unwrap();
    state.remove_layer(0).unwrap();
    let before = state.undo_stack_len();
    let shown = Some(Attribute::plain().with_background(2));
    state.set_forced_output_attribute(shown);
    assert_eq!(state.undo_stack_len(), before);
    state.undo().unwrap();
    state.undo().unwrap();
    state.redo().unwrap();
    for layer in &state.get_buffer().layers {
        assert_eq!(layer.forced_output_attribute(), shown);
    }
    assert_eq!(state.get_buffer().layer_count(), 2);
}
