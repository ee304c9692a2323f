//! What a script may do to a document. Scripts are not trusted: every
//! layer index and character code is checked before it is used.

use crate::cell::{Attribute, Cell};
use crate::edit_state::{Caret, EditState, EditStateView};
use crate::error::EditError;
use crate::geometry::{Position, Size};
use crate::journal::OpView;
use crate::palette::{Color, PaletteView};
use crate::strings::{char_from_u32, is_char_code};
use vstd::prelude::*;
use vstd::string::StrSliceExecFns;

verus! {

/// Why a script call was refused.
#[derive(Clone, Copy, Debug, PartialEq, Eq, Structural, Hash)]
pub enum ScriptError {
    /// The call names a layer that the document does not have.
    LayerOutOfRange { layer: usize, count: usize },
    /// The current-layer pointer names no layer.
    CurrentLayerOutOfRange { layer: usize, count: usize },
    /// The number is no character code.
    InvalidChar { code: u32 },
    /// The edit state refused the change.
    Edit(EditError),
}

/// What `check_current` answers.
pub open spec fn current_checked(s: EditStateView) -> Result<(), ScriptError> {
    if s.doc.current_layer < s.doc.canvas.layers.len() {
        Ok(())
    } else {
        Err(
            ScriptError::CurrentLayerOutOfRange {
                layer: s.doc.current_layer,
                count: s.doc.canvas.layers.len() as usize,
            },
        )
    }
}

/// What `check_layer` answers.
pub open spec fn layer_checked(s: EditStateView, layer: usize) -> Result<(), ScriptError> {
    if layer < s.doc.canvas.layers.len() {
        Ok(())
    } else {
        Err(ScriptError::LayerOutOfRange { layer, count: s.doc.canvas.layers.len() as usize })
    }
}

/// The state after a write of `cell` at `(x, y)` of the current layer that
/// is clipped as a layer clips it: recorded where the position lies inside
/// and the layer is not locked, and without effect where not.
pub open spec fn clipped_write(s: EditStateView, pos: Position, cell: Cell) -> EditStateView {
    if s.set_char_result(pos) is Ok {
        s.recorded(s.set_char_op(pos, cell), "set char"@)
    } else {
        s
    }
}

/// `cell` with another foreground colour.
pub open spec fn with_fg(cell: Cell, color: u32) -> Cell {
    Cell { attribute: Attribute { foreground: color, ..cell.attribute }, ..cell }
}

/// `cell` with another background colour.
pub open spec fn with_bg(cell: Cell, color: u32) -> Cell {
    Cell { attribute: Attribute { background: color, ..cell.attribute }, ..cell }
}

/// The column after `x`; the last column stays.
pub open spec fn next_column(x: i32) -> i32 {
    if x < i32::MAX {
        (x + 1) as i32
    } else {
        x
    }
}

/// The state after one character is typed at the caret: the cell is
/// written where the edit state accepts it, and the caret moves one column
/// on in either case.
pub open spec fn typed(s: EditStateView, c: char) -> EditStateView {
    let written = clipped_write(s, s.caret.position, Cell { ch: c, attribute: s.caret.attribute });
    written.with_caret(
        Caret {
            position: Position { x: next_column(s.caret.position.x), y: s.caret.position.y },
            ..written.caret
        },
    )
}

/// The state after the characters of `text` are typed one after the
/// other.
pub open spec fn printed(s: EditStateView, text: Seq<char>) -> EditStateView
    decreases text.len(),
{
    if text.len() == 0 {
        s
    } else {
        typed(printed(s, text.drop_last()), text.last())
    }
}

/// Whether the current-layer pointer names a layer.
pub fn check_current(state: &EditState) -> (r: Result<(), ScriptError>)
    requires
        state.wf(),
    ensures
        r == current_checked(state@),
{
    let layer: usize = state.get_current_layer();
    let count: usize = state.get_buffer().layer_count();
    if layer < count {
        Ok(())
    } else {
        Err(ScriptError::CurrentLayerOutOfRange { layer, count })
    }
}

/// Whether `layer` names a layer.
pub fn check_layer(state: &EditState, layer: usize) -> (r: Result<(), ScriptError>)
    requires
        state.wf(),
    ensures
        r == layer_checked(state@, layer),
{
    let count: usize = state.get_buffer().layer_count();
    if layer < count {
        Ok(())
    } else {
        Err(ScriptError::LayerOutOfRange { layer, count })
    }
}

pub fn get_height(state: &EditState) -> (h: i32)
    requires
        state.wf(),
    ensures
        h == state@.doc.canvas.size.height,
{
    state.get_buffer().size.height
}

pub fn get_width(state: &EditState) -> (w: i32)
    requires
        state.wf(),
    ensures
        w == state@.doc.canvas.size.width,
{
    state.get_buffer().size.width
}

/// Gives the canvas another height.
pub fn set_height(state: &mut EditState, height: i32)
    requires
        old(state).wf(),
    ensures
        final(state).wf(),
        final(state)@ == old(state)@.recorded(
            OpView::Resize {
                from: old(state)@.doc.canvas.size,
                to: Size { height, ..old(state)@.doc.canvas.size },
            },
            "resize"@,
        ),
{
    let size = state.get_buffer().size;
    state.set_size(Size { height, ..size });
}

/// Gives the canvas another width.
pub fn set_width(state: &mut EditState, width: i32)
    requires
        old(state).wf(),
    ensures
        final(state).wf(),
        final(state)@ == old(state)@.recorded(
            OpView::Resize {
                from: old(state)@.doc.canvas.size,
                to: Size { width, ..old(state)@.doc.canvas.size },
            },
            "resize"@,
        ),
{
    let size = state.get_buffer().size;
    state.set_size(Size { width, ..size });
}

pub fn get_font_page(state: &EditState) -> (page: usize)
    ensures
        page == state@.caret.font_page,
{
    state.get_caret().font_page
}

pub fn set_font_page(state: &mut EditState, page: usize)
    requires
        old(state).wf(),
    ensures
        final(state).wf(),
        final(state)@ == old(state)@.with_caret(Caret { font_page: page, ..old(state)@.caret }),
{
    state.set_caret_font_page(page);
}

/// The index of the current layer.
pub fn get_layer(state: &EditState) -> (layer: usize)
    ensures
        layer == state@.doc.current_layer,
{
    state.get_current_layer()
}

/// Makes `layer` the current layer. Fails with `LayerOutOfRange`, and
/// changes nothing, where it names no layer.
pub fn set_layer(state: &mut EditState, layer: usize) -> (r: Result<(), ScriptError>)
    requires
        old(state).wf(),
    ensures
        final(state).wf(),
        r == layer_checked(old(state)@, layer),
        r is Err ==> final(state)@ == old(state)@,
        r is Ok ==> final(state)@ == old(state)@.recorded(
            OpView::SetCurrentLayer { from: old(state)@.doc.current_layer, to: layer },
            "select layer"@,
        ),
{
    let count: usize = state.get_buffer().layer_count();
    if layer >= count {
        return Err(ScriptError::LayerOutOfRange { layer, count });
    }
    let res = state.set_current_layer(layer);
    assert(res is Ok);
    Ok(())
}

pub fn layer_count(state: &EditState) -> (count: usize)
    requires
        state.wf(),
    ensures
        count == state@.doc.canvas.layers.len(),
{
    state.get_buffer().layer_count()
}

/// The foreground colour of the caret.
pub fn get_fg_color(state: &EditState) -> (color: u32)
    ensures
        color == state@.caret.attribute.foreground,
{
    state.get_caret().attribute.foreground
}

/// Gives the caret another foreground colour.
pub fn set_fg_color(state: &mut EditState, color: u32)
    requires
        old(state).wf(),
    ensures
        final(state).wf(),
        final(state)@ == old(state)@.with_caret(
            Caret {
                attribute: Attribute { foreground: color, ..old(state)@.caret.attribute },
                ..old(state)@.caret
            },
        ),
{
    let attribute = state.get_caret().attribute;
    state.set_caret_attribute(attribute.with_foreground(color));
}

/// The background colour of the caret.
pub fn get_bg_color(state: &EditState) -> (color: u32)
    ensures
        color == state@.caret.attribute.background,
{
    state.get_caret().attribute.background
}

/// Gives the caret another background colour.
pub fn set_bg_color(state: &mut EditState, color: u32)
    requires
        old(state).wf(),
    ensures
        final(state).wf(),
        final(state)@ == old(state)@.with_caret(
            Caret {
                attribute: Attribute { background: color, ..old(state)@.caret.attribute },
                ..old(state)@.caret
            },
        ),
{
    let attribute = state.get_caret().attribute;
    state.set_caret_attribute(attribute.with_background(color));
}

pub fn get_x(state: &EditState) -> (x: i32)
    ensures
        x == state@.caret.position.x,
{
    state.get_caret().position.x
}

pub fn get_y(state: &EditState) -> (y: i32)
    ensures
        y == state@.caret.position.y,
{
    state.get_caret().position.y
}

/// Moves the caret to column `x` of its row.
pub fn set_x(state: &mut EditState, x: i32)
    requires
        old(state).wf(),
    ensures
        final(state).wf(),
        final(state)@ == old(state)@.with_caret(
            Caret { position: Position { x, ..old(state)@.caret.position }, ..old(state)@.caret },
        ),
{
    let position = state.get_caret().position;
    state.set_caret_position(Position { x, ..position });
}

/// Moves the caret to row `y` of its column.
pub fn set_y(state: &mut EditState, y: i32)
    requires
        old(state).wf(),
    ensures
        final(state).wf(),
        final(state)@ == old(state)@.with_caret(
            Caret { position: Position { y, ..old(state)@.caret.position }, ..old(state)@.caret },
        ),
{
    let position = state.get_caret().position;
    state.set_caret_position(Position { y, ..position });
}

/// Moves the caret to `(x, y)`.
pub fn gotoxy(state: &mut EditState, x: i32, y: i32)
    requires
        old(state).wf(),
    ensures
        final(state).wf(),
        final(state)@ == old(state)@.with_caret(
            Caret { position: Position { x, y }, ..old(state)@.caret },
        ),
{
    state.set_caret_position(Position { x, y });
}

/// The state after the palette has taken the colour; see
/// `EditState::insert_palette_color`.
pub open spec fn with_color(s: EditStateView, color: Color) -> EditStateView {
    let palette = s.doc.canvas.palette;
    let i = palette.first_index_of(color);
    if i <= u32::MAX && i >= palette.colors.len() {
        s.recorded(
            OpView::SwitchPalette {
                old: palette,
                new: PaletteView { colors: palette.colors.push(color), ..palette },
            },
            "switch palette"@,
        )
    } else {
        s
    }
}

/// Makes the colour `(r, g, b)` the caret's foreground, and returns its
/// index in the palette, to which it is appended where it is new. Fails
/// with `IndexOutOfRange`, and changes nothing, where the colour is new and
/// its index would not fit `u32`.
pub fn fg_rgb(state: &mut EditState, r: u8, g: u8, b: u8) -> (res: Result<u32, ScriptError>)
    requires
        old(state).wf(),
    ensures
        final(state).wf(),
        ({
            let color = Color { r, g, b };
            let i = old(state)@.doc.canvas.palette.first_index_of(color);
            let s = with_color(old(state)@, color);
            if i > u32::MAX {
                &&& res == Err::<u32, ScriptError>(ScriptError::Edit(EditError::IndexOutOfRange))
                &&& final(state)@ == old(state)@
            } else {
                &&& res == Ok::<u32, ScriptError>(i as u32)
                &&& final(state)@ == s.with_caret(
                    Caret {
                        attribute: Attribute { foreground: i as u32, ..s.caret.attribute },
                        ..s.caret
                    },
                )
            }
        }),
{
    match state.insert_palette_color(r, g, b) {
        Ok(color) => {
            set_fg_color(state, color);
            Ok(color)
        },
        Err(e) => Err(ScriptError::Edit(e)),
    }
}

/// Makes the colour `(r, g, b)` the caret's background, and returns its
/// index in the palette, to which it is appended where it is new. Fails
/// with `IndexOutOfRange`, and changes nothing, where the colour is new and
/// its index would not fit `u32`.
pub fn bg_rgb(state: &mut EditState, r: u8, g: u8, b: u8) -> (res: Result<u32, ScriptError>)
    requires
        old(state).wf(),
    ensures
        final(state).wf(),
        ({
            let color = Color { r, g, b };
            let i = old(state)@.doc.canvas.palette.first_index_of(color);
            let s = with_color(old(state)@, color);
            if i > u32::MAX {
                &&& res == Err::<u32, ScriptError>(ScriptError::Edit(EditError::IndexOutOfRange))
                &&& final(state)@ == old(state)@
            } else {
                &&& res == Ok::<u32, ScriptError>(i as u32)
                &&& final(state)@ == s.with_caret(
                    Caret {
                        attribute: Attribute { background: i as u32, ..s.caret.attribute },
                        ..s.caret
                    },
                )
            }
        }),
{
    match state.insert_palette_color(r, g, b) {
        Ok(color) => {
            set_bg_color(state, color);
            Ok(color)
        },
        Err(e) => Err(ScriptError::Edit(e)),
    }
}

/// What `set_char` answers.
pub open spec fn set_char_checked(s: EditStateView, pos: Position, code: u32) -> Result<
    (),
    ScriptError,
> {
    if current_checked(s) is Err {
        current_checked(s)
    } else if !is_char_code(code) {
        Err(ScriptError::InvalidChar { code })
    } else {
        match s.set_char_result(pos) {
            Ok(()) => Ok(()),
            Err(e) => Err(ScriptError::Edit(e)),
        }
    }
}

/// Writes the character with code `code`, in the caret's attribute, at
/// `(x, y)` of the current layer. Fails with `CurrentLayerOutOfRange`
/// where the current-layer pointer names no layer, with `InvalidChar`
/// where `code` is no character code, and with the edit state's error where
/// it refuses the write; nothing changes then.
pub fn set_char(state: &mut EditState, x: i32, y: i32, code: u32) -> (r: Result<(), ScriptError>)
    requires
        old(state).wf(),
    ensures
        final(state).wf(),
        r == set_char_checked(old(state)@, Position { x, y }, code),
        r is Err ==> final(state)@ == old(state)@,
        r is Ok ==> final(state)@ == old(state)@.recorded(
            old(state)@.set_char_op(
                Position { x, y },
                Cell { ch: code as char, attribute: old(state)@.caret.attribute },
            ),
            "set char"@,
        ),
{
    match check_current(state) {
        Err(e) => {
            return Err(e);
        },
        Ok(()) => {},
    }
    let ch: char = match char_from_u32(code) {
        Some(ch) => ch,
        None => {
            return Err(ScriptError::InvalidChar { code });
        },
    };
    let attribute = state.get_caret().attribute;
    match state.set_char(Position { x, y }, Cell { ch, attribute }) {
        Ok(()) => Ok(()),
        Err(e) => Err(ScriptError::Edit(e)),
    }
}

/// The cell at `(x, y)` of the current layer. Fails with
/// `CurrentLayerOutOfRange` where the current-layer pointer names no
/// layer.
pub fn get_cell(state: &EditState, x: i32, y: i32) -> (r: Result<Cell, ScriptError>)
    requires
        state.wf(),
    ensures
        match current_checked(state@) {
            Ok(()) => r == Ok::<Cell, ScriptError>(
                state@.current().unwrap().cell_at(x as int, y as int),
            ),
            Err(e) => r == Err::<Cell, ScriptError>(e),
        },
{
    match check_current(state) {
        Err(e) => Err(e),
        Ok(()) => Ok(state.get_char(Position { x, y })),
    }
}

/// The code of the character at `(x, y)` of the current layer. Fails with
/// `CurrentLayerOutOfRange` where the current-layer pointer names no
/// layer.
pub fn get_char(state: &EditState, x: i32, y: i32) -> (r: Result<u32, ScriptError>)
    requires
        state.wf(),
    ensures
        match current_checked(state@) {
            Ok(()) => r == Ok::<u32, ScriptError>(
                state@.current().unwrap().cell_at(x as int, y as int).ch as u32,
            ),
            Err(e) => r == Err::<u32, ScriptError>(e),
        },
{
    match get_cell(state, x, y) {
        Ok(cell) => Ok(cell.ch as u32),
        Err(e) => Err(e),
    }
}

/// The foreground colour at `(x, y)` of the current layer. Fails with
/// `CurrentLayerOutOfRange` where the current-layer pointer names no
/// layer.
pub fn get_fg(state: &EditState, x: i32, y: i32) -> (r: Result<u32, ScriptError>)
    requires
        state.wf(),
    ensures
        match current_checked(state@) {
            Ok(()) => r == Ok::<u32, ScriptError>(
                state@.current().unwrap().cell_at(x as int, y as int).attribute.foreground,
            ),
            Err(e) => r == Err::<u32, ScriptError>(e),
        },
{
    match get_cell(state, x, y) {
        Ok(cell) => Ok(cell.attribute.foreground),
        Err(e) => Err(e),
    }
}

/// The background colour at `(x, y)` of the current layer. Fails with
/// `CurrentLayerOutOfRange` where the current-layer pointer names no
/// layer.
pub fn get_bg(state: &EditState, x: i32, y: i32) -> (r: Result<u32, ScriptError>)
    requires
        state.wf(),
    ensures
        match current_checked(state@) {
            Ok(()) => r == Ok::<u32, ScriptError>(
                state@.current().unwrap().cell_at(x as int, y as int).attribute.background,
            ),
            Err(e) => r == Err::<u32, ScriptError>(e),
        },
{
    match get_cell(state, x, y) {
        Ok(cell) => Ok(cell.attribute.background),
        Err(e) => Err(e),
    }
}

/// Writes `cell` at `pos` of the current layer as a layer takes it: a
/// position outside the layer and a locked layer make it a no-op.
fn write_clipped(state: &mut EditState, pos: Position, cell: Cell)
    requires
        old(state).wf(),
    ensures
        final(state).wf(),
        final(state)@ == clipped_write(old(state)@, pos, cell),
{
    let _ = state.set_char(pos, cell);
}

/// Gives the cell at `(x, y)` of the current layer the foreground colour
/// `color`. Outside the layer and on a locked layer nothing happens. Fails
/// with `CurrentLayerOutOfRange` where the current-layer pointer names no
/// layer.
pub fn set_fg(state: &mut EditState, x: i32, y: i32, color: u32) -> (r: Result<(), ScriptError>)
    requires
        old(state).wf(),
    ensures
        final(state).wf(),
        r == current_checked(old(state)@),
        r is Err ==> final(state)@ == old(state)@,
        r is Ok ==> final(state)@ == clipped_write(
            old(state)@,
            Position { x, y },
            with_fg(old(state)@.current().unwrap().cell_at(x as int, y as int), color),
        ),
{
    match get_cell(state, x, y) {
        Err(e) => Err(e),
        Ok(cell) => {
            write_clipped(
                state,
                Position { x, y },
                Cell { attribute: cell.attribute.with_foreground(color), ..cell },
            );
            Ok(())
        },
    }
}

/// Gives the cell at `(x, y)` of the current layer the background colour
/// `color`. Outside the layer and on a locked layer nothing happens. Fails
/// with `CurrentLayerOutOfRange` where the current-layer pointer names no
/// layer.
pub fn set_bg(state: &mut EditState, x: i32, y: i32, color: u32) -> (r: Result<(), ScriptError>)
    requires
        old(state).wf(),
    ensures
        final(state).wf(),
        r == current_checked(old(state)@),
        r is Err ==> final(state)@ == old(state)@,
        r is Ok ==> final(state)@ == clipped_write(
            old(state)@,
            Position { x, y },
            with_bg(old(state)@.current().unwrap().cell_at(x as int, y as int), color),
        ),
{
    match get_cell(state, x, y) {
        Err(e) => Err(e),
        Ok(cell) => {
            write_clipped(
                state,
                Position { x, y },
                Cell { attribute: cell.attribute.with_background(color), ..cell },
            );
            Ok(())
        },
    }
}

/// Types `text` at the caret: each character is written in the caret's
/// attribute where the edit state accepts it, and the caret moves one
/// column on after each.
pub fn print(state: &mut EditState, text: &str)
    requires
        old(state).wf(),
    ensures
        final(state).wf(),
        final(state)@ == printed(old(state)@, text@),
{
    let n: usize = text.unicode_len();
    let mut i: usize = 0;
    while i < n
        invariant
            state.wf(),
            n == text@.len(),
            i <= n,
            state@ == printed(old(state)@, text@.take(i as int)),
        decreases n - i,
    {
        let c: char = text.get_char(i);
        let caret = state.get_caret();
        proof {
            assert(text@.take(i + 1).drop_last() =~= text@.take(i as int));
            assert(text@.take(i + 1).last() == c);
        }
        write_clipped(state, caret.position, Cell { ch: c, attribute: caret.attribute });
        let x: i32 = if caret.position.x < i32::MAX {
            caret.position.x + 1
        } else {
            caret.position.x
        };
        state.set_caret_position(Position { x, y: caret.position.y });
        i += 1;
    }
    proof {
        assert(text@.take(n as int) =~= text@);
    }
}

/// Places the current layer at `(x, y)`, once `layer` is known to name a
/// layer. Fails with `LayerOutOfRange` where it names none, and with the
/// edit state's error where it refuses the move; nothing changes then.
pub fn set_layer_position(state: &mut EditState, layer: usize, x: i32, y: i32) -> (r: Result<
    (),
    ScriptError,
>)
    requires
        old(state).wf(),
    ensures
        final(state).wf(),
        r == match layer_checked(old(state)@, layer) {
            Err(e) => Err(e),
            Ok(()) => match old(state)@.move_layer_result() {
                Ok(()) => Ok(()),
                Err(e) => Err(ScriptError::Edit(e)),
            },
        },
        r is Err ==> final(state)@ == old(state)@,
        r is Ok ==> final(state)@ == old(state)@.recorded(
            old(state)@.move_layer_op(Position { x, y }),
            "move layer"@,
        ),
{
    let count: usize = state.get_buffer().layer_count();
    if layer >= count {
        return Err(ScriptError::LayerOutOfRange { layer, count });
    }
    match state.move_layer(Position { x, y }) {
        Ok(()) => Ok(()),
        Err(e) => Err(ScriptError::Edit(e)),
    }
}

/// Where the layer `layer` lies. Fails with `LayerOutOfRange` where it
/// names no layer.
pub fn get_layer_position(state: &EditState, layer: usize) -> (r: Result<(i32, i32), ScriptError>)
    requires
        state.wf(),
    ensures
        match layer_checked(state@, layer) {
            Ok(()) => r == Ok::<(i32, i32), ScriptError>(
                (
                    state@.doc.canvas.layers[layer as int].offset.x,
                    state@.doc.canvas.layers[layer as int].offset.y,
                ),
            ),
            Err(e) => r == Err::<(i32, i32), ScriptError>(e),
        },
{
    let canvas = state.get_buffer();
    let count: usize = canvas.layer_count();
    if layer >= count {
        return Err(ScriptError::LayerOutOfRange { layer, count });
    }
    let offset = canvas.layers[layer].get_offset();
    assert(canvas@.layers[layer as int] == canvas.layers@[layer as int]@);
    Ok((offset.x, offset.y))
}

/// Shows or hides the layer `layer`. Fails with `LayerOutOfRange`, and
/// changes nothing, where it names no layer.
pub fn set_layer_visible(state: &mut EditState, layer: usize, visible: bool) -> (r: Result<
    (),
    ScriptError,
>)
    requires
        old(state).wf(),
    ensures
        final(state).wf(),
        r == layer_checked(old(state)@, layer),
        r is Err ==> final(state)@ == old(state)@,
        r is Ok ==> final(state)@ == old(state)@.recorded(
            OpView::SetVisible {
                layer,
                from: old(state)@.doc.canvas.layers[layer as int].visible,
                to: visible,
            },
            "layer visibility"@,
        ),
{
    match check_layer(state, layer) {
        Err(e) => Err(e),
        Ok(()) => {
            let res = state.set_layer_visible(layer, visible);
            assert(res is Ok);
            Ok(())
        },
    }
}

/// Whether the layer `layer` is visible. Fails with `LayerOutOfRange`
/// where it names no layer.
pub fn get_layer_visible(state: &EditState, layer: usize) -> (r: Result<bool, ScriptError>)
    requires
        state.wf(),
    ensures
        match layer_checked(state@, layer) {
            Ok(()) => r == Ok::<bool, ScriptError>(state@.doc.canvas.layers[layer as int].visible),
            Err(e) => r == Err::<bool, ScriptError>(e),
        },
{
    let canvas = state.get_buffer();
    let count: usize = canvas.layer_count();
    if layer >= count {
        return Err(ScriptError::LayerOutOfRange { layer, count });
    }
    let visible = canvas.layers[layer].is_visible();
    assert(canvas@.layers[layer as int] == canvas.layers@[layer as int]@);
    Ok(visible)
}

/// Resets the terminal state: the caret goes home, with the plain
/// attribute and the first font page. The document stays.
pub fn clear(state: &mut EditState)
    requires
        old(state).wf(),
    ensures
        final(state).wf(),
        final(state)@ == old(state)@.with_caret(
            Caret {
                position: Position { x: 0, y: 0 },
                attribute: Attribute::spec_plain(),
                font_page: 0,
            },
        ),
{
    state.set_caret(
        Caret { position: Position { x: 0, y: 0 }, attribute: Attribute::plain(), font_page: 0 },
    );
}

} // verus!
