//! The editor for character fonts: the canvas on which one glyph is
//! drawn, and the glyph that is read back from it.

use crate::canvas::{Canvas, CanvasView};
use crate::edit_state::{Caret, EditState, EditStateView};
use crate::error::EditError;
use crate::cell::{Attribute, Cell};
use crate::geometry::{Position, Size};
use crate::layer::{Layer, LayerView};
use vstd::prelude::*;

verus! {

/// The width and the height of the canvas for one glyph.
pub const GLYPH_CANVAS_WIDTH: i32 = 30;

pub const GLYPH_CANVAS_HEIGHT: i32 = 12;

/// The byte that separates the rows of a glyph.
pub const ROW_SEPARATOR: u8 = 13;

/// How the glyphs of a font are stored.
#[derive(Clone, Copy, Debug, PartialEq, Eq, Structural, Hash)]
pub enum FontType {
    Outline,
    /// One byte per cell: the character.
    Block,
    /// Two bytes per cell: the character and its colours.
    Color,
}

/// How a glyph is drawn in the selector.
#[derive(Clone, Copy, Debug, PartialEq, Eq, Structural, Hash)]
pub enum DrawGlyphStyle {
    Normal,
    Selected,
    GrayOut,
}

/// One glyph of a font: its extent and its bytes.
#[derive(Debug)]
pub struct FontGlyph {
    pub size: Size,
    pub data: Vec<u8>,
}

/// How the glyph for `ch` is drawn in the selector: selected where it is
/// the selected one, greyed out where the font has no such glyph.
pub fn glyph_style(has_char: bool, selected: Option<char>, ch: char) -> (style: DrawGlyphStyle)
    ensures
        style == if selected == Some(ch) {
            DrawGlyphStyle::Selected
        } else if !has_char {
            DrawGlyphStyle::GrayOut
        } else {
            DrawGlyphStyle::Normal
        },
{
    let is_selected: bool = match selected {
        Some(s) => s == ch,
        None => false,
    };
    if is_selected {
        DrawGlyphStyle::Selected
    } else if !has_char {
        DrawGlyphStyle::GrayOut
    } else {
        DrawGlyphStyle::Normal
    }
}

/// The attribute that every layer is shown in: the caret's for fonts that
/// store no colours, none for fonts that do.
pub open spec fn spec_forced_attribute(font_type: FontType, caret: Attribute) -> Option<Attribute> {
    match font_type {
        FontType::Outline | FontType::Block => Some(caret),
        FontType::Color => None,
    }
}

/// The attribute that every layer is shown in: the caret's for fonts that
/// store no colours, none for fonts that do.
pub fn forced_attribute(font_type: FontType, caret: Attribute) -> (r: Option<Attribute>)
    ensures
        r == spec_forced_attribute(font_type, caret),
{
    match font_type {
        FontType::Outline | FontType::Block => Some(caret),
        FontType::Color => None,
    }
}

/// The name that a document shows: the name of its file, or "Untitled"
/// where it has none.
pub fn document_title(file_name: Option<&str>) -> (title: String)
    ensures
        title@ == match file_name {
            Some(name) => name@,
            None => "Untitled"@,
        },
{
    match file_name {
        Some(name) => name.to_string(),
        None => "Untitled".to_string(),
    }
}

/// The locked, opaque layer below the glyph.
pub open spec fn background_layer() -> LayerView {
    LayerView {
        has_alpha_channel: false,
        locked: true,
        position_locked: true,
        ..LayerView::fresh("background"@, GLYPH_CANVAS_WIDTH as int, GLYPH_CANVAS_HEIGHT as int)
    }
}

/// The layer on which the glyph is drawn.
pub open spec fn edit_layer() -> LayerView {
    LayerView {
        has_alpha_channel: true,
        position_locked: true,
        ..LayerView::fresh("edit layer"@, GLYPH_CANVAS_WIDTH as int, GLYPH_CANVAS_HEIGHT as int)
    }
}

/// Replaces the layers of the canvas by the two of the glyph editor: a
/// locked background and, above it, the layer on which the glyph is drawn.
pub fn set_up_layers(canvas: &mut Canvas)
    ensures
        final(canvas).wf(),
        final(canvas)@ == (CanvasView {
            layers: seq![background_layer(), edit_layer()],
            ..old(canvas)@
        }),
{
    let size = Size { width: GLYPH_CANVAS_WIDTH, height: GLYPH_CANVAS_HEIGHT };
    let mut background = Layer::new("background", size);
    background.set_has_alpha_channel(false);
    background.set_locked(true);
    background.set_position_locked(true);
    let mut edit = Layer::new("edit layer", size);
    edit.set_has_alpha_channel(true);
    edit.set_position_locked(true);
    let mut layers: Vec<Layer> = Vec::new();
    layers.push(background);
    layers.push(edit);
    canvas.layers = layers;
    proof {
        assert(canvas@.layers =~= seq![background_layer(), edit_layer()]);
    }
}

/// How many cells of row `y` are looked at, counted from the left, before
/// only blanks follow among the first `n`.
pub open spec fn trailing(c: CanvasView, y: int, n: int) -> int
    decreases n,
{
    if n <= 0 {
        0
    } else if c.composite_cell(n - 1, y) != Cell::spec_blank() {
        n
    } else {
        trailing(c, y, n - 1)
    }
}

/// The length of row `y`: up to the last cell that shows anything but a
/// blank.
pub open spec fn line_length(c: CanvasView, y: int) -> int {
    trailing(c, y, c.size.width as int)
}

/// How many of the first `n` rows there are up to the last that is not
/// empty.
pub open spec fn rows_used(c: CanvasView, n: int) -> int
    decreases n,
{
    if n <= 0 {
        0
    } else if line_length(c, n - 1) > 0 {
        n
    } else {
        rows_used(c, n - 1)
    }
}

/// The number of rows up to the last that is not empty.
pub open spec fn line_count(c: CanvasView) -> int {
    rows_used(c, c.size.height as int)
}

/// The low byte of the character's code.
pub open spec fn spec_low_byte(ch: char) -> u8 {
    ((ch as u32) % 256) as u8
}

/// The colours of an attribute in one byte: the foreground in the low
/// four bits, the background in the high four.
pub open spec fn spec_attribute_byte(a: Attribute) -> u8 {
    ((a.foreground % 16) + 16 * (a.background % 16)) as u8
}

/// The bytes that one cell gives.
pub open spec fn cell_bytes(cell: Cell, color: bool) -> Seq<u8> {
    if color {
        seq![spec_low_byte(cell.ch), spec_attribute_byte(cell.attribute)]
    } else {
        seq![spec_low_byte(cell.ch)]
    }
}

/// The bytes of the first `n` cells of row `y`.
pub open spec fn row_data(c: CanvasView, y: int, n: int, color: bool) -> Seq<u8>
    decreases n,
{
    if n <= 0 {
        Seq::empty()
    } else {
        row_data(c, y, n - 1, color) + cell_bytes(c.composite_cell(n - 1, y), color)
    }
}

/// What comes before row `y`: the row separator, but for the first row.
pub open spec fn row_lead(y: int) -> Seq<u8> {
    if y > 0 {
        seq![ROW_SEPARATOR]
    } else {
        Seq::empty()
    }
}

/// The bytes of the first `n` rows, each cut to its length, with a
/// separator between one row and the next.
pub open spec fn glyph_rows(c: CanvasView, n: int, color: bool) -> Seq<u8>
    decreases n,
{
    if n <= 0 {
        Seq::empty()
    } else {
        glyph_rows(c, n - 1, color) + row_lead(n - 1) + row_data(
            c,
            n - 1,
            line_length(c, n - 1),
            color,
        )
    }
}

/// The longest among the first `n` rows.
pub open spec fn widest(c: CanvasView, n: int) -> int
    decreases n,
{
    if n <= 0 {
        0
    } else if line_length(c, n - 1) > widest(c, n - 1) {
        line_length(c, n - 1)
    } else {
        widest(c, n - 1)
    }
}

pub proof fn lemma_trailing_bounds(c: CanvasView, y: int, n: int)
    ensures
        0 <= trailing(c, y, n),
        trailing(c, y, n) <= if n > 0 {
            n
        } else {
            0
        },
    decreases n,
{
    if n > 0 {
        lemma_trailing_bounds(c, y, n - 1);
    }
}

pub proof fn lemma_rows_used_bounds(c: CanvasView, n: int)
    ensures
        0 <= rows_used(c, n),
        rows_used(c, n) <= if n > 0 {
            n
        } else {
            0
        },
    decreases n,
{
    if n > 0 {
        lemma_rows_used_bounds(c, n - 1);
    }
}

pub proof fn lemma_widest_bounds(c: CanvasView, n: int)
    ensures
        0 <= widest(c, n),
        widest(c, n) <= if c.size.width > 0 {
            c.size.width as int
        } else {
            0
        },
    decreases n,
{
    if n > 0 {
        lemma_widest_bounds(c, n - 1);
        lemma_trailing_bounds(c, n - 1, c.size.width as int);
    }
}

/// The low byte of the character's code.
pub fn low_byte(ch: char) -> (b: u8)
    ensures
        b == spec_low_byte(ch),
{
    ((ch as u32) % 256) as u8
}

/// The colours of an attribute in one byte.
pub fn attribute_byte(a: Attribute) -> (b: u8)
    ensures
        b == spec_attribute_byte(a),
{
    ((a.foreground % 16) + 16 * (a.background % 16)) as u8
}

/// The length of row `y` of the canvas.
pub fn get_line_length(canvas: &Canvas, y: i32) -> (n: i32)
    requires
        canvas.wf(),
    ensures
        n == line_length(canvas@, y as int),
{
    let mut n: i32 = if canvas.size.width > 0 {
        canvas.size.width
    } else {
        0
    };
    while n > 0
        invariant
            canvas.wf(),
            0 <= n,
            line_length(canvas@, y as int) == trailing(canvas@, y as int, n as int),
        decreases n,
    {
        let cell = canvas.composite_cell(Position { x: n - 1, y });
        if cell != Cell::blank() {
            return n;
        }
        n -= 1;
    }
    0
}

/// The number of rows of the canvas up to the last that is not empty.
pub fn get_line_count(canvas: &Canvas) -> (n: i32)
    requires
        canvas.wf(),
    ensures
        n == line_count(canvas@),
{
    let mut n: i32 = if canvas.size.height > 0 {
        canvas.size.height
    } else {
        0
    };
    while n > 0
        invariant
            canvas.wf(),
            0 <= n,
            line_count(canvas@) == rows_used(canvas@, n as int),
        decreases n,
    {
        if get_line_length(canvas, n - 1) > 0 {
            return n;
        }
        n -= 1;
    }
    0
}

/// Whether `glyph` is what the canvas shows, with or without colours.
pub open spec fn encodes(glyph: FontGlyph, c: CanvasView, color: bool) -> bool {
    let n = line_count(c);
    &&& glyph.data@ == glyph_rows(c, n, color)
    &&& glyph.size.width == widest(c, n)
    &&& glyph.size.height == if n > 0 {
        n - 1
    } else {
        0
    }
}

/// The glyph that the canvas shows, for a font of type `font_type`: row
/// by row the cells up to the end of the row, one byte per cell, or two
/// for fonts that store colours, and a separator between rows. Its width
/// is that of the longest row; its height is the index of the last row.
/// `None` for outline fonts, whose glyphs are not read back.
pub fn encode_glyph(canvas: &Canvas, font_type: FontType) -> (r: Option<FontGlyph>)
    requires
        canvas.wf(),
    ensures
        font_type == FontType::Outline ==> r is None,
        font_type != FontType::Outline ==> r is Some && encodes(
            r->Some_0,
            canvas@,
            font_type == FontType::Color,
        ),
{
    let color: bool = match font_type {
        FontType::Outline => {
            return None;
        },
        FontType::Block => false,
        FontType::Color => true,
    };
    let rows: i32 = get_line_count(canvas);
    proof {
        lemma_rows_used_bounds(canvas@, canvas@.size.height as int);
    }
    let mut data: Vec<u8> = Vec::new();
    let mut w: i32 = 0;
    let mut y: i32 = 0;
    while y < rows
        invariant
            canvas.wf(),
            0 <= y <= rows,
            data@ == glyph_rows(canvas@, y as int, color),
            w == widest(canvas@, y as int),
        decreases rows - y,
    {
        if y > 0 {
            data.push(ROW_SEPARATOR);
        }
        let ghost lead = data@;
        assert(lead =~= glyph_rows(canvas@, y as int, color) + row_lead(y as int));
        let lw: i32 = get_line_length(canvas, y);
        proof {
            lemma_trailing_bounds(canvas@, y as int, canvas@.size.width as int);
        }
        let mut x: i32 = 0;
        while x < lw
            invariant
                canvas.wf(),
                0 <= x <= lw,
                data@ == lead + row_data(canvas@, y as int, x as int, color),
            decreases lw - x,
        {
            let cell = canvas.composite_cell(Position { x, y });
            let ghost before = data@;
            data.push(low_byte(cell.ch));
            if color {
                data.push(attribute_byte(cell.attribute));
            }
            proof {
                assert(data@ =~= before + cell_bytes(cell, color));
                assert(data@ =~= lead + row_data(canvas@, y as int, x + 1, color));
            }
            x += 1;
        }
        if lw > w {
            w = lw;
        }
        proof {
            assert(data@ =~= glyph_rows(canvas@, y + 1, color));
        }
        y += 1;
    }
    let h: i32 = if rows > 0 {
        rows - 1
    } else {
        0
    };
    Some(FontGlyph { size: Size { width: w, height: h }, data })
}

/// The colours that an attribute byte holds: the foreground in the low
/// four bits, the background in the high four; no style.
pub open spec fn spec_attribute_of(b: u8) -> Attribute {
    Attribute {
        foreground: (b % 16) as u32,
        background: (b / 16) as u32,
        blink: false,
        bold: false,
        underline: false,
        ice_color: false,
    }
}

/// The layer after the bytes of a glyph from `i` on are drawn on it, the
/// next cell going to `(x, y)`. A row separator moves on to the start of
/// the next row. Any other byte is the character of one cell; for fonts
/// that store colours the byte after it gives the cell's colours, and for
/// the others the cell takes `attr`. Cells outside the layer are left out.
pub open spec fn rendered(
    l: LayerView,
    data: Seq<u8>,
    i: int,
    x: int,
    y: int,
    color: bool,
    attr: Attribute,
) -> LayerView
    decreases
        (if i < data.len() {
            data.len() - i
        } else {
            0
        }),
{
    if i < 0 || i >= data.len() {
        l
    } else if data[i] == ROW_SEPARATOR {
        rendered(l, data, i + 1, 0, y + 1, color, attr)
    } else if color {
        rendered(
            l.with_cell(
                x,
                y,
                Cell {
                    ch: data[i] as char,
                    attribute: if i + 1 < data.len() {
                        spec_attribute_of(data[i + 1])
                    } else {
                        attr
                    },
                },
            ),
            data,
            i + 2,
            x + 1,
            y,
            color,
            attr,
        )
    } else {
        rendered(
            l.with_cell(x, y, Cell { ch: data[i] as char, attribute: attr }),
            data,
            i + 1,
            x + 1,
            y,
            color,
            attr,
        )
    }
}

/// The layer with the glyph drawn on it from its top left corner.
pub open spec fn spec_render_glyph(l: LayerView, data: Seq<u8>, color: bool, attr: Attribute) -> LayerView {
    rendered(l, data, 0, 0, 0, color, attr)
}

/// The colours that an attribute byte holds.
pub fn attribute_of(b: u8) -> (a: Attribute)
    ensures
        a == spec_attribute_of(b),
{
    Attribute {
        foreground: (b % 16) as u32,
        background: (b / 16) as u32,
        blink: false,
        bold: false,
        underline: false,
        ice_color: false,
    }
}

/// Draws the bytes of a glyph on the layer, whatever its lock says, from
/// its top left corner: the reverse of reading a glyph back. `color` says
/// whether each character is followed by a byte of colours; where it is
/// not, the cells take `attr`.
pub fn render_glyph(layer: &mut Layer, data: &Vec<u8>, color: bool, attr: Attribute)
    requires
        old(layer).wf(),
    ensures
        final(layer).wf(),
        final(layer)@ == spec_render_glyph(old(layer)@, data@, color, attr),
{
    let n: usize = data.len();
    let mut i: usize = 0;
    let mut x: usize = 0;
    let mut y: usize = 0;
    let ghost goal = spec_render_glyph(layer@, data@, color, attr);
    while i < n
        invariant
            layer.wf(),
            n == data@.len(),
            i <= n,
            x <= i,
            y <= i,
            goal == rendered(layer@, data@, i as int, x as int, y as int, color, attr),
        decreases n - i,
    {
        let b: u8 = data[i];
        let ghost here = layer@;
        let ghost gi = i as int;
        let ghost gx = x as int;
        let ghost gy = y as int;
        if b == ROW_SEPARATOR {
            proof {
                assert(rendered(here, data@, gi, gx, gy, color, attr) == rendered(
                    here,
                    data@,
                    gi + 1,
                    0,
                    gy + 1,
                    color,
                    attr,
                ));
            }
            x = 0;
            y = y + 1;
            i = i + 1;
        } else {
            let attribute: Attribute = if !color {
                attr
            } else if i + 1 < n {
                attribute_of(data[i + 1])
            } else {
                attr
            };
            let cell = Cell { ch: b as char, attribute };
            proof {
                layer.lemma_view_wf();
            }
            if x < 0x8000 && y < 0x8000 {
                layer.put(Position { x: x as i32, y: y as i32 }, cell);
            }
            assert(layer@ == here.with_cell(gx, gy, cell));
            x = x + 1;
            if color {
                proof {
                    assert(rendered(here, data@, gi, gx, gy, color, attr) == rendered(
                        layer@,
                        data@,
                        gi + 2,
                        gx + 1,
                        gy,
                        color,
                        attr,
                    ));
                }
                if i + 1 < n {
                    i = i + 2;
                } else {
                    proof {
                        assert(rendered(layer@, data@, gi + 2, gx + 1, gy, color, attr) == layer@);
                        assert(rendered(layer@, data@, n as int, gx + 1, gy, color, attr) == layer@);
                    }
                    i = n;
                }
            } else {
                proof {
                    assert(rendered(here, data@, gi, gx, gy, color, attr) == rendered(
                        layer@,
                        data@,
                        gi + 1,
                        gx + 1,
                        gy,
                        color,
                        attr,
                    ));
                }
                i = i + 1;
            }
        }
    }
}

/// The first and the last character that a font has a glyph for.
pub const FIRST_GLYPH: u8 = 0x21;

pub const LAST_GLYPH: u8 = 0x7E;

/// A font of glyphs for the characters from `!` to `~`.
#[derive(Debug)]
pub struct GlyphFont {
    pub name: String,
    pub font_type: FontType,
    /// One slot per character, in order; an empty slot where the font has
    /// no glyph for the character.
    pub glyphs: Vec<Option<FontGlyph>>,
}

impl GlyphFont {
    /// Whether the font has a glyph for the character with code `code`.
    pub open spec fn spec_has_char(&self, code: u8) -> bool {
        &&& FIRST_GLYPH <= code <= LAST_GLYPH
        &&& code - FIRST_GLYPH < self.glyphs@.len()
        &&& self.glyphs@[code - FIRST_GLYPH] is Some
    }

    /// Whether the font has a glyph for the character with code `code`.
    pub fn has_char(&self, code: u8) -> (r: bool)
        ensures
            r == self.spec_has_char(code),
    {
        if code < FIRST_GLYPH || code > LAST_GLYPH {
            return false;
        }
        let slot: usize = (code - FIRST_GLYPH) as usize;
        if slot >= self.glyphs.len() {
            return false;
        }
        self.glyphs[slot].is_some()
    }

    /// The slot of the glyph for `ch`, for the characters from `!` to `~`.
    pub fn slot_of(ch: char) -> (r: Option<usize>)
        ensures
            r == if FIRST_GLYPH <= ch as u32 <= LAST_GLYPH {
                Some((ch as u32 - FIRST_GLYPH) as usize)
            } else {
                None
            },
    {
        let code: u32 = ch as u32;
        if code < FIRST_GLYPH as u32 || code > LAST_GLYPH as u32 {
            None
        } else {
            Some((code - FIRST_GLYPH as u32) as usize)
        }
    }

    /// Gives the font the glyph `glyph` for `ch`. Nothing happens for a
    /// character outside `!` to `~`; the answer says whether the glyph was
    /// taken. Slots up to the character's are added where the font has
    /// fewer.
    pub fn set_glyph(&mut self, ch: char, glyph: FontGlyph) -> (taken: bool)
        ensures
            taken == (FIRST_GLYPH <= ch as u32 <= LAST_GLYPH),
            final(self).name == old(self).name,
            final(self).font_type == old(self).font_type,
            !taken ==> final(self).glyphs@ == old(self).glyphs@,
            taken ==> {
                let slot = ch as u32 - FIRST_GLYPH;
                &&& final(self).glyphs@.len() == if old(self).glyphs@.len() > slot {
                    old(self).glyphs@.len()
                } else {
                    (slot + 1) as nat
                }
                &&& final(self).glyphs@[slot] == Some(glyph)
                &&& forall|k: int|
                    0 <= k < final(self).glyphs@.len() && k != slot ==> #[trigger] final(self).glyphs@[k] == if k < old(self).glyphs@.len() {
                        old(self).glyphs@[k]
                    } else {
                        None
                    }
            },
    {
        let slot: usize = match GlyphFont::slot_of(ch) {
            Some(slot) => slot,
            None => {
                return false;
            },
        };
        while self.glyphs.len() <= slot
            invariant
                slot == ch as u32 - FIRST_GLYPH,
                self.name == old(self).name,
                self.font_type == old(self).font_type,
                self.glyphs@.len() >= old(self).glyphs@.len(),
                self.glyphs@.len() <= slot + 1 || self.glyphs@.len() == old(self).glyphs@.len(),
                forall|k: int|
                    0 <= k < self.glyphs@.len() ==> #[trigger] self.glyphs@[k] == if k < old(self).glyphs@.len() {
                        old(self).glyphs@[k]
                    } else {
                        None
                    },
            decreases slot + 1 - self.glyphs@.len(),
        {
            self.glyphs.push(None);
        }
        self.glyphs.set(slot, Some(glyph));
        true
    }
}

/// The editor for the glyphs of character fonts.
pub struct CharFontEditor {
    selected_char_opt: Option<char>,
    old_selected_char_opt: Option<char>,
    file_name: Option<String>,
    state: EditState,
    is_dirty: bool,
    selected_font: usize,
    fonts: Vec<GlyphFont>,
}

/// The canvas of the glyph editor with nothing drawn.
pub open spec fn glyph_canvas(c: CanvasView) -> bool {
    &&& c.size == (Size { width: GLYPH_CANVAS_WIDTH, height: GLYPH_CANVAS_HEIGHT })
    &&& c.layers == seq![background_layer(), edit_layer()]
}

/// The glyph that the font at `font` holds for `ch`, if it holds one.
pub open spec fn glyph_of(fonts: Seq<GlyphFont>, font: usize, ch: Option<char>) -> Option<FontGlyph> {
    match ch {
        Some(c) => if font < fonts.len() && FIRST_GLYPH <= c as u32 <= LAST_GLYPH && c as u32
            - FIRST_GLYPH < fonts[font as int].glyphs@.len() {
            fonts[font as int].glyphs@[c as u32 - FIRST_GLYPH]
        } else {
            None
        },
        None => None,
    }
}

/// Whether the canvas is that of the glyph editor with `glyph` drawn on the
/// drawing layer, or with nothing drawn where there is no glyph.
pub open spec fn glyph_canvas_of(c: CanvasView, glyph: Option<FontGlyph>, color: bool, attr: Attribute) -> bool {
    let drawing = match glyph {
        Some(g) => spec_render_glyph(edit_layer(), g.data@, color, attr),
        None => edit_layer(),
    };
    &&& c.size == (Size { width: GLYPH_CANVAS_WIDTH, height: GLYPH_CANVAS_HEIGHT })
    &&& c.layers == seq![background_layer(), drawing]
}

impl CharFontEditor {
    pub closed spec fn wf(&self) -> bool {
        self.state.wf()
    }

    /// The edit state of the glyph canvas.
    pub closed spec fn state_view(&self) -> EditStateView {
        self.state@
    }

    pub closed spec fn selected_char(&self) -> Option<char> {
        self.selected_char_opt
    }

    /// The character whose glyph is on the canvas.
    pub closed spec fn shown_char(&self) -> Option<char> {
        self.old_selected_char_opt
    }

    pub closed spec fn selected_font(&self) -> usize {
        self.selected_font
    }

    pub closed spec fn fonts(&self) -> Seq<GlyphFont> {
        self.fonts@
    }

    pub closed spec fn file_name(&self) -> Option<String> {
        self.file_name
    }

    pub closed spec fn dirty(&self) -> bool {
        self.is_dirty
    }

    /// Whether reading the glyph back changes the selected font: a
    /// character from `!` to `~` is on the canvas, and a font is selected
    /// that is no outline font.
    pub open spec fn saves_glyph(&self) -> bool {
        &&& self.shown_char() matches Some(ch)
        &&& FIRST_GLYPH <= ch as u32 <= LAST_GLYPH
        &&& self.selected_font() < self.fonts().len()
        &&& self.fonts()[self.selected_font() as int].font_type != FontType::Outline
    }

    /// Whether the canvas shows the glyph that the selected font holds for
    /// the selected character, drawn in the caret's attribute where the font
    /// stores no colours; and nothing where no character is selected or the
    /// font holds no glyph for it.
    pub open spec fn shows_selected(&self) -> bool {
        glyph_canvas_of(
            self.state_view().doc.canvas,
            glyph_of(self.fonts(), self.selected_font(), self.selected_char()),
            self.selected_font() < self.fonts().len() && self.fonts()[self.selected_font() as int].font_type
                == FontType::Color,
            self.state_view().caret.attribute,
        )
    }

    /// Whether `fonts` are the fonts of the editor after the glyph on the
    /// canvas was read back: the selected font holds, for the character on
    /// the canvas, the glyph that the canvas shows; every other glyph and
    /// every other font is as before. Nothing differs where no glyph is
    /// saved.
    pub open spec fn glyph_saved(&self, fonts: Seq<GlyphFont>) -> bool {
        let sel = self.selected_font() as int;
        &&& self.shown_char() is None ==> fonts == self.fonts()
        &&& fonts.len() == self.fonts().len()
        &&& forall|k: int| 0 <= k < fonts.len() && k != sel ==> #[trigger] fonts[k] == self.fonts()[k]
        &&& sel < fonts.len() ==> fonts[sel].name == self.fonts()[sel].name && fonts[sel].font_type
            == self.fonts()[sel].font_type
        &&& !self.saves_glyph() && sel < fonts.len() ==> fonts[sel].glyphs@ == self.fonts()[sel].glyphs@
        &&& self.saves_glyph() ==> {
            let slot = self.shown_char().unwrap() as u32 - FIRST_GLYPH;
            let before = self.fonts()[sel].glyphs@;
            let after = fonts[sel].glyphs@;
            &&& after.len() == if before.len() > slot {
                before.len()
            } else {
                (slot + 1) as nat
            }
            &&& after[slot as int] is Some
            &&& encodes(
                after[slot as int].unwrap(),
                self.state_view().doc.canvas,
                self.fonts()[sel].font_type == FontType::Color,
            )
            &&& forall|k: int|
                0 <= k < after.len() && k != slot ==> #[trigger] after[k] == if k < before.len() {
                    before[k]
                } else {
                    None
                }
        }
    }

    /// The editor for `fonts`, which were read from the file `file_name`:
    /// the first font is selected, no character is, and the canvas holds the
    /// two layers of the glyph editor with nothing drawn.
    pub fn new(file_name: Option<String>, fonts: Vec<GlyphFont>) -> (editor: CharFontEditor)
        ensures
            editor.wf(),
            editor.file_name() == file_name,
            editor.fonts() == fonts@,
            editor.selected_font() == 0,
            editor.selected_char() is None,
            editor.shown_char() is None,
            !editor.dirty(),
            glyph_canvas(editor.state_view().doc.canvas),
            editor.state_view().doc.current_layer == 0,
            editor.state_view().caret.position == (Position { x: 0, y: 0 }),
            editor.state_view().done.len() == 0,
            editor.state_view().undone.len() == 0,
            editor.state_view().depth == 0,
            editor.state_view().overlay is None,
    {
        let mut canvas = Canvas::new(Size { width: GLYPH_CANVAS_WIDTH, height: GLYPH_CANVAS_HEIGHT });
        set_up_layers(&mut canvas);
        let state = EditState::new(canvas);
        CharFontEditor {
            selected_char_opt: None,
            old_selected_char_opt: None,
            file_name,
            state,
            is_dirty: false,
            selected_font: 0,
            fonts,
        }
    }

    /// The title of the document.
    pub fn get_title(&self) -> (title: String)
        ensures
            title@ == match self.file_name() {
                Some(name) => name@,
                None => "Untitled"@,
            },
    {
        match &self.file_name {
            Some(name) => document_title(Some(name.as_str())),
            None => document_title(None),
        }
    }

    pub fn is_dirty(&self) -> (r: bool)
        ensures
            r == self.dirty(),
    {
        self.is_dirty
    }

    pub fn undo_stack_len(&self) -> (n: usize)
        ensures
            n == self.state_view().done.len(),
    {
        self.state.undo_stack_len()
    }

    pub fn can_undo(&self) -> (r: bool)
        ensures
            r == self.state_view().can_undo(),
    {
        self.state.can_undo()
    }

    pub fn can_redo(&self) -> (r: bool)
        ensures
            r == self.state_view().can_redo(),
    {
        self.state.can_redo()
    }

    /// Takes back the newest transaction on the glyph canvas.
    pub fn undo(&mut self) -> (r: Result<(), EditError>)
        requires
            old(self).wf(),
        ensures
            final(self).wf(),
            r == if old(self).state_view().can_undo() {
                Ok::<(), EditError>(())
            } else {
                Err::<(), EditError>(EditError::NothingToUndo)
            },
            final(self).state_view() == old(self).state_view().after_undo(),
            final(self).fonts() == old(self).fonts(),
            final(self).selected_char() == old(self).selected_char(),
            final(self).shown_char() == old(self).shown_char(),
            final(self).selected_font() == old(self).selected_font(),
            final(self).file_name() == old(self).file_name(),
            final(self).dirty() == old(self).dirty(),
    {
        self.state.undo()
    }

    /// Does the transaction undone last again on the glyph canvas.
    pub fn redo(&mut self) -> (r: Result<(), EditError>)
        requires
            old(self).wf(),
        ensures
            final(self).wf(),
            r == if old(self).state_view().can_redo() {
                Ok::<(), EditError>(())
            } else {
                Err::<(), EditError>(EditError::NothingToRedo)
            },
            final(self).state_view() == old(self).state_view().after_redo(),
            final(self).fonts() == old(self).fonts(),
            final(self).selected_char() == old(self).selected_char(),
            final(self).shown_char() == old(self).shown_char(),
            final(self).selected_font() == old(self).selected_font(),
            final(self).file_name() == old(self).file_name(),
            final(self).dirty() == old(self).dirty(),
    {
        self.state.redo()
    }

    /// The glyph canvas, for reading.
    pub fn get_ansi_editor(&self) -> (state: &EditState)
        requires
            self.wf(),
        ensures
            state.wf(),
            state@ == self.state_view(),
    {
        &self.state
    }

    /// The glyph canvas, for drawing. What the caller does to it is what
    /// the editor holds afterwards; the editor is well formed as long as the
    /// edit state is.
    pub fn get_ansi_editor_mut(&mut self) -> (state: &mut EditState)
        ensures
            state@ == old(self).state_view(),
            state.wf() == old(self).wf(),
            final(self).state_view() == final(state)@,
            final(self).wf() == final(state).wf(),
            final(self).fonts() == old(self).fonts(),
            final(self).selected_char() == old(self).selected_char(),
            final(self).shown_char() == old(self).shown_char(),
            final(self).selected_font() == old(self).selected_font(),
            final(self).file_name() == old(self).file_name(),
            final(self).dirty() == old(self).dirty(),
    {
        &mut self.state
    }

    /// Shows every layer of the glyph canvas as the selected font asks: in
    /// the caret's attribute for fonts that store no colours, in the cells'
    /// own attributes for fonts that do. Nothing happens where no font is
    /// selected.
    pub fn apply_forced_attribute(&mut self)
        requires
            old(self).wf(),
        ensures
            final(self).wf(),
            final(self).state_view() == if old(self).selected_font() < old(self).fonts().len() {
                old(self).state_view().forced(
                    spec_forced_attribute(
                        old(self).fonts()[old(self).selected_font() as int].font_type,
                        old(self).state_view().caret.attribute,
                    ),
                )
            } else {
                old(self).state_view()
            },
            final(self).fonts() == old(self).fonts(),
            final(self).selected_char() == old(self).selected_char(),
            final(self).shown_char() == old(self).shown_char(),
            final(self).selected_font() == old(self).selected_font(),
            final(self).file_name() == old(self).file_name(),
            final(self).dirty() == old(self).dirty(),
    {
        if self.selected_font < self.fonts.len() {
            let attr = self.state.get_caret().attribute;
            let forced = forced_attribute(self.fonts[self.selected_font].font_type, attr);
            self.state.set_forced_output_attribute(forced);
        }
    }

    /// How each character from `!` to `~` is drawn in the selector, in
    /// order.
    pub fn show_char_selector(&self) -> (styles: Vec<DrawGlyphStyle>)
        ensures
            styles@.len() == LAST_GLYPH - FIRST_GLYPH + 1,
            forall|k: int|
                0 <= k < styles@.len() ==> #[trigger] styles@[k] == if self.selected_char() == Some(
                    (FIRST_GLYPH + k) as char,
                ) {
                    DrawGlyphStyle::Selected
                } else if !(self.selected_font() < self.fonts().len() && self.fonts()[self.selected_font() as int].spec_has_char(
                    (FIRST_GLYPH + k) as u8,
                )) {
                    DrawGlyphStyle::GrayOut
                } else {
                    DrawGlyphStyle::Normal
                },
    {
        let mut styles: Vec<DrawGlyphStyle> = Vec::new();
        let mut code: u8 = FIRST_GLYPH;
        while code <= LAST_GLYPH
            invariant
                FIRST_GLYPH <= code <= LAST_GLYPH + 1,
                styles@.len() == code - FIRST_GLYPH,
                forall|k: int|
                    0 <= k < styles@.len() ==> #[trigger] styles@[k] == if self.selected_char()
                        == Some((FIRST_GLYPH + k) as char) {
                        DrawGlyphStyle::Selected
                    } else if !(self.selected_font() < self.fonts().len() && self.fonts()[self.selected_font() as int].spec_has_char(
                        (FIRST_GLYPH + k) as u8,
                    )) {
                        DrawGlyphStyle::GrayOut
                    } else {
                        DrawGlyphStyle::Normal
                    },
            decreases LAST_GLYPH + 1 - code,
        {
            let has: bool = self.selected_font < self.fonts.len()
                && self.fonts[self.selected_font].has_char(code);
            styles.push(glyph_style(has, self.selected_char_opt, code as char));
            code += 1;
        }
        styles
    }

    /// Reads the glyph of the character that is on the canvas back into the
    /// selected font. Nothing happens where no character is on the canvas,
    /// where no font is selected, and for outline fonts.
    pub fn save_old_selected_char(&mut self)
        requires
            old(self).wf(),
        ensures
            final(self).wf(),
            final(self).state_view() == old(self).state_view(),
            final(self).selected_char() == old(self).selected_char(),
            final(self).shown_char() == old(self).shown_char(),
            final(self).selected_font() == old(self).selected_font(),
            final(self).file_name() == old(self).file_name(),
            final(self).dirty() == old(self).dirty(),
            old(self).glyph_saved(final(self).fonts()),
    {
        let ch: char = match self.old_selected_char_opt {
            Some(ch) => ch,
            None => {
                return ;
            },
        };
        if self.selected_font >= self.fonts.len() {
            return ;
        }
        let font_type = self.fonts[self.selected_font].font_type;
        match encode_glyph(self.state.get_buffer(), font_type) {
            Some(glyph) => {
                let _ = self.fonts[self.selected_font].set_glyph(ch, glyph);
            },
            None => {},
        }
    }

    /// Puts the selected character on the canvas: the glyph that was there
    /// is read back first; then the canvas is set up anew and the glyph of
    /// the selected character is drawn on the drawing layer, which is made
    /// current, with the caret at home and an empty journal.
    pub fn show_selected_char(&mut self)
        requires
            old(self).wf(),
        ensures
            final(self).wf(),
            final(self).selected_char() == old(self).selected_char(),
            final(self).shown_char() == old(self).selected_char(),
            final(self).selected_font() == old(self).selected_font(),
            final(self).file_name() == old(self).file_name(),
            final(self).dirty() == old(self).dirty(),
            old(self).glyph_saved(final(self).fonts()),
            final(self).shows_selected(),
            final(self).state_view().caret == (Caret {
                position: Position { x: 0, y: 0 },
                ..old(self).state_view().caret
            }),
            final(self).state_view().doc.current_layer == 1,
            final(self).state_view().done.len() == 0,
            final(self).state_view().undone.len() == 0,
            final(self).state_view().depth == 0,
    {
        self.save_old_selected_char();
        let attr: Attribute = self.state.get_caret().attribute;
        let mut canvas = Canvas::new(Size { width: GLYPH_CANVAS_WIDTH, height: GLYPH_CANVAS_HEIGHT });
        set_up_layers(&mut canvas);
        let ghost blank = canvas@;
        assert(canvas.layers@.len() == canvas@.layers.len());
        let ghost glyph = glyph_of(self.fonts@, self.selected_font, self.selected_char_opt);
        let mut drawn: bool = false;
        match self.selected_char_opt {
            Some(ch) => {
                if self.selected_font < self.fonts.len() {
                    let font = &self.fonts[self.selected_font];
                    let color: bool = font.font_type == FontType::Color;
                    match GlyphFont::slot_of(ch) {
                        Some(slot) => {
                            if slot < font.glyphs.len() {
                                match &font.glyphs[slot] {
                                    Some(g) => {
                                        assert(glyph == Some(*g));
                                        render_glyph(&mut canvas.layers[1], &g.data, color, attr);
                                        drawn = true;
                                    },
                                    None => {},
                                }
                            }
                        },
                        None => {},
                    }
                }
            },
            None => {},
        }
        proof {
            if drawn {
                assert(canvas@.layers =~= seq![
                    background_layer(),
                    spec_render_glyph(
                        edit_layer(),
                        glyph.unwrap().data@,
                        self.fonts@[self.selected_font as int].font_type == FontType::Color,
                        attr,
                    ),
                ]);
            } else {
                assert(glyph is None);
                assert(canvas@.layers =~= blank.layers);
            }
        }
        let ghost shown = canvas@;
        let ghost color = self.selected_font < self.fonts@.len()
            && self.fonts@[self.selected_font as int].font_type == FontType::Color;
        assert(glyph_canvas_of(shown, glyph, color, attr));
        self.state.reload(canvas);
        let _ = self.state.reset_current_layer(1);
        self.state.set_caret_position(Position { x: 0, y: 0 });
        self.old_selected_char_opt = self.selected_char_opt;
    }

    /// Selects the character `ch` and puts it on the canvas.
    pub fn select_char(&mut self, ch: char)
        requires
            old(self).wf(),
        ensures
            final(self).wf(),
            final(self).selected_char() == Some(ch),
            final(self).shown_char() == Some(ch),
            final(self).selected_font() == old(self).selected_font(),
            final(self).file_name() == old(self).file_name(),
            final(self).dirty() == old(self).dirty(),
            old(self).glyph_saved(final(self).fonts()),
            final(self).shows_selected(),
            final(self).state_view().caret == (Caret {
                position: Position { x: 0, y: 0 },
                ..old(self).state_view().caret
            }),
            final(self).state_view().doc.current_layer == 1,
            final(self).state_view().done.len() == 0,
            final(self).state_view().undone.len() == 0,
            final(self).state_view().depth == 0,
    {
        self.selected_char_opt = Some(ch);
        self.show_selected_char();
    }

    /// Selects the font at `index`: the glyph on the canvas is read back
    /// into the font that was selected, no character is selected any more,
    /// and the canvas is set up anew.
    pub fn select_font(&mut self, index: usize)
        requires
            old(self).wf(),
        ensures
            final(self).wf(),
            final(self).selected_font() == index,
            final(self).selected_char() is None,
            final(self).shown_char() is None,
            final(self).file_name() == old(self).file_name(),
            final(self).dirty() == old(self).dirty(),
            old(self).glyph_saved(final(self).fonts()),
            final(self).shows_selected(),
            final(self).state_view().caret == (Caret {
                position: Position { x: 0, y: 0 },
                ..old(self).state_view().caret
            }),
            final(self).state_view().doc.current_layer == 1,
            final(self).state_view().done.len() == 0,
            final(self).state_view().undone.len() == 0,
            final(self).state_view().depth == 0,
    {
        self.save_old_selected_char();
        self.selected_font = index;
        self.old_selected_char_opt = None;
        self.selected_char_opt = None;
        self.show_selected_char();
    }
}

} // verus!
