//! The tools that turn clicks and drags into edits.

use crate::cell::{Attribute, Cell, ChannelMask};
use crate::drag::{draw_shape_effect, end_drag_effect, Brush, DrawMode, Shape};
use crate::edit_state::EditState;
use crate::error::EditError;
use crate::fill::{fill_effect, fill_result};
use crate::geometry::Position;
use vstd::prelude::*;

verus! {

/// The mouse button that tools act on.
pub const PRIMARY_BUTTON: i32 = 1;

/// What a fill writes into the cells it takes.
#[derive(Clone, Copy, Debug, PartialEq, Eq, Structural, Hash)]
pub enum FillType {
    /// The tool's character, with the colours that are switched on.
    Character,
    /// The colours that are switched on; characters stay.
    Colorize,
}

/// The flood-fill tool.
#[derive(Clone, Copy, Debug)]
pub struct FillTool {
    pub use_fore: bool,
    pub use_back: bool,
    pub attr: Attribute,
    pub char_code: char,
    pub font_page: usize,
    pub fill_type: FillType,
}

/// The tool that draws filled ellipses.
#[derive(Clone, Copy, Debug)]
pub struct DrawEllipseFilledTool {
    pub draw_mode: DrawMode,
    pub use_fore: bool,
    pub use_back: bool,
    pub attr: Attribute,
    pub char_code: char,
}

/// The tool that picks up the attribute under the pointer.
#[derive(Clone, Copy, Debug)]
pub struct PipetteTool {}

/// What a tool that paints shapes says of its brush.
pub trait Plottable {
    spec fn spec_brush(&self) -> Brush;

    fn get_draw_mode(&self) -> (r: DrawMode)
        ensures
            r == self.spec_brush().draw_mode,
    ;

    fn get_use_fore(&self) -> (r: bool)
        ensures
            r == self.spec_brush().use_fore,
    ;

    fn get_use_back(&self) -> (r: bool)
        ensures
            r == self.spec_brush().use_back,
    ;

    fn get_char_code(&self) -> (r: char)
        ensures
            r == self.spec_brush().char_code,
    ;
}

/// The brush of a tool.
pub fn brush_of<T: Plottable>(tool: &T) -> (b: Brush)
    ensures
        b == tool.spec_brush(),
{
    Brush {
        draw_mode: tool.get_draw_mode(),
        use_fore: tool.get_use_fore(),
        use_back: tool.get_use_back(),
        char_code: tool.get_char_code(),
    }
}

impl Plottable for DrawEllipseFilledTool {
    open spec fn spec_brush(&self) -> Brush {
        Brush {
            draw_mode: self.draw_mode,
            use_fore: self.use_fore,
            use_back: self.use_back,
            char_code: self.char_code,
        }
    }

    fn get_draw_mode(&self) -> (r: DrawMode) {
        self.draw_mode
    }

    fn get_use_fore(&self) -> (r: bool) {
        self.use_fore
    }

    fn get_use_back(&self) -> (r: bool) {
        self.use_back
    }

    fn get_char_code(&self) -> (r: char) {
        self.char_code
    }
}

impl FillTool {
    /// The channels that the tool matches and replaces: the character where
    /// it fills with a character, and the colours that are switched on.
    pub open spec fn spec_matcher(&self) -> ChannelMask {
        ChannelMask {
            character: self.fill_type == FillType::Character,
            foreground: self.use_fore,
            background: self.use_back,
        }
    }

    /// The tool as it is when the program starts: both colours on, the
    /// light shade as character, filling with characters.
    pub fn new() -> (tool: FillTool)
        ensures
            tool.use_fore,
            tool.use_back,
            tool.attr == Attribute::spec_plain(),
            tool.char_code == '\u{00B0}',
            tool.font_page == 0,
            tool.fill_type == FillType::Character,
    {
        FillTool {
            use_fore: true,
            use_back: true,
            attr: Attribute::plain(),
            char_code: '\u{00B0}',
            font_page: 0,
            fill_type: FillType::Character,
        }
    }

    /// The tool does not show the caret.
    pub fn use_caret(&self) -> (r: bool)
        ensures
            !r,
    {
        false
    }

    pub fn matcher(&self) -> (m: ChannelMask)
        ensures
            m == self.spec_matcher(),
    {
        ChannelMask {
            character: self.fill_type == FillType::Character,
            foreground: self.use_fore,
            background: self.use_back,
        }
    }

    /// Switches the foreground colour on or off.
    pub fn toggle_fore(&mut self)
        ensures
            *final(self) == (FillTool { use_fore: !old(self).use_fore, ..*old(self) }),
    {
        self.use_fore = !self.use_fore;
    }

    /// Switches the background colour on or off.
    pub fn toggle_back(&mut self)
        ensures
            *final(self) == (FillTool { use_back: !old(self).use_back, ..*old(self) }),
    {
        self.use_back = !self.use_back;
    }

    /// A click at canvas position `pos`. The primary button fills from
    /// there with the tool's character in the caret's attribute, on the
    /// tool's channels; any other button does nothing. The errors are those
    /// of the fill: a tool that colorizes with both colours off reports
    /// `EmptyMatcher`.
    pub fn handle_click(&self, state: &mut EditState, button: i32, pos: Position) -> (r: Result<
        (),
        EditError,
    >)
        requires
            old(state).wf(),
        ensures
            final(state).wf(),
            button != PRIMARY_BUTTON ==> r is Ok && final(state)@ == old(state)@,
            button == PRIMARY_BUTTON ==> {
                &&& r == fill_result(old(state)@, self.spec_matcher())
                &&& r is Err ==> final(state)@ == old(state)@
                &&& r is Ok ==> fill_effect(
                    old(state)@,
                    final(state)@,
                    pos,
                    self.spec_matcher(),
                    Cell { ch: self.char_code, attribute: old(state)@.caret.attribute },
                )
            },
    {
        if button != PRIMARY_BUTTON {
            return Ok(());
        }
        let attribute = state.get_caret().attribute;
        state.fill(pos, self.matcher(), Cell { ch: self.char_code, attribute })
    }
}

impl DrawEllipseFilledTool {
    /// The tool as it is when the program starts: solid blocks, both
    /// colours on, the light shade as character.
    pub fn new() -> (tool: DrawEllipseFilledTool)
        ensures
            tool.draw_mode == DrawMode::Line,
            tool.use_fore,
            tool.use_back,
            tool.attr == Attribute::spec_plain(),
            tool.char_code == '\u{00B0}',
    {
        DrawEllipseFilledTool {
            draw_mode: DrawMode::Line,
            use_fore: true,
            use_back: true,
            attr: Attribute::plain(),
            char_code: '\u{00B0}',
        }
    }

    /// The tool does not show the caret.
    pub fn use_caret(&self) -> (r: bool)
        ensures
            !r,
    {
        false
    }

    /// The tool does not act on the selection.
    pub fn use_selection(&self) -> (r: bool)
        ensures
            !r,
    {
        false
    }

    /// Switches the foreground colour on or off.
    pub fn toggle_fore(&mut self)
        ensures
            *final(self) == (DrawEllipseFilledTool { use_fore: !old(self).use_fore, ..*old(self) }),
    {
        self.use_fore = !self.use_fore;
    }

    /// Switches the background colour on or off.
    pub fn toggle_back(&mut self)
        ensures
            *final(self) == (DrawEllipseFilledTool { use_back: !old(self).use_back, ..*old(self) }),
    {
        self.use_back = !self.use_back;
    }

    /// The pointer moved during a drag: the overlay is repainted from
    /// scratch with the filled ellipse between the two points of the drag,
    /// whatever their order.
    pub fn handle_drag(&self, state: &mut EditState) -> (r: Result<(), EditError>)
        requires
            old(state).wf(),
        ensures
            final(state).wf(),
            draw_shape_effect(
                old(state)@,
                final(state)@,
                r,
                Shape::EllipseFilled,
                self.spec_brush(),
            ),
    {
        state.draw_shape(Shape::EllipseFilled, brush_of(self))
    }

    /// The drag ended: a drag that ends where it began is discarded, any
    /// other is merged into the current layer as one transaction.
    pub fn handle_drag_end(&self, state: &mut EditState) -> (r: Result<(), EditError>)
        requires
            old(state).wf(),
        ensures
            final(state).wf(),
            end_drag_effect(old(state)@, final(state)@, r, "draw ellipse"@),
    {
        state.end_drag("draw ellipse")
    }
}

impl PipetteTool {
    pub fn new() -> (tool: PipetteTool)
        ensures
            tool == (PipetteTool {  }),
    {
        PipetteTool {  }
    }

    /// The tool does not show the caret.
    pub fn use_caret(&self) -> (r: bool)
        ensures
            !r,
    {
        false
    }

    /// The tool does not act on the selection.
    pub fn use_selection(&self) -> (r: bool)
        ensures
            !r,
    {
        false
    }

    /// A click at canvas position `pos`. The primary button gives the caret
    /// the attribute of the cell that shows there; any other button does
    /// nothing.
    pub fn handle_click(&self, state: &mut EditState, button: i32, pos: Position)
        requires
            old(state).wf(),
        ensures
            final(state).wf(),
            final(state)@ == if button == PRIMARY_BUTTON {
                old(state)@.with_caret(
                    crate::edit_state::Caret {
                        attribute: old(state)@.doc.canvas.composite_cell(
                            pos.x as int,
                            pos.y as int,
                        ).attribute,
                        ..old(state)@.caret
                    },
                )
            } else {
                old(state)@
            },
    {
        if button == PRIMARY_BUTTON {
            let cell = state.get_buffer().composite_cell(pos);
            state.set_caret_attribute(cell.attribute);
        }
    }
}

} // verus!
