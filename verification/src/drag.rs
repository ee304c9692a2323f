//! Drag gestures: a shape is rasterized between the point where the drag
//! began and the point where it is now, painted on the overlay, and merged
//! into the current layer when the drag ends.

use crate::cell::{Attribute, Cell};
use crate::edit_state::{overlay_for, stamps_any, with_layer, merged, DragState, EditState, EditStateView};
use crate::error::EditError;
use crate::geometry::Position;
use crate::layer::LayerView;
use crate::raster::{
    covered, ellipse_cells, line_cells, rectangle_cells, span_cells, span_covers, ScanLines, Span,
};
use vstd::prelude::*;

verus! {

/// How a painted cell gets its character.
#[derive(Clone, Copy, Debug, PartialEq, Eq, Structural, Hash)]
pub enum DrawMode {
    /// The solid block.
    Line,
    /// The brush's own character.
    Char,
    /// The next denser character of the shade ramp.
    Shade,
    /// The character that is there already; only colours change.
    Colorize,
}

/// What a drawing tool paints with.
#[derive(Clone, Copy, Debug, PartialEq, Eq, Structural, Hash)]
pub struct Brush {
    pub draw_mode: DrawMode,
    pub use_fore: bool,
    pub use_back: bool,
    pub char_code: char,
}

/// The shape that a drag spans between its two points.
#[derive(Clone, Copy, Debug, PartialEq, Eq, Structural, Hash)]
pub enum Shape {
    Line,
    Rectangle,
    RectangleFilled,
    Ellipse,
    EllipseFilled,
}

/// The solid block.
pub open spec fn spec_full_block() -> char {
    '\u{00DB}'
}

/// The character one step denser on the shade ramp light, medium, dark,
/// solid; the solid block stays, and any other character starts the ramp.
pub open spec fn spec_shade_after(ch: char) -> char {
    if ch == '\u{00DB}' {
        '\u{00DB}'
    } else if ch == '\u{00B0}' {
        '\u{00B1}'
    } else if ch == '\u{00B1}' {
        '\u{00B2}'
    } else if ch == '\u{00B2}' {
        '\u{00DB}'
    } else {
        '\u{00B0}'
    }
}

/// The cell that the brush leaves where the layer holds `base`: the
/// colours come from the caret where the brush uses them and from `base`
/// where not, the style from `base`, the character by the draw mode.
pub open spec fn spec_plotted(base: Cell, caret: Attribute, brush: Brush) -> Cell {
    Cell {
        ch: match brush.draw_mode {
            DrawMode::Line => spec_full_block(),
            DrawMode::Char => brush.char_code,
            DrawMode::Shade => spec_shade_after(base.ch),
            DrawMode::Colorize => base.ch,
        },
        attribute: Attribute {
            foreground: if brush.use_fore {
                caret.foreground
            } else {
                base.attribute.foreground
            },
            background: if brush.use_back {
                caret.background
            } else {
                base.attribute.background
            },
            ..base.attribute
        },
    }
}

/// The cells of `shape` between `a` and `b`.
pub open spec fn shape_cells(shape: Shape, a: Position, b: Position) -> Set<(int, int)> {
    match shape {
        Shape::Line => line_cells(a, b),
        Shape::Rectangle => rectangle_cells(a, b, false),
        Shape::RectangleFilled => rectangle_cells(a, b, true),
        Shape::Ellipse => ellipse_cells(a, b, false),
        Shape::EllipseFilled => ellipse_cells(a, b, true),
    }
}

/// The overlay for a gesture on `l` with the brush's cell on every
/// position of `cells` that lies inside, and transparent elsewhere.
pub open spec fn drawn(l: LayerView, caret: Attribute, brush: Brush, cells: Set<(int, int)>) -> LayerView {
    LayerView {
        cells: Map::new(
            |p: (int, int)| l.in_bounds(p.0, p.1),
            |p: (int, int)|
                if cells.contains(p) {
                    spec_plotted(l.cells[p], caret, brush)
                } else {
                    Cell::spec_transparent()
                },
        ),
        ..overlay_for(l)
    }
}

/// What `draw_shape` leaves as the overlay.
pub open spec fn drawn_overlay(s: EditStateView, shape: Shape, brush: Brush, a: Position, b: Position) -> Option<
    LayerView,
> {
    match s.current() {
        Some(l) => Some(drawn(l, s.caret.attribute, brush, shape_cells(shape, a, b))),
        None => None,
    }
}

/// What `draw_shape` does: nothing while no drag is in progress; nothing
/// but an `InvalidPosition` where a point of the drag is not addressable;
/// else the overlay is the freshly drawn one.
pub open spec fn draw_shape_effect(
    before: EditStateView,
    after: EditStateView,
    r: Result<(), EditError>,
    shape: Shape,
    brush: Brush,
) -> bool {
    match before.drag {
        DragState::Idle => r is Ok && after == before,
        DragState::Dragging { start, cur } => if start.is_addressable() && cur.is_addressable() {
            &&& r is Ok
            &&& after == before.with_overlay(drawn_overlay(before, shape, brush, start, cur))
        } else {
            &&& r == Err::<(), EditError>(EditError::InvalidPosition)
            &&& after == before
        },
    }
}

/// What `end_drag` does: nothing while no drag is in progress. A drag that
/// ends where it began leaves the document and the journal as they were and
/// only drops the overlay. Any other drag merges the overlay as
/// `join_overlay` does.
pub open spec fn end_drag_effect(
    before: EditStateView,
    after: EditStateView,
    r: Result<(), EditError>,
    description: Seq<char>,
) -> bool {
    match before.drag {
        DragState::Idle => r is Ok && after == before,
        DragState::Dragging { start, cur } => {
            let idle = before.with_drag(DragState::Idle);
            if start == cur {
                r is Ok && after == idle.with_overlay(None)
            } else {
                &&& r == idle.join_result()
                &&& r is Err || idle.overlay is None || !stamps_any(
                    idle.current().unwrap(),
                    idle.overlay.unwrap(),
                ) ==> after == idle.with_overlay(None)
                &&& r is Ok && idle.overlay is Some && stamps_any(
                    idle.current().unwrap(),
                    idle.overlay.unwrap(),
                ) ==> after.doc == with_layer(
                    idle.doc,
                    idle.doc.current_layer,
                    merged(idle.current().unwrap(), idle.overlay.unwrap()),
                ) && idle.with_overlay(None).grouped_into(after, description)
            }
        },
    }
}

/// A drag that ends where it began makes no transaction and leaves every
/// layer as it is.
pub proof fn lemma_degenerate_drag(
    before: EditStateView,
    after: EditStateView,
    r: Result<(), EditError>,
    description: Seq<char>,
)
    requires
        end_drag_effect(before, after, r, description),
        before.drag matches DragState::Dragging { start, cur } && start == cur,
    ensures
        r is Ok,
        after.doc == before.doc,
        after.done == before.done,
        after.undone == before.undone,
        after.open_ops == before.open_ops,
        after.depth == before.depth,
        after.overlay is None,
        after.drag == DragState::Idle,
{
}

pub fn shade_after(ch: char) -> (r: char)
    ensures
        r == spec_shade_after(ch),
{
    if ch == '\u{00DB}' {
        '\u{00DB}'
    } else if ch == '\u{00B0}' {
        '\u{00B1}'
    } else if ch == '\u{00B1}' {
        '\u{00B2}'
    } else if ch == '\u{00B2}' {
        '\u{00DB}'
    } else {
        '\u{00B0}'
    }
}

/// The cell that the brush leaves where the layer holds `base`.
pub fn plotted(base: Cell, caret: Attribute, brush: Brush) -> (c: Cell)
    ensures
        c == spec_plotted(base, caret, brush),
{
    let ch: char = match brush.draw_mode {
        DrawMode::Line => '\u{00DB}',
        DrawMode::Char => brush.char_code,
        DrawMode::Shade => shade_after(base.ch),
        DrawMode::Colorize => base.ch,
    };
    let foreground: u32 = if brush.use_fore {
        caret.foreground
    } else {
        base.attribute.foreground
    };
    let background: u32 = if brush.use_back {
        caret.background
    } else {
        base.attribute.background
    };
    Cell { ch, attribute: Attribute { foreground, background, ..base.attribute } }
}

/// The spans of `shape` between `a` and `b`. Fails with `InvalidPosition`
/// where either point is not addressable.
pub fn scan_shape(shape: Shape, a: Position, b: Position) -> (r: Result<ScanLines, EditError>)
    ensures
        a.is_addressable() && b.is_addressable() ==> r is Ok && r->Ok_0@ == shape_cells(shape, a, b),
        !(a.is_addressable() && b.is_addressable()) ==> r is Err && r->Err_0
            == EditError::InvalidPosition,
{
    let mut lines = ScanLines::new();
    let res = match shape {
        Shape::Line => lines.add_line(a, b),
        Shape::Rectangle => lines.add_rectangle(a, b, false),
        Shape::RectangleFilled => lines.add_rectangle(a, b, true),
        Shape::Ellipse => lines.add_ellipse(a, b, false),
        Shape::EllipseFilled => lines.add_ellipse(a, b, true),
    };
    match res {
        Ok(()) => {
            assert(lines@ =~= shape_cells(shape, a, b));
            Ok(lines)
        },
        Err(e) => Err(e),
    }
}

/// The cells that the first `i` spans cover, and of span `i` those in
/// columns before `x`.
pub open spec fn progress(spans: Seq<Span>, i: int, x: int) -> Set<(int, int)> {
    Set::new(
        |p: (int, int)|
            covered(spans.take(i), p) || (0 <= i < spans.len() && span_covers(spans[i], p) && p.0
                < x),
    )
}

proof fn lemma_take_covered(spans: Seq<Span>, i: int, p: (int, int))
    requires
        0 <= i < spans.len(),
    ensures
        covered(spans.take(i + 1), p) <==> covered(spans.take(i), p) || span_covers(spans[i], p),
{
    let a = spans.take(i);
    let b = spans.take(i + 1);
    if covered(b, p) {
        let k = choose|k: int| 0 <= k < b.len() && span_covers(#[trigger] b[k], p);
        if k < i {
            assert(span_covers(a[k], p));
        }
    }
    if covered(a, p) {
        let k = choose|k: int| 0 <= k < a.len() && span_covers(#[trigger] a[k], p);
        assert(span_covers(b[k], p));
    }
    if span_covers(spans[i], p) {
        assert(span_covers(b[i], p));
    }
}

/// Skipping the part of a span that lies outside the layer, or all of a
/// span in a row outside, leaves the drawn overlay the same.
proof fn lemma_progress_same(
    l: LayerView,
    caret: Attribute,
    brush: Brush,
    spans: Seq<Span>,
    i: int,
    x: int,
    i2: int,
    x2: int,
)
    requires
        forall|p: (int, int)|
            l.in_bounds(p.0, p.1) ==> (progress(spans, i, x).contains(p) <==> progress(
                spans,
                i2,
                x2,
            ).contains(p)),
    ensures
        drawn(l, caret, brush, progress(spans, i, x)) == drawn(l, caret, brush, progress(spans, i2, x2)),
{
    assert(drawn(l, caret, brush, progress(spans, i, x)).cells =~= drawn(
        l,
        caret,
        brush,
        progress(spans, i2, x2),
    ).cells);
}

impl EditState {
    /// Paints `pos` of the overlay with the brush: the cell that the
    /// current layer holds there gives the base, the caret the colours.
    pub fn plot_point(&mut self, brush: Brush, pos: Position)
        requires
            old(self).wf(),
        ensures
            final(self).wf(),
            final(self)@ == old(self)@.with_overlay(
                match old(self)@.overlay {
                    Some(o) => Some(
                        o.with_cell(
                            pos.x as int,
                            pos.y as int,
                            spec_plotted(
                                match old(self)@.current() {
                                    Some(l) => l.cell_at(pos.x as int, pos.y as int),
                                    None => Cell::spec_transparent(),
                                },
                                old(self)@.caret.attribute,
                                brush,
                            ),
                        ),
                    ),
                    None => None,
                },
            ),
    {
        let base: Cell = self.get_char(pos);
        let caret = self.get_caret();
        self.overlay_put(pos, plotted(base, caret.attribute, brush));
    }

    /// Repaints the overlay from scratch with `shape` between the two
    /// points of the drag in progress, in the coordinates of the current
    /// layer. Nothing happens while no drag is in progress. Fails with
    /// `InvalidPosition`, and changes nothing, where a point of the drag is
    /// not addressable.
    pub fn draw_shape(&mut self, shape: Shape, brush: Brush) -> (r: Result<(), EditError>)
        requires
            old(self).wf(),
        ensures
            final(self).wf(),
            draw_shape_effect(old(self)@, final(self)@, r, shape, brush),
    {
        let (start, cur): (Position, Position) = match self.get_drag() {
            DragState::Idle => {
                return Ok(());
            },
            DragState::Dragging { start, cur } => (start, cur),
        };
        let lines: ScanLines = match scan_shape(shape, start, cur) {
            Err(e) => {
                return Err(e);
            },
            Ok(lines) => lines,
        };
        let ghost s0 = self@;
        proof {
            self.lemma_wf_view();
        }
        self.clear_overlay_layer();
        let (w, h): (i32, i32) = match self.get_cur_layer() {
            None => {
                return Ok(());
            },
            Some(layer) => (layer.get_width(), layer.get_height()),
        };
        let ghost l0 = s0.current().unwrap();
        let ghost attr = s0.caret.attribute;
        let ghost spans = lines.spans@;
        let n: usize = lines.spans.len();
        let mut i: usize = 0;
        proof {
            assert(drawn(l0, attr, brush, progress(spans, 0, 0)).cells =~= overlay_for(l0).cells);
        }
        while i < n
            invariant
                self.wf(),
                n == lines.spans@.len(),
                spans == lines.spans@,
                i <= n,
                l0.wf(),
                l0.width == w,
                l0.height == h,
                s0.current() == Some(l0),
                attr == s0.caret.attribute,
                self@ == s0.with_overlay(Some(drawn(l0, attr, brush, progress(spans, i as int, 0)))),
            decreases n - i,
        {
            let span: Span = lines.spans[i];
            if span.y >= 0 && span.y < h && span.x_end >= 0 && span.x_start < w && span.x_start
                <= span.x_end {
                let first: i32 = if span.x_start < 0 {
                    0
                } else {
                    span.x_start
                };
                let last: i32 = if span.x_end >= w {
                    w - 1
                } else {
                    span.x_end
                };
                let mut x: i32 = first;
                proof {
                    lemma_progress_same(l0, attr, brush, spans, i as int, 0, i as int, x as int);
                }
                while x <= last
                    invariant
                        self.wf(),
                        n == lines.spans@.len(),
                        spans == lines.spans@,
                        i < n,
                        span == spans[i as int],
                        0 <= span.y < h,
                        0 <= first <= x <= last + 1,
                        last < w,
                        last <= span.x_end,
                        span.x_start <= first,
                        l0.wf(),
                        l0.width == w,
                        l0.height == h,
                        s0.current() == Some(l0),
                        attr == s0.caret.attribute,
                        self@ == s0.with_overlay(
                            Some(drawn(l0, attr, brush, progress(spans, i as int, x as int))),
                        ),
                    decreases last + 1 - x,
                {
                    let pos = Position { x, y: span.y };
                    let ghost before = drawn(l0, attr, brush, progress(spans, i as int, x as int));
                    self.plot_point(brush, pos);
                    proof {
                        let after = drawn(l0, attr, brush, progress(spans, i as int, x + 1));
                        assert(before.with_cell(
                            x as int,
                            span.y as int,
                            spec_plotted(l0.cell_at(x as int, span.y as int), attr, brush),
                        ).cells =~= after.cells);
                    }
                    x += 1;
                }
                proof {
                    assert forall|p: (int, int)| l0.in_bounds(p.0, p.1) implies (progress(
                        spans,
                        i as int,
                        x as int,
                    ).contains(p) <==> progress(spans, i + 1, 0).contains(p)) by {
                        lemma_take_covered(spans, i as int, p);
                    }
                    lemma_progress_same(l0, attr, brush, spans, i as int, x as int, i + 1, 0);
                }
            } else {
                proof {
                    assert forall|p: (int, int)| l0.in_bounds(p.0, p.1) implies (progress(
                        spans,
                        i as int,
                        0,
                    ).contains(p) <==> progress(spans, i + 1, 0).contains(p)) by {
                        lemma_take_covered(spans, i as int, p);
                    }
                    lemma_progress_same(l0, attr, brush, spans, i as int, 0, i + 1, 0);
                }
            }
            i += 1;
        }
        proof {
            assert(spans.take(n as int) =~= spans);
            assert(progress(spans, n as int, 0) =~= span_cells(spans));
        }
        Ok(())
    }

    /// Begins a drag at `pos`, given in the coordinates of the current
    /// layer, with an empty overlay. Fails with `InvalidPosition`, and
    /// changes nothing, where `pos` is not addressable.
    pub fn begin_drag(&mut self, pos: Position) -> (r: Result<(), EditError>)
        requires
            old(self).wf(),
        ensures
            final(self).wf(),
            r == if pos.is_addressable() {
                Ok::<(), EditError>(())
            } else {
                Err::<(), EditError>(EditError::InvalidPosition)
            },
            r is Err ==> final(self)@ == old(self)@,
            r is Ok ==> final(self)@ == old(self)@.with_drag(
                DragState::Dragging { start: pos, cur: pos },
            ).with_overlay(
                match old(self)@.current() {
                    Some(l) => Some(overlay_for(l)),
                    None => None,
                },
            ),
    {
        if !pos.addressable() {
            return Err(EditError::InvalidPosition);
        }
        self.set_drag(DragState::Dragging { start: pos, cur: pos });
        self.clear_overlay_layer();
        Ok(())
    }

    /// Moves the drag in progress to `pos` and repaints the overlay with
    /// `shape` from scratch. Nothing happens while no drag is in progress.
    /// Fails with `InvalidPosition`, and changes nothing, where `pos` or
    /// the point where the drag began is not addressable.
    pub fn update_drag(&mut self, pos: Position, shape: Shape, brush: Brush) -> (r: Result<
        (),
        EditError,
    >)
        requires
            old(self).wf(),
        ensures
            final(self).wf(),
            match old(self)@.drag {
                DragState::Idle => r is Ok && final(self)@ == old(self)@,
                DragState::Dragging { start, cur } => if start.is_addressable()
                    && pos.is_addressable() {
                    &&& r is Ok
                    &&& final(self)@ == old(self)@.with_drag(
                        DragState::Dragging { start, cur: pos },
                    ).with_overlay(drawn_overlay(old(self)@, shape, brush, start, pos))
                } else {
                    &&& r == Err::<(), EditError>(EditError::InvalidPosition)
                    &&& final(self)@ == old(self)@
                },
            },
    {
        match self.get_drag() {
            DragState::Idle => Ok(()),
            DragState::Dragging { start, cur } => {
                if !start.addressable() || !pos.addressable() {
                    return Err(EditError::InvalidPosition);
                }
                self.set_drag(DragState::Dragging { start, cur: pos });
                self.draw_shape(shape, brush)
            },
        }
    }

    /// Gives the drag in progress up, as when the tool is changed in the
    /// middle of it: the overlay is dropped and nothing is merged. Nothing
    /// happens while no drag is in progress.
    pub fn cancel_drag(&mut self)
        requires
            old(self).wf(),
        ensures
            final(self).wf(),
            final(self)@ == match old(self)@.drag {
                DragState::Idle => old(self)@,
                DragState::Dragging { start, cur } => old(self)@.with_drag(
                    DragState::Idle,
                ).with_overlay(None),
            },
    {
        match self.get_drag() {
            DragState::Idle => {},
            DragState::Dragging { start, cur } => {
                self.set_drag(DragState::Idle);
                self.remove_overlay();
            },
        }
    }

    /// Ends the drag in progress. A drag that ends where it began is
    /// discarded with its overlay: no transaction is made and the layer is
    /// not touched. Any other drag merges its overlay into the current
    /// layer as one atomic group, as `join_overlay` does. Nothing happens
    /// while no drag is in progress.
    pub fn end_drag(&mut self, description: &str) -> (r: Result<(), EditError>)
        requires
            old(self).wf(),
        ensures
            final(self).wf(),
            end_drag_effect(old(self)@, final(self)@, r, description@),
    {
        match self.get_drag() {
            DragState::Idle => Ok(()),
            DragState::Dragging { start, cur } => {
                self.set_drag(DragState::Idle);
                if start == cur {
                    self.remove_overlay();
                    Ok(())
                } else {
                    self.join_overlay(description)
                }
            },
        }
    }
}

} // verus!
