//! A layer: one offset, sized plane of cells with its flags.

use crate::cell::{Attribute, Cell};
use crate::error::EditError;
use crate::geometry::{Position, Rectangle, Size};
use vstd::prelude::*;

verus! {

/// Largest width and height of a layer.
pub const MAX_DIM: i32 = 0x7FFF;

/// What a layer is for.
#[derive(Clone, Copy, Debug, PartialEq, Eq, Structural, Hash)]
pub enum Role {
    Normal,
    /// A scratch or pasted plane that floats above the document.
    Overlay,
    Background,
}

/// The mathematical content of a layer.
#[verifier::ext_equal]
pub struct LayerView {
    pub title: Seq<char>,
    pub width: int,
    pub height: int,
    /// The cell at each `(x, y)` inside the layer.
    pub cells: Map<(int, int), Cell>,
    pub offset: Position,
    pub visible: bool,
    pub locked: bool,
    pub position_locked: bool,
    pub has_alpha_channel: bool,
    pub forced_output_attribute: Option<Attribute>,
    pub role: Role,
}

pub struct Layer {
    title: String,
    width: usize,
    height: usize,
    cells: Vec<Cell>,
    offset: Position,
    visible: bool,
    locked: bool,
    position_locked: bool,
    has_alpha_channel: bool,
    forced_output_attribute: Option<Attribute>,
    role: Role,
}

/// A dimension forced into `0..=MAX_DIM`.
pub open spec fn spec_clamp_dim(d: int) -> int {
    if d < 0 {
        0
    } else if d > MAX_DIM {
        MAX_DIM as int
    } else {
        d
    }
}

impl LayerView {
    pub open spec fn in_bounds(self, x: int, y: int) -> bool {
        0 <= x < self.width && 0 <= y < self.height
    }

    /// The cell at `(x, y)`, or the transparent cell outside the layer.
    pub open spec fn cell_at(self, x: int, y: int) -> Cell {
        if self.in_bounds(x, y) {
            self.cells[(x, y)]
        } else {
            Cell::spec_transparent()
        }
    }

    pub open spec fn wf(self) -> bool {
        &&& 0 <= self.width <= MAX_DIM
        &&& 0 <= self.height <= MAX_DIM
        &&& forall|x: int, y: int| self.cells.dom().contains((x, y)) <==> self.in_bounds(x, y)
    }

    /// What new area is filled with: the transparent cell where the layer
    /// has an alpha channel, a blank otherwise.
    pub open spec fn filler(self) -> Cell {
        if self.has_alpha_channel {
            Cell::spec_transparent()
        } else {
            Cell::spec_blank()
        }
    }

    /// The layer with `(x, y)` overwritten, whatever its lock says; unchanged
    /// where `(x, y)` lies outside.
    pub open spec fn with_cell(self, x: int, y: int, cell: Cell) -> LayerView {
        if self.in_bounds(x, y) {
            LayerView { cells: self.cells.insert((x, y), cell), ..self }
        } else {
            self
        }
    }

    /// The layer after a write through its own `set`: nothing happens to a
    /// locked layer.
    pub open spec fn after_set(self, x: int, y: int, cell: Cell) -> LayerView {
        if self.locked {
            self
        } else {
            self.with_cell(x, y, cell)
        }
    }

    /// The layer at another size: cells at positions that both sizes share
    /// are kept, the others hold the filler.
    pub open spec fn resized(self, width: int, height: int) -> LayerView {
        LayerView {
            width,
            height,
            cells: Map::new(
                |p: (int, int)| 0 <= p.0 < width && 0 <= p.1 < height,
                |p: (int, int)|
                    if self.in_bounds(p.0, p.1) {
                        self.cells[p]
                    } else {
                        self.filler()
                    },
            ),
            ..self
        }
    }

    /// A fresh layer: visible, unlocked, with an alpha channel, every cell
    /// transparent.
    pub open spec fn fresh(title: Seq<char>, width: int, height: int) -> LayerView {
        LayerView {
            title,
            width,
            height,
            cells: Map::new(
                |p: (int, int)| 0 <= p.0 < width && 0 <= p.1 < height,
                |p: (int, int)| Cell::spec_transparent(),
            ),
            offset: Position { x: 0, y: 0 },
            visible: true,
            locked: false,
            position_locked: false,
            has_alpha_channel: true,
            forced_output_attribute: None,
            role: Role::Normal,
        }
    }

    /// Whether a move by `delta` lands on a representable offset.
    pub open spec fn move_fits(self, delta: Position) -> bool {
        &&& i32::MIN <= self.offset.x + delta.x <= i32::MAX
        &&& i32::MIN <= self.offset.y + delta.y <= i32::MAX
    }

    /// What `move_by` answers.
    pub open spec fn move_result(self, delta: Position) -> Result<(), EditError> {
        if self.position_locked {
            Err(EditError::LayerLocked)
        } else if !self.move_fits(delta) {
            Err(EditError::InvalidPosition)
        } else {
            Ok(())
        }
    }

    /// The layer after `move_by`: moved where the move succeeds, unchanged
    /// where it fails.
    pub open spec fn after_move(self, delta: Position) -> LayerView {
        if self.move_result(delta) is Ok {
            LayerView {
                offset: Position {
                    x: (self.offset.x + delta.x) as i32,
                    y: (self.offset.y + delta.y) as i32,
                },
                ..self
            }
        } else {
            self
        }
    }

    /// The cells that the layer covers, in canvas coordinates.
    pub open spec fn rectangle(self) -> Rectangle {
        Rectangle {
            start: self.offset,
            size: Size { width: self.width as i32, height: self.height as i32 },
        }
    }
}

/// Where a row-major grid of width `w` keeps the cell at `(x, y)`.
pub open spec fn cell_index(x: int, y: int, w: int) -> int {
    y * w + x
}

pub proof fn lemma_index_in_range(x: int, y: int, w: int, h: int)
    requires
        0 <= x < w,
        0 <= y < h,
    ensures
        0 <= y * w + x < w * h,
{
    assert(y * w + x < w * h) by (nonlinear_arith)
        requires
            0 <= x < w,
            0 <= y < h,
    {
        assert((y + 1) * w <= h * w);
    }
    assert(0 <= y * w) by (nonlinear_arith)
        requires
            0 <= y,
            0 <= w,
    ;
}

pub proof fn lemma_index_injective(x1: int, y1: int, x2: int, y2: int, w: int)
    requires
        0 <= x1 < w,
        0 <= x2 < w,
        y1 * w + x1 == y2 * w + x2,
    ensures
        x1 == x2,
        y1 == y2,
{
    if y1 < y2 {
        assert((y1 + 1) * w <= y2 * w) by (nonlinear_arith)
            requires
                y1 + 1 <= y2,
                0 <= w,
        ;
        assert((y1 + 1) * w == y1 * w + w) by (nonlinear_arith);
    } else if y2 < y1 {
        assert((y2 + 1) * w <= y1 * w) by (nonlinear_arith)
            requires
                y2 + 1 <= y1,
                0 <= w,
        ;
        assert((y2 + 1) * w == y2 * w + w) by (nonlinear_arith);
    }
}

impl View for Layer {
    type V = LayerView;

    closed spec fn view(&self) -> LayerView {
        LayerView {
            title: self.title@,
            width: self.width as int,
            height: self.height as int,
            cells: Map::new(
                |p: (int, int)| 0 <= p.0 < self.width && 0 <= p.1 < self.height,
                |p: (int, int)| self.cells@[p.1 * self.width + p.0],
            ),
            offset: self.offset,
            visible: self.visible,
            locked: self.locked,
            position_locked: self.position_locked,
            has_alpha_channel: self.has_alpha_channel,
            forced_output_attribute: self.forced_output_attribute,
            role: self.role,
        }
    }
}

impl Layer {
    /// The grid holds exactly `width * height` cells, and neither
    /// dimension exceeds `MAX_DIM`.
    pub closed spec fn wf(&self) -> bool {
        &&& self.width <= MAX_DIM
        &&& self.height <= MAX_DIM
        &&& self.cells@.len() == self.width * self.height
    }

    /// A well-formed layer has a well-formed content.
    pub proof fn lemma_view_wf(&self)
        requires
            self.wf(),
        ensures
            self@.wf(),
    {
    }

    /// A fresh layer of the given size, each dimension forced into
    /// `0..=MAX_DIM`.
    pub fn new(title: &str, size: Size) -> (layer: Layer)
        ensures
            layer@ == LayerView::fresh(
                title@,
                spec_clamp_dim(size.width as int),
                spec_clamp_dim(size.height as int),
            ),
            layer.wf(),
    {
        let width: usize = clamp_dim(size.width);
        let height: usize = clamp_dim(size.height);
        assert(width * height <= MAX_DIM * MAX_DIM) by (nonlinear_arith)
            requires
                0 <= width <= MAX_DIM,
                0 <= height <= MAX_DIM,
        ;
        let n: usize = width * height;
        let mut cells: Vec<Cell> = Vec::new();
        let mut i: usize = 0;
        while i < n
            invariant
                i <= n,
                cells@.len() == i,
                forall|k: int| 0 <= k < i ==> cells@[k] == Cell::spec_transparent(),
            decreases n - i,
        {
            cells.push(Cell::transparent());
            i += 1;
        }
        let layer = Layer {
            title: title.to_string(),
            width,
            height,
            cells,
            offset: Position { x: 0, y: 0 },
            visible: true,
            locked: false,
            position_locked: false,
            has_alpha_channel: true,
            forced_output_attribute: None,
            role: Role::Normal,
        };
        proof {
            assert forall|p: (int, int)| 0 <= p.0 < width && 0 <= p.1 < height implies layer.cells@[p.1
                * width + p.0] == Cell::spec_transparent() by {
                lemma_index_in_range(p.0, p.1, width as int, height as int);
            }
            assert(layer@.cells =~= LayerView::fresh(title@, width as int, height as int).cells);
        }
        layer
    }

    /// Where the grid keeps the cell at `pos`.
    fn index_of(&self, pos: Position) -> (idx: usize)
        requires
            self.wf(),
            self@.in_bounds(pos.x as int, pos.y as int),
        ensures
            idx == pos.y * self.width + pos.x,
            idx < self.cells@.len(),
    {
        proof {
            lemma_index_in_range(
                pos.x as int,
                pos.y as int,
                self.width as int,
                self.height as int,
            );
            assert(self.width * self.height <= MAX_DIM * MAX_DIM) by (nonlinear_arith)
                requires
                    0 <= self.width <= MAX_DIM,
                    0 <= self.height <= MAX_DIM,
            ;
            assert(0 <= pos.y * self.width) by (nonlinear_arith)
                requires
                    0 <= pos.y,
                    0 <= self.width,
            ;
        }
        pos.y as usize * self.width + pos.x as usize
    }

    /// The cell at `pos`, in the layer's own coordinates; the transparent
    /// cell outside the layer.
    pub fn get(&self, pos: Position) -> (cell: Cell)
        requires
            self.wf(),
        ensures
            cell == self@.cell_at(pos.x as int, pos.y as int),
    {
        if pos.x < 0 || pos.y < 0 || pos.x as usize >= self.width || pos.y as usize
            >= self.height {
            return Cell::transparent();
        }
        let idx: usize = self.index_of(pos);
        self.cells[idx]
    }

    /// Overwrites the cell at `pos`, whatever the lock says; does nothing
    /// where `pos` lies outside the layer.
    pub fn put(&mut self, pos: Position, cell: Cell)
        requires
            old(self).wf(),
        ensures
            final(self).wf(),
            final(self)@ == old(self)@.with_cell(pos.x as int, pos.y as int, cell),
    {
        if pos.x < 0 || pos.y < 0 || pos.x as usize >= self.width || pos.y as usize
            >= self.height {
            return ;
        }
        let idx: usize = self.index_of(pos);
        self.cells.set(idx, cell);
        proof {
            let w = self.width as int;
            assert forall|p: (int, int)| 0 <= p.0 < self.width && 0 <= p.1 < self.height implies (
            #[trigger] self@.cells[p]) == old(self)@.cells.insert(
                (pos.x as int, pos.y as int),
                cell,
            )[p] by {
                lemma_index_in_range(p.0, p.1, w, self.height as int);
                if p.1 * w + p.0 == idx as int {
                    lemma_index_injective(p.0, p.1, pos.x as int, pos.y as int, w);
                }
            }
            assert(self@.cells =~= old(self)@.cells.insert((pos.x as int, pos.y as int), cell));
        }
    }

    /// Writes the cell at `pos`: a no-op where the layer is locked, and
    /// clipped silently where `pos` lies outside the layer.
    pub fn set(&mut self, pos: Position, cell: Cell)
        requires
            old(self).wf(),
        ensures
            final(self).wf(),
            final(self)@ == old(self)@.after_set(pos.x as int, pos.y as int, cell),
    {
        if !self.locked {
            self.put(pos, cell);
        }
    }

    /// Moves the layer by `delta`. Fails with `LayerLocked` where the
    /// position is locked, and with `InvalidPosition` where the new offset
    /// is not representable; the layer is then unchanged.
    pub fn move_by(&mut self, delta: Position) -> (r: Result<(), EditError>)
        requires
            old(self).wf(),
        ensures
            final(self).wf(),
            r == old(self)@.move_result(delta),
            final(self)@ == old(self)@.after_move(delta),
    {
        if self.position_locked {
            return Err(EditError::LayerLocked);
        }
        match self.offset.checked_add(delta) {
            Some(offset) => {
                self.offset = offset;
                Ok(())
            },
            None => Err(EditError::InvalidPosition),
        }
    }

    /// Gives the layer another size, each dimension forced into
    /// `0..=MAX_DIM`. Cells at positions that both sizes share are kept;
    /// new area holds the filler.
    pub fn resize(&mut self, new_size: Size)
        requires
            old(self).wf(),
        ensures
            final(self).wf(),
            final(self)@ == old(self)@.resized(
                spec_clamp_dim(new_size.width as int),
                spec_clamp_dim(new_size.height as int),
            ),
    {
        let width: usize = clamp_dim(new_size.width);
        let height: usize = clamp_dim(new_size.height);
        let filler: Cell = if self.has_alpha_channel {
            Cell::transparent()
        } else {
            Cell::blank()
        };
        let ghost before = self@;
        proof {
            assert(width * height <= MAX_DIM * MAX_DIM) by (nonlinear_arith)
                requires
                    0 <= width <= MAX_DIM,
                    0 <= height <= MAX_DIM,
            ;
        }
        let mut cells: Vec<Cell> = Vec::new();
        let mut y: usize = 0;
        while y < height
            invariant
                self.wf(),
                self@ == before,
                y <= height,
                width <= MAX_DIM,
                height <= MAX_DIM,
                filler == before.filler(),
                cells@.len() == y * width,
                forall|px: int, py: int|
                    0 <= px < width && 0 <= py < y ==> cells@[#[trigger] cell_index(
                        px,
                        py,
                        width as int,
                    )] == if before.in_bounds(px, py) {
                        before.cells[(px, py)]
                    } else {
                        filler
                    },
            decreases height - y,
        {
            let mut x: usize = 0;
            while x < width
                invariant
                    self.wf(),
                    self@ == before,
                    y < height,
                    x <= width,
                    width <= MAX_DIM,
                    height <= MAX_DIM,
                    filler == before.filler(),
                    cells@.len() == y * width + x,
                    forall|px: int, py: int|
                        0 <= px < width && 0 <= py < y ==> cells@[#[trigger] cell_index(
                            px,
                            py,
                            width as int,
                        )] == if before.in_bounds(px, py) {
                            before.cells[(px, py)]
                        } else {
                            filler
                        },
                    forall|px: int|
                        0 <= px < x ==> cells@[#[trigger] cell_index(px, y as int, width as int)]
                            == if before.in_bounds(px, y as int) {
                            before.cells[(px, y as int)]
                        } else {
                            filler
                        },
                decreases width - x,
            {
                let c: Cell = if x < self.width && y < self.height {
                    let idx: usize = self.index_of(Position { x: x as i32, y: y as i32 });
                    self.cells[idx]
                } else {
                    filler
                };
                proof {
                    assert forall|px: int, py: int| 0 <= px < width && 0 <= py < y implies 0
                        <= #[trigger] cell_index(px, py, width as int) < y * width by {
                        lemma_index_in_range(px, py, width as int, y as int);
                    }
                }
                cells.push(c);
                x += 1;
            }
            proof {
                assert((y + 1) * width == y * width + width) by (nonlinear_arith);
            }
            y += 1;
        }
        proof {
            assert(height * width == width * height) by (nonlinear_arith);
        }
        self.width = width;
        self.height = height;
        self.cells = cells;
        proof {
            assert forall|p: (int, int)| 0 <= p.0 < width && 0 <= p.1 < height implies self.cells@[p.1
                * width + p.0] == before.resized(width as int, height as int).cells[p] by {
                assert(cell_index(p.0, p.1, width as int) == p.1 * width + p.0);
            }
            assert(self@.cells =~= before.resized(width as int, height as int).cells);
        }
    }

    /// A copy that is equal in content.
    pub fn duplicate(&self) -> (layer: Layer)
        requires
            self.wf(),
        ensures
            layer.wf(),
            layer@ == self@,
    {
        let n: usize = self.cells.len();
        let mut cells: Vec<Cell> = Vec::new();
        let mut i: usize = 0;
        while i < n
            invariant
                n == self.cells@.len(),
                i <= n,
                cells@.len() == i,
                forall|k: int| 0 <= k < i ==> cells@[k] == self.cells@[k],
            decreases n - i,
        {
            cells.push(self.cells[i]);
            i += 1;
        }
        let layer = Layer {
            title: self.title.clone(),
            width: self.width,
            height: self.height,
            cells,
            offset: self.offset,
            visible: self.visible,
            locked: self.locked,
            position_locked: self.position_locked,
            has_alpha_channel: self.has_alpha_channel,
            forced_output_attribute: self.forced_output_attribute,
            role: self.role,
        };
        proof {
            assert(layer.cells@ =~= self.cells@);
            assert(layer@.cells =~= self@.cells);
        }
        layer
    }

    pub fn title(&self) -> (r: &String)
        ensures
            r@ == self@.title,
    {
        &self.title
    }

    pub fn set_title(&mut self, title: String)
        requires
            old(self).wf(),
        ensures
            final(self).wf(),
            final(self)@ == (LayerView { title: title@, ..old(self)@ }),
    {
        self.title = title;
    }

    pub fn get_size(&self) -> (r: Size)
        requires
            self.wf(),
        ensures
            r.width == self@.width,
            r.height == self@.height,
    {
        Size { width: self.width as i32, height: self.height as i32 }
    }

    pub fn get_width(&self) -> (r: i32)
        requires
            self.wf(),
        ensures
            r == self@.width,
    {
        self.width as i32
    }

    pub fn get_height(&self) -> (r: i32)
        requires
            self.wf(),
        ensures
            r == self@.height,
    {
        self.height as i32
    }

    pub fn get_offset(&self) -> (r: Position)
        ensures
            r == self@.offset,
    {
        self.offset
    }

    /// The cells that the layer covers, in canvas coordinates.
    pub fn get_rectangle(&self) -> (r: Rectangle)
        requires
            self.wf(),
        ensures
            r == self@.rectangle(),
            r.wf(),
    {
        Rectangle {
            start: self.offset,
            size: Size { width: self.width as i32, height: self.height as i32 },
        }
    }

    /// Places the layer, whatever its position lock says.
    pub fn set_offset(&mut self, offset: Position)
        requires
            old(self).wf(),
        ensures
            final(self).wf(),
            final(self)@ == (LayerView { offset, ..old(self)@ }),
    {
        self.offset = offset;
    }

    pub fn is_visible(&self) -> (r: bool)
        ensures
            r == self@.visible,
    {
        self.visible
    }

    pub fn set_visible(&mut self, visible: bool)
        requires
            old(self).wf(),
        ensures
            final(self).wf(),
            final(self)@ == (LayerView { visible, ..old(self)@ }),
    {
        self.visible = visible;
    }

    pub fn is_locked(&self) -> (r: bool)
        ensures
            r == self@.locked,
    {
        self.locked
    }

    pub fn set_locked(&mut self, locked: bool)
        requires
            old(self).wf(),
        ensures
            final(self).wf(),
            final(self)@ == (LayerView { locked, ..old(self)@ }),
    {
        self.locked = locked;
    }

    pub fn is_position_locked(&self) -> (r: bool)
        ensures
            r == self@.position_locked,
    {
        self.position_locked
    }

    pub fn set_position_locked(&mut self, position_locked: bool)
        requires
            old(self).wf(),
        ensures
            final(self).wf(),
            final(self)@ == (LayerView { position_locked, ..old(self)@ }),
    {
        self.position_locked = position_locked;
    }

    pub fn has_alpha_channel(&self) -> (r: bool)
        ensures
            r == self@.has_alpha_channel,
    {
        self.has_alpha_channel
    }

    pub fn set_has_alpha_channel(&mut self, has_alpha_channel: bool)
        requires
            old(self).wf(),
        ensures
            final(self).wf(),
            final(self)@ == (LayerView { has_alpha_channel, ..old(self)@ }),
    {
        self.has_alpha_channel = has_alpha_channel;
    }

    pub fn forced_output_attribute(&self) -> (r: Option<Attribute>)
        ensures
            r == self@.forced_output_attribute,
    {
        self.forced_output_attribute
    }

    pub fn set_forced_output_attribute(&mut self, forced_output_attribute: Option<Attribute>)
        requires
            old(self).wf(),
        ensures
            final(self).wf(),
            final(self)@ == (LayerView { forced_output_attribute, ..old(self)@ }),
    {
        self.forced_output_attribute = forced_output_attribute;
    }

    pub fn role(&self) -> (r: Role)
        ensures
            r == self@.role,
    {
        self.role
    }

    pub fn set_role(&mut self, role: Role)
        requires
            old(self).wf(),
        ensures
            final(self).wf(),
            final(self)@ == (LayerView { role, ..old(self)@ }),
    {
        self.role = role;
    }
}

fn clamp_dim(d: i32) -> (r: usize)
    ensures
        r == spec_clamp_dim(d as int),
{
    if d < 0 {
        0
    } else if d > MAX_DIM {
        MAX_DIM as usize
    } else {
        d as usize
    }
}

} // verus!
