//! The canvas: the ordered stack of layers with its palette and selection.

use crate::cell::Cell;
use crate::error::EditError;
use crate::geometry::{Position, Rectangle, Size};
use crate::layer::{Layer, LayerView};
use crate::palette::{Palette, PaletteView};
use vstd::prelude::*;

verus! {

/// What the user has selected: a rectangle, optionally narrowed by a mask
/// that holds one flag per cell of the rectangle, row by row.
#[derive(Debug)]
pub struct Selection {
    pub bounds: Rectangle,
    pub mask: Option<Vec<bool>>,
}

/// The mathematical content of a selection.
#[verifier::ext_equal]
pub struct SelectionView {
    pub bounds: Rectangle,
    pub mask: Option<Seq<bool>>,
}

impl View for Selection {
    type V = SelectionView;

    open spec fn view(&self) -> SelectionView {
        SelectionView {
            bounds: self.bounds,
            mask: match self.mask {
                Some(m) => Some(m@),
                None => None,
            },
        }
    }
}

impl Selection {
    /// A selection of every cell of `bounds`.
    pub fn from_rectangle(bounds: Rectangle) -> (s: Selection)
        ensures
            s@ == (SelectionView { bounds, mask: None }),
    {
        Selection { bounds, mask: None }
    }

    /// A copy that is equal in content.
    pub fn duplicate(&self) -> (s: Selection)
        ensures
            s@ == self@,
    {
        match &self.mask {
            None => Selection { bounds: self.bounds, mask: None },
            Some(m) => {
                let n: usize = m.len();
                let mut copy: Vec<bool> = Vec::new();
                let mut i: usize = 0;
                while i < n
                    invariant
                        n == m@.len(),
                        i <= n,
                        copy@.len() == i,
                        forall|k: int| 0 <= k < i ==> copy@[k] == m@[k],
                    decreases n - i,
                {
                    copy.push(m[i]);
                    i += 1;
                }
                assert(copy@ =~= m@);
                Selection { bounds: self.bounds, mask: Some(copy) }
            },
        }
    }

    /// The rectangle that encloses the selection.
    pub fn as_rectangle(&self) -> (r: Rectangle)
        ensures
            r == self@.bounds,
    {
        self.bounds
    }
}

/// The mathematical content of a canvas. Index 0 is the lowest layer.
#[verifier::ext_equal]
pub struct CanvasView {
    pub size: Size,
    pub layers: Seq<LayerView>,
    pub palette: PaletteView,
    pub selection: Option<SelectionView>,
}

pub struct Canvas {
    pub size: Size,
    pub layers: Vec<Layer>,
    pub palette: Palette,
    pub selection: Option<Selection>,
}

/// What shows at canvas position `(x, y)` when only the lowest `n` layers
/// are looked at: the cell of the topmost visible layer that is not
/// transparent there, or a blank.
pub open spec fn composite_below(layers: Seq<LayerView>, n: int, x: int, y: int) -> Cell
    decreases n,
{
    if n <= 0 {
        Cell::spec_blank()
    } else {
        let layer = layers[n - 1];
        let cell = layer.cell_at(x - layer.offset.x, y - layer.offset.y);
        if layer.visible && !cell.is_transparent() {
            cell
        } else {
            composite_below(layers, n - 1, x, y)
        }
    }
}

/// The view of an optional selection.
pub open spec fn selection_view(s: Option<Selection>) -> Option<SelectionView> {
    match s {
        Some(s) => Some(s@),
        None => None,
    }
}

/// A copy of an optional selection that is equal in content.
pub fn duplicate_selection(s: &Option<Selection>) -> (r: Option<Selection>)
    ensures
        selection_view(r) == selection_view(*s),
{
    match s {
        Some(s) => Some(s.duplicate()),
        None => None,
    }
}

/// The sequence with the elements at `i` and `j` exchanged.
pub open spec fn swapped<T>(s: Seq<T>, i: int, j: int) -> Seq<T> {
    s.update(i, s[j]).update(j, s[i])
}

impl CanvasView {
    /// What shows at canvas position `(x, y)`.
    pub open spec fn composite_cell(self, x: int, y: int) -> Cell {
        composite_below(self.layers, self.layers.len() as int, x, y)
    }
}

impl View for Canvas {
    type V = CanvasView;

    open spec fn view(&self) -> CanvasView {
        CanvasView {
            size: self.size,
            layers: self.layers@.map_values(|l: Layer| l@),
            palette: self.palette@,
            selection: selection_view(self.selection),
        }
    }
}

impl Canvas {
    /// Every layer is well formed.
    pub open spec fn wf(&self) -> bool {
        forall|i: int| 0 <= i < self.layers@.len() ==> (#[trigger] self.layers@[i]).wf()
    }

    /// A canvas of the given size, without layers and with an empty
    /// palette.
    pub fn new(size: Size) -> (canvas: Canvas)
        ensures
            canvas.wf(),
            canvas@ == (CanvasView {
                size,
                layers: Seq::empty(),
                palette: PaletteView {
                    title: Seq::empty(),
                    description: Seq::empty(),
                    colors: Seq::empty(),
                },
                selection: None,
            }),
    {
        let canvas = Canvas {
            size,
            layers: Vec::new(),
            palette: Palette::from_colors(Vec::new()),
            selection: None,
        };
        assert(canvas@.layers =~= Seq::empty());
        canvas
    }

    pub fn layer_count(&self) -> (n: usize)
        ensures
            n == self@.layers.len(),
    {
        self.layers.len()
    }

    /// The layer at `index`; `IndexOutOfRange` beyond the end.
    pub fn layer_at(&self, index: usize) -> (r: Result<&Layer, EditError>)
        ensures
            index < self@.layers.len() ==> r is Ok && r->Ok_0 == self.layers@[index as int],
            index >= self@.layers.len() ==> r == Err::<&Layer, EditError>(
                EditError::IndexOutOfRange,
            ),
    {
        if index < self.layers.len() {
            Ok(&self.layers[index])
        } else {
            Err(EditError::IndexOutOfRange)
        }
    }

    /// Puts `layer` at `index`, below the layers that were at `index` and
    /// above. `IndexOutOfRange` where `index` is beyond the end; the canvas
    /// is then unchanged.
    pub fn insert_layer(&mut self, index: usize, layer: Layer) -> (r: Result<(), EditError>)
        requires
            old(self).wf(),
            layer.wf(),
        ensures
            final(self).wf(),
            index <= old(self)@.layers.len() ==> r is Ok && final(self)@ == (CanvasView {
                layers: old(self)@.layers.insert(index as int, layer@),
                ..old(self)@
            }),
            index > old(self)@.layers.len() ==> r == Err::<(), EditError>(
                EditError::IndexOutOfRange,
            ) && final(self)@ == old(self)@,
    {
        if index > self.layers.len() {
            return Err(EditError::IndexOutOfRange);
        }
        let ghost before = self@;
        self.layers.insert(index, layer);
        proof {
            assert(self@.layers =~= before.layers.insert(index as int, layer@));
        }
        Ok(())
    }

    /// Takes the layer at `index` out. `IndexOutOfRange` where `index` names
    /// no layer; the canvas is then unchanged.
    pub fn remove_layer(&mut self, index: usize) -> (r: Result<Layer, EditError>)
        requires
            old(self).wf(),
        ensures
            final(self).wf(),
            index < old(self)@.layers.len() ==> r is Ok && r->Ok_0.wf() && r->Ok_0@ == old(
                self,
            )@.layers[index as int] && final(self)@ == (CanvasView {
                layers: old(self)@.layers.remove(index as int),
                ..old(self)@
            }),
            index >= old(self)@.layers.len() ==> r is Err && r->Err_0 == EditError::IndexOutOfRange
                && final(self)@ == old(self)@,
    {
        if index >= self.layers.len() {
            return Err(EditError::IndexOutOfRange);
        }
        let ghost before = self@;
        let layer = self.layers.remove(index);
        proof {
            assert(self@.layers =~= before.layers.remove(index as int));
        }
        Ok(layer)
    }

    /// Exchanges the layers at `i` and `j`. `IndexOutOfRange` where either
    /// names no layer; the canvas is then unchanged.
    pub fn swap(&mut self, i: usize, j: usize) -> (r: Result<(), EditError>)
        requires
            old(self).wf(),
        ensures
            final(self).wf(),
            i < old(self)@.layers.len() && j < old(self)@.layers.len() ==> r is Ok && final(self)@
                == (CanvasView { layers: swapped(old(self)@.layers, i as int, j as int), ..old(self)@ }),
            !(i < old(self)@.layers.len() && j < old(self)@.layers.len()) ==> r == Err::<
                (),
                EditError,
            >(EditError::IndexOutOfRange) && final(self)@ == old(self)@,
    {
        let n: usize = self.layers.len();
        if i >= n || j >= n {
            return Err(EditError::IndexOutOfRange);
        }
        if i == j {
            proof {
                assert(self@.layers =~= swapped(self@.layers, i as int, j as int));
            }
            return Ok(());
        }
        let lo: usize = if i < j {
            i
        } else {
            j
        };
        let hi: usize = if i < j {
            j
        } else {
            i
        };
        let ghost before = self@;
        let ghost old_layers = self.layers@;
        let upper = self.layers.remove(hi);
        let lower = self.layers.remove(lo);
        self.layers.insert(lo, upper);
        self.layers.insert(hi, lower);
        proof {
            assert(self.layers@ =~= swapped(old_layers, i as int, j as int));
            assert(self@.layers =~= swapped(before.layers, i as int, j as int));
        }
        Ok(())
    }

    /// What shows at canvas position `pos`: layers are walked from the top
    /// down, invisible ones skipped; the first cell that is not transparent
    /// is the answer, a blank where there is none.
    pub fn composite_cell(&self, pos: Position) -> (cell: Cell)
        requires
            self.wf(),
        ensures
            cell == self@.composite_cell(pos.x as int, pos.y as int),
    {
        let mut n: usize = self.layers.len();
        while n > 0
            invariant
                self.wf(),
                n <= self.layers@.len(),
                self@.composite_cell(pos.x as int, pos.y as int) == composite_below(
                    self@.layers,
                    n as int,
                    pos.x as int,
                    pos.y as int,
                ),
            decreases n,
        {
            let layer = &self.layers[n - 1];
            assert(layer.wf());
            assert(self@.layers[n - 1] == layer@);
            if layer.is_visible() {
                let cell: Cell = layer_cell_at(layer, pos);
                if !cell.transparent_here() {
                    return cell;
                }
            }
            n -= 1;
        }
        Cell::blank()
    }
}

/// The cell of `layer` that lies at canvas position `pos`.
pub fn layer_cell_at(layer: &Layer, pos: Position) -> (cell: Cell)
    requires
        layer.wf(),
    ensures
        cell == layer@.cell_at(pos.x - layer@.offset.x, pos.y - layer@.offset.y),
{
    let offset: Position = layer.get_offset();
    let x: i64 = pos.x as i64 - offset.x as i64;
    let y: i64 = pos.y as i64 - offset.y as i64;
    proof {
        layer.lemma_view_wf();
    }
    if x < 0 || y < 0 || x > i32::MAX as i64 || y > i32::MAX as i64 {
        Cell::transparent()
    } else {
        layer.get(Position { x: x as i32, y: y as i32 })
    }
}

} // verus!
