//! Reversible operations and the transactions that group them.

use crate::canvas::{
    duplicate_selection, selection_view, swapped, Canvas, CanvasView, Selection, SelectionView,
};
use crate::cell::{Attribute, Cell};
use crate::geometry::{Position, Size};
use crate::layer::{Layer, LayerView};
use crate::palette::{Palette, PaletteView};
use vstd::prelude::*;

verus! {

/// One recorded change, with what it replaced and what it put there.
pub enum EditOp {
    SetCell { layer: usize, pos: Position, old: Cell, new: Cell },
    MoveLayer { layer: usize, from: Position, to: Position },
    SetVisible { layer: usize, from: bool, to: bool },
    SwapLayers { i: usize, j: usize },
    InsertLayer { index: usize, layer: Layer },
    RemoveLayer { index: usize, layer: Layer },
    SwitchPalette { old: Palette, new: Palette },
    SetCurrentLayer { from: usize, to: usize },
    Resize { from: Size, to: Size },
    Select { old: Option<Selection>, new: Option<Selection> },
}

/// The mathematical content of an operation.
#[verifier::ext_equal]
pub enum OpView {
    SetCell { layer: usize, pos: Position, old: Cell, new: Cell },
    MoveLayer { layer: usize, from: Position, to: Position },
    SetVisible { layer: usize, from: bool, to: bool },
    SwapLayers { i: usize, j: usize },
    InsertLayer { index: usize, layer: LayerView },
    RemoveLayer { index: usize, layer: LayerView },
    SwitchPalette { old: PaletteView, new: PaletteView },
    SetCurrentLayer { from: usize, to: usize },
    Resize { from: Size, to: Size },
    Select { old: Option<SelectionView>, new: Option<SelectionView> },
}

/// What the journal restores: the canvas and the current-layer pointer.
#[verifier::ext_equal]
pub struct DocView {
    pub canvas: CanvasView,
    pub current_layer: usize,
}

/// The mathematical content of a transaction.
#[verifier::ext_equal]
pub struct TransactionView {
    pub description: Seq<char>,
    pub ops: Seq<OpView>,
}

/// Operations that undo and redo as one unit.
pub struct Transaction {
    pub description: String,
    pub ops: Vec<EditOp>,
}

impl View for EditOp {
    type V = OpView;

    open spec fn view(&self) -> OpView {
        match *self {
            EditOp::SetCell { layer, pos, old, new } => OpView::SetCell { layer, pos, old, new },
            EditOp::MoveLayer { layer, from, to } => OpView::MoveLayer { layer, from, to },
            EditOp::SetVisible { layer, from, to } => OpView::SetVisible { layer, from, to },
            EditOp::SwapLayers { i, j } => OpView::SwapLayers { i, j },
            EditOp::InsertLayer { index, layer } => OpView::InsertLayer { index, layer: layer@ },
            EditOp::RemoveLayer { index, layer } => OpView::RemoveLayer { index, layer: layer@ },
            EditOp::SwitchPalette { old, new } => OpView::SwitchPalette { old: old@, new: new@ },
            EditOp::SetCurrentLayer { from, to } => OpView::SetCurrentLayer { from, to },
            EditOp::Resize { from, to } => OpView::Resize { from, to },
            EditOp::Select { old, new } => OpView::Select {
                old: selection_view(old),
                new: selection_view(new),
            },
        }
    }
}

impl EditOp {
    /// A layer that the operation carries is well formed.
    pub open spec fn wf(&self) -> bool {
        match *self {
            EditOp::InsertLayer { index, layer } => layer.wf(),
            EditOp::RemoveLayer { index, layer } => layer.wf(),
            _ => true,
        }
    }
}

/// The views of a sequence of operations.
pub open spec fn op_views(ops: Seq<EditOp>) -> Seq<OpView> {
    ops.map_values(|o: EditOp| o@)
}

impl View for Transaction {
    type V = TransactionView;

    open spec fn view(&self) -> TransactionView {
        TransactionView { description: self.description@, ops: op_views(self.ops@) }
    }
}

impl Transaction {
    pub open spec fn wf(&self) -> bool {
        forall|i: int| 0 <= i < self.ops@.len() ==> (#[trigger] self.ops@[i]).wf()
    }
}

/// The operation that takes back what `op` does.
pub open spec fn inverse(op: OpView) -> OpView {
    match op {
        OpView::SetCell { layer, pos, old, new } => OpView::SetCell {
            layer,
            pos,
            old: new,
            new: old,
        },
        OpView::MoveLayer { layer, from, to } => OpView::MoveLayer { layer, from: to, to: from },
        OpView::SetVisible { layer, from, to } => OpView::SetVisible { layer, from: to, to: from },
        OpView::SwapLayers { i, j } => OpView::SwapLayers { i, j },
        OpView::InsertLayer { index, layer } => OpView::RemoveLayer { index, layer },
        OpView::RemoveLayer { index, layer } => OpView::InsertLayer { index, layer },
        OpView::SwitchPalette { old, new } => OpView::SwitchPalette { old: new, new: old },
        OpView::SetCurrentLayer { from, to } => OpView::SetCurrentLayer { from: to, to: from },
        OpView::Resize { from, to } => OpView::Resize { from: to, to: from },
        OpView::Select { old, new } => OpView::Select { old: new, new: old },
    }
}

/// `d` with its layers replaced.
pub open spec fn with_layers(d: DocView, layers: Seq<LayerView>) -> DocView {
    DocView { canvas: CanvasView { layers, ..d.canvas }, ..d }
}

/// The document after `op`. An operation that names a layer beyond the
/// end does nothing.
pub open spec fn apply_op(op: OpView, d: DocView) -> DocView {
    let layers = d.canvas.layers;
    match op {
        OpView::SetCell { layer, pos, old, new } => if layer < layers.len() {
            with_layers(
                d,
                layers.update(
                    layer as int,
                    layers[layer as int].with_cell(pos.x as int, pos.y as int, new),
                ),
            )
        } else {
            d
        },
        OpView::MoveLayer { layer, from, to } => if layer < layers.len() {
            with_layers(
                d,
                layers.update(layer as int, LayerView { offset: to, ..layers[layer as int] }),
            )
        } else {
            d
        },
        OpView::SetVisible { layer, from, to } => if layer < layers.len() {
            with_layers(
                d,
                layers.update(layer as int, LayerView { visible: to, ..layers[layer as int] }),
            )
        } else {
            d
        },
        OpView::SwapLayers { i, j } => if i < layers.len() && j < layers.len() {
            with_layers(d, swapped(layers, i as int, j as int))
        } else {
            d
        },
        OpView::InsertLayer { index, layer } => if index <= layers.len() {
            with_layers(d, layers.insert(index as int, layer))
        } else {
            d
        },
        OpView::RemoveLayer { index, layer } => if index < layers.len() {
            with_layers(d, layers.remove(index as int))
        } else {
            d
        },
        OpView::SwitchPalette { old, new } => DocView {
            canvas: CanvasView { palette: new, ..d.canvas },
            ..d
        },
        OpView::SetCurrentLayer { from, to } => DocView { current_layer: to, ..d },
        OpView::Resize { from, to } => DocView { canvas: CanvasView { size: to, ..d.canvas }, ..d },
        OpView::Select { old, new } => DocView {
            canvas: CanvasView { selection: new, ..d.canvas },
            ..d
        },
    }
}

/// The document before `op`, given the document after it.
pub open spec fn revert_op(op: OpView, d: DocView) -> DocView {
    apply_op(inverse(op), d)
}

/// The document after the operations, first to last.
pub open spec fn apply_ops(ops: Seq<OpView>, d: DocView) -> DocView
    decreases ops.len(),
{
    if ops.len() == 0 {
        d
    } else {
        apply_op(ops.last(), apply_ops(ops.drop_last(), d))
    }
}

/// The document before the operations, which are taken back last to first.
pub open spec fn revert_ops(ops: Seq<OpView>, d: DocView) -> DocView
    decreases ops.len(),
{
    if ops.len() == 0 {
        d
    } else {
        revert_ops(ops.drop_last(), revert_op(ops.last(), d))
    }
}

/// Taking `op` back after doing it on `d` gives `d` again.
pub open spec fn op_exact_at(op: OpView, d: DocView) -> bool {
    revert_op(op, apply_op(op, d)) == d
}

/// `d` is a document on which the operations were just done: taking them
/// back and doing them again gives `d`.
pub open spec fn ops_fit(ops: Seq<OpView>, d: DocView) -> bool {
    apply_ops(ops, revert_ops(ops, d)) == d
}

/// Recording one more exact operation keeps the recorded operations
/// fitting, and leaves the document they started from the same.
pub proof fn lemma_record(ops: Seq<OpView>, op: OpView, d: DocView)
    requires
        ops_fit(ops, d),
        op_exact_at(op, d),
    ensures
        ops_fit(ops.push(op), apply_op(op, d)),
        revert_ops(ops.push(op), apply_op(op, d)) == revert_ops(ops, d),
{
    let ops2 = ops.push(op);
    assert(ops2.drop_last() =~= ops);
    assert(ops2.last() == op);
}

/// Taking back the operations and one more exact operation after it was
/// done gives what taking back the operations gave before.
pub proof fn lemma_revert_push(ops: Seq<OpView>, op: OpView, d: DocView)
    requires
        op_exact_at(op, d),
    ensures
        revert_ops(ops.push(op), apply_op(op, d)) == revert_ops(ops, d),
{
    let ops2 = ops.push(op);
    assert(ops2.drop_last() =~= ops);
    assert(ops2.last() == op);
}

/// Reverting a prefix-extended sequence peels the last operation first.
pub proof fn lemma_revert_step(ops: Seq<OpView>, i: int, d: DocView)
    requires
        0 < i <= ops.len(),
    ensures
        revert_ops(ops.take(i), d) == revert_ops(ops.take(i - 1), revert_op(ops[i - 1], d)),
{
    assert(ops.take(i).drop_last() =~= ops.take(i - 1));
    assert(ops.take(i).last() == ops[i - 1]);
}

/// Applying one more operation of a sequence extends the applied prefix.
pub proof fn lemma_apply_step(ops: Seq<OpView>, i: int, d: DocView)
    requires
        0 <= i < ops.len(),
    ensures
        apply_ops(ops.take(i + 1), d) == apply_op(ops[i], apply_ops(ops.take(i), d)),
{
    assert(ops.take(i + 1).drop_last() =~= ops.take(i));
    assert(ops.take(i + 1).last() == ops[i]);
}

/// The layer shown in the attribute `a`, or in its own attributes where
/// `a` is none.
pub open spec fn forced_layer(l: LayerView, a: Option<Attribute>) -> LayerView {
    LayerView { forced_output_attribute: a, ..l }
}

/// The layers, each shown in `a`.
pub open spec fn forced_layers(layers: Seq<LayerView>, a: Option<Attribute>) -> Seq<LayerView> {
    layers.map_values(|l: LayerView| forced_layer(l, a))
}

/// The document with every layer shown in `a`.
pub open spec fn forced_doc(d: DocView, a: Option<Attribute>) -> DocView {
    with_layers(d, forced_layers(d.canvas.layers, a))
}

/// The operation with the layer that it carries, if it carries one, shown
/// in `a`.
pub open spec fn forced_op(op: OpView, a: Option<Attribute>) -> OpView {
    match op {
        OpView::InsertLayer { index, layer } => OpView::InsertLayer {
            index,
            layer: forced_layer(layer, a),
        },
        OpView::RemoveLayer { index, layer } => OpView::RemoveLayer {
            index,
            layer: forced_layer(layer, a),
        },
        _ => op,
    }
}

/// The operations, each with its layer shown in `a`.
pub open spec fn forced_ops(ops: Seq<OpView>, a: Option<Attribute>) -> Seq<OpView> {
    ops.map_values(|o: OpView| forced_op(o, a))
}

/// How all layers are shown does not bear on what an operation does: doing
/// it and then changing how they are shown gives what changing first and
/// then doing it gives.
pub proof fn lemma_forced_apply(op: OpView, d: DocView, a: Option<Attribute>)
    ensures
        apply_op(forced_op(op, a), forced_doc(d, a)) == forced_doc(apply_op(op, d), a),
        inverse(forced_op(op, a)) == forced_op(inverse(op), a),
{
    let lhs = apply_op(forced_op(op, a), forced_doc(d, a));
    let rhs = forced_doc(apply_op(op, d), a);
    let layers = d.canvas.layers;
    match op {
        OpView::SetCell { layer, pos, old, new } => {
            if layer < layers.len() {
                assert(lhs.canvas.layers[layer as int] =~~= rhs.canvas.layers[layer as int]);
            }
        },
        _ => {},
    }
    assert(lhs.canvas.layers =~= rhs.canvas.layers);
    assert(lhs =~~= rhs);
}

pub proof fn lemma_forced_apply_ops(ops: Seq<OpView>, d: DocView, a: Option<Attribute>)
    ensures
        apply_ops(forced_ops(ops, a), forced_doc(d, a)) == forced_doc(apply_ops(ops, d), a),
    decreases ops.len(),
{
    if ops.len() > 0 {
        lemma_forced_apply_ops(ops.drop_last(), d, a);
        lemma_forced_apply(ops.last(), apply_ops(ops.drop_last(), d), a);
        assert(forced_ops(ops, a).drop_last() =~= forced_ops(ops.drop_last(), a));
        assert(forced_ops(ops, a).last() == forced_op(ops.last(), a));
    }
}

pub proof fn lemma_forced_revert_ops(ops: Seq<OpView>, d: DocView, a: Option<Attribute>)
    ensures
        revert_ops(forced_ops(ops, a), forced_doc(d, a)) == forced_doc(revert_ops(ops, d), a),
    decreases ops.len(),
{
    if ops.len() > 0 {
        lemma_forced_apply(ops.last(), d, a);
        lemma_forced_apply(inverse(ops.last()), d, a);
        lemma_forced_revert_ops(ops.drop_last(), revert_op(ops.last(), d), a);
        assert(forced_ops(ops, a).drop_last() =~= forced_ops(ops.drop_last(), a));
        assert(forced_ops(ops, a).last() == forced_op(ops.last(), a));
    }
}

/// Operations that fit a document fit it still when all layers, theirs
/// included, are shown in another way.
pub proof fn lemma_forced_fit(ops: Seq<OpView>, d: DocView, a: Option<Attribute>)
    requires
        ops_fit(ops, d),
    ensures
        ops_fit(forced_ops(ops, a), forced_doc(d, a)),
{
    lemma_forced_revert_ops(ops, d, a);
    lemma_forced_apply_ops(ops, revert_ops(ops, d), a);
}

/// Shows the layers that the operations carry in `a`.
pub fn force_ops(ops: &mut Vec<EditOp>, a: Option<Attribute>)
    requires
        forall|i: int| 0 <= i < old(ops)@.len() ==> (#[trigger] old(ops)@[i]).wf(),
    ensures
        forall|i: int| 0 <= i < final(ops)@.len() ==> (#[trigger] final(ops)@[i]).wf(),
        op_views(final(ops)@) == forced_ops(op_views(old(ops)@), a),
{
    let n: usize = ops.len();
    let mut i: usize = 0;
    while i < n
        invariant
            n == ops@.len(),
            n == old(ops)@.len(),
            i <= n,
            forall|k: int| 0 <= k < n ==> (#[trigger] ops@[k]).wf(),
            forall|k: int| 0 <= k < i ==> (#[trigger] ops@[k])@ == forced_op(old(ops)@[k]@, a),
            forall|k: int| i <= k < n ==> #[trigger] ops@[k] == old(ops)@[k],
        decreases n - i,
    {
        match &mut ops[i] {
            EditOp::InsertLayer { index, layer } => {
                layer.set_forced_output_attribute(a);
            },
            EditOp::RemoveLayer { index, layer } => {
                layer.set_forced_output_attribute(a);
            },
            _ => {},
        }
        i += 1;
    }
    proof {
        assert(op_views(ops@) =~= forced_ops(op_views(old(ops)@), a));
    }
}

/// The document that a canvas and a current-layer pointer make up.
pub open spec fn doc_of(canvas: &Canvas, current_layer: usize) -> DocView {
    DocView { canvas: canvas@, current_layer }
}

/// Does `op` on the canvas and the pointer where `forward` holds, and takes
/// it back where not.
pub fn perform(canvas: &mut Canvas, current_layer: &mut usize, op: &EditOp, forward: bool)
    requires
        old(canvas).wf(),
        op.wf(),
    ensures
        final(canvas).wf(),
        doc_of(final(canvas), *final(current_layer)) == apply_op(
            if forward {
                op@
            } else {
                inverse(op@)
            },
            doc_of(old(canvas), *old(current_layer)),
        ),
{
    let ghost before = doc_of(canvas, *current_layer);
    let ghost dir = if forward {
        op@
    } else {
        inverse(op@)
    };
    match op {
        EditOp::SetCell { layer, pos, old, new } => {
            if *layer < canvas.layers.len() {
                let cell: Cell = if forward {
                    *new
                } else {
                    *old
                };
                canvas.layers[*layer].put(*pos, cell);
                proof {
                    assert(canvas@.layers =~= apply_op(dir, before).canvas.layers);
                }
            }
        },
        EditOp::MoveLayer { layer, from, to } => {
            if *layer < canvas.layers.len() {
                let offset: Position = if forward {
                    *to
                } else {
                    *from
                };
                canvas.layers[*layer].set_offset(offset);
                proof {
                    assert(canvas@.layers =~= apply_op(dir, before).canvas.layers);
                }
            }
        },
        EditOp::SetVisible { layer, from, to } => {
            if *layer < canvas.layers.len() {
                let visible: bool = if forward {
                    *to
                } else {
                    *from
                };
                canvas.layers[*layer].set_visible(visible);
                proof {
                    assert(canvas@.layers =~= apply_op(dir, before).canvas.layers);
                }
            }
        },
        EditOp::SwapLayers { i, j } => {
            let _ = canvas.swap(*i, *j);
        },
        EditOp::InsertLayer { index, layer } => {
            if forward {
                if *index <= canvas.layers.len() {
                    let _ = canvas.insert_layer(*index, layer.duplicate());
                }
            } else {
                let _ = canvas.remove_layer(*index);
            }
        },
        EditOp::RemoveLayer { index, layer } => {
            if forward {
                let _ = canvas.remove_layer(*index);
            } else {
                if *index <= canvas.layers.len() {
                    let _ = canvas.insert_layer(*index, layer.duplicate());
                }
            }
        },
        EditOp::SwitchPalette { old, new } => {
            if forward {
                canvas.palette = new.duplicate();
            } else {
                canvas.palette = old.duplicate();
            }
        },
        EditOp::SetCurrentLayer { from, to } => {
            if forward {
                *current_layer = *to;
            } else {
                *current_layer = *from;
            }
        },
        EditOp::Resize { from, to } => {
            if forward {
                canvas.size = *to;
            } else {
                canvas.size = *from;
            }
        },
        EditOp::Select { old, new } => {
            if forward {
                canvas.selection = duplicate_selection(new);
            } else {
                canvas.selection = duplicate_selection(old);
            }
        },
    }
    proof {
        assert(doc_of(canvas, *current_layer) =~~= apply_op(dir, before));
    }
}

/// Does the operations first to last where `forward` holds, and takes them
/// back last to first where not.
pub fn replay(canvas: &mut Canvas, current_layer: &mut usize, ops: &Vec<EditOp>, forward: bool)
    requires
        old(canvas).wf(),
        forall|i: int| 0 <= i < ops@.len() ==> (#[trigger] ops@[i]).wf(),
    ensures
        final(canvas).wf(),
        doc_of(final(canvas), *final(current_layer)) == if forward {
            apply_ops(op_views(ops@), doc_of(old(canvas), *old(current_layer)))
        } else {
            revert_ops(op_views(ops@), doc_of(old(canvas), *old(current_layer)))
        },
{
    let ghost before = doc_of(canvas, *current_layer);
    let ghost views = op_views(ops@);
    let n: usize = ops.len();
    if forward {
        let mut i: usize = 0;
        while i < n
            invariant
                canvas.wf(),
                n == ops@.len(),
                i <= n,
                views == op_views(ops@),
                forall|k: int| 0 <= k < ops@.len() ==> (#[trigger] ops@[k]).wf(),
                doc_of(canvas, *current_layer) == apply_ops(views.take(i as int), before),
            decreases n - i,
        {
            proof {
                lemma_apply_step(views, i as int, before);
            }
            perform(canvas, current_layer, &ops[i], true);
            i += 1;
        }
        proof {
            assert(views.take(n as int) =~= views);
        }
    } else {
        let mut i: usize = n;
        proof {
            assert(views.take(n as int) =~= views);
        }
        while i > 0
            invariant
                canvas.wf(),
                n == ops@.len(),
                i <= n,
                views == op_views(ops@),
                forall|k: int| 0 <= k < ops@.len() ==> (#[trigger] ops@[k]).wf(),
                revert_ops(views, before) == revert_ops(
                    views.take(i as int),
                    doc_of(canvas, *current_layer),
                ),
            decreases i,
        {
            proof {
                lemma_revert_step(views, i as int, doc_of(canvas, *current_layer));
            }
            perform(canvas, current_layer, &ops[i - 1], false);
            i -= 1;
        }
    }
}

} // verus!
